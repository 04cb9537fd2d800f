//! Ingesting one repository: what its manifests declare, whether it has a
//! README, and what its git history shows, each claim backed by an
//! evidence record. Reading files and walking history is the caller's
//! part; this module decides what the findings mean.

use vstd::prelude::*;
use crate::model::{
    Repository, DependencyRef, ManifestKind, EvidenceClaim, SourceType, Confidence, claim_view, claims_view, dep_view,
    deps_view,
};
use crate::text::{
    copy_string, opt_chars, push_str_chars, push_decimal, decimal, string_from_chars, path_join, join_path,
    strings_view,
};
use crate::manifests::{
    ManifestFacts, facts_view, cargo_facts, npm_facts, pyproject_facts, parse_cargo_toml, parse_package_json,
    parse_pyproject_toml,
};
use crate::gomod::{go_facts, parse_go_mod};
use crate::document::{toml_document, json_document};
use crate::probe::{first_occurrences, distinct_candidates};

verus! {

/// What `DateTime::<Utc>::from_timestamp(secs, 0)` answers: whether the
/// instant `secs` seconds after the Unix epoch is representable.
pub uninterp spec fn utc_representable(secs: int) -> bool;

/// `DateTime::<Utc>::to_rfc3339` of the instant `secs` seconds after the
/// Unix epoch.
pub uninterp spec fn utc_rfc3339(secs: int) -> Seq<char>;

/// `DateTime::<Utc>::from_timestamp(secs, 0)` rendered by `to_rfc3339`;
/// `None` when chrono cannot represent the instant. Both depend on `secs`
/// alone (UTC, no locale).
#[verifier::external_body]
fn rfc3339_of(secs: i64) -> (r: Option<String>)
    ensures
        match r {
            Some(s) => utc_representable(secs as int) && s@ == utc_rfc3339(secs as int),
            None => !utc_representable(secs as int),
        },
{
    chrono::DateTime::<chrono::Utc>::from_timestamp(secs, 0).map(|d| d.to_rfc3339())
}

/// What a walk of a repository's history found. `last_commit_at` is a
/// Unix timestamp in seconds.
#[derive(Debug, Clone)]
pub struct GitInfo {
    pub default_branch: Option<String>,
    pub last_commit_at: Option<i64>,
    pub commit_count: Option<u64>,
    pub contributor_count: Option<u64>,
}

/// One commit of a history walk: its author (email, else name), and its
/// time in seconds since the Unix epoch.
#[derive(Debug, Clone)]
pub struct CommitFacts {
    pub author: Option<String>,
    pub seconds: i64,
}

/// The authors of the commits that have one, in order.
pub open spec fn commit_authors(cs: Seq<CommitFacts>) -> Seq<Seq<char>>
    decreases cs.len(),
{
    if cs.len() == 0 {
        seq![]
    } else {
        commit_authors(cs.drop_last()) + match cs.last().author {
            Some(a) => seq![a@],
            None => seq![],
        }
    }
}

/// The time of the latest commit whose time is representable.
pub open spec fn latest_commit(cs: Seq<CommitFacts>) -> Option<i64>
    decreases cs.len(),
{
    if cs.len() == 0 {
        None
    } else {
        let prev = latest_commit(cs.drop_last());
        let t = cs.last().seconds;
        if utc_representable(t as int) && (prev is None || t > prev.unwrap()) {
            Some(t)
        } else {
            prev
        }
    }
}

/// A repository's history, from its walk: the commits found (at most the
/// walk's cap), distinct authors, latest commit time. A repository without
/// a `HEAD` commit has only its branch.
pub fn summarize_history(default_branch: Option<String>, has_head: bool, commits: &Vec<CommitFacts>) -> (r: GitInfo)
    ensures
        opt_chars(r.default_branch) == opt_chars(default_branch),
        !has_head ==> r.last_commit_at is None && r.commit_count is None && r.contributor_count is None,
        has_head ==> r.commit_count == Some(commits@.len() as u64) && r.contributor_count == Some(
            first_occurrences(commit_authors(commits@)).len() as u64,
        ) && r.last_commit_at == latest_commit(commits@),
{
    if !has_head {
        return GitInfo { default_branch, last_commit_at: None, commit_count: None, contributor_count: None };
    }
    let mut authors: Vec<String> = Vec::new();
    let mut last: Option<i64> = None;
    let mut k: usize = 0;
    while k < commits.len()
        invariant
            k <= commits@.len(),
            strings_view(authors@) == commit_authors(commits@.take(k as int)),
            last == latest_commit(commits@.take(k as int)),
            authors@.len() <= k,
        decreases commits@.len() - k,
    {
        let ghost tk = commits@.take(k + 1);
        assert(tk.drop_last() =~= commits@.take(k as int));
        assert(tk.last() == commits@[k as int]);
        match &commits[k].author {
            Some(a) => {
                let ghost before = strings_view(authors@);
                authors.push(copy_string(a));
                assert(strings_view(authors@) =~= before.push(a@));
            },
            None => {
                assert(commit_authors(tk) =~= commit_authors(commits@.take(k as int)));
            },
        }
        let t = commits[k].seconds;
        let ok = rfc3339_of(t).is_some();
        if ok {
            match last {
                Some(p) => {
                    if t > p {
                        last = Some(t);
                    }
                },
                None => {
                    last = Some(t);
                },
            }
        }
        k = k + 1;
    }
    assert(commits@.take(k as int) =~= commits@);
    let distinct = distinct_candidates(&authors);
    proof {
        lemma_first_occurrences_len(strings_view(authors@));
    }
    GitInfo {
        default_branch,
        last_commit_at: last,
        commit_count: Some(commits.len() as u64),
        contributor_count: Some(distinct.len() as u64),
    }
}

proof fn lemma_first_occurrences_len(xs: Seq<Seq<char>>)
    ensures
        first_occurrences(xs).len() <= xs.len(),
    decreases xs.len(),
{
    if xs.len() > 0 {
        lemma_first_occurrences_len(xs.drop_last());
    }
}

/// The manifest files looked for, in order.
pub open spec fn manifest_file(k: int) -> Seq<char> {
    if k == 0 {
        "Cargo.toml"@
    } else if k == 1 {
        "package.json"@
    } else if k == 2 {
        "pyproject.toml"@
    } else {
        "go.mod"@
    }
}

/// The kind recorded for each manifest file (a `pyproject.toml` is
/// recorded as Poetry whichever table it uses).
pub open spec fn manifest_kind_at(k: int) -> ManifestKind {
    if k == 0 {
        ManifestKind::Cargo
    } else if k == 1 {
        ManifestKind::Npm
    } else if k == 2 {
        ManifestKind::PyprojectPoetry
    } else {
        ManifestKind::Go
    }
}

/// What manifest file `k` declares, given its text (`None` when it is
/// missing or unreadable).
pub open spec fn facts_at(k: int, text: Option<String>) -> Option<
    (
        Option<Seq<char>>,
        Option<Seq<char>>,
        Option<Seq<char>>,
        Seq<(Seq<char>, Option<Seq<char>>, ManifestKind, bool, Option<Seq<char>>, Option<Seq<char>>)>,
    ),
> {
    match text {
        None => None,
        Some(t) => if k == 0 {
            match toml_document(t@) {
                Some(d) => Some(cargo_facts(d)),
                None => None,
            }
        } else if k == 1 {
            match json_document(t@) {
                Some(d) => Some(npm_facts(d)),
                None => None,
            }
        } else if k == 2 {
            match toml_document(t@) {
                Some(d) => pyproject_facts(d),
                None => None,
            }
        } else {
            Some(go_facts(t@))
        },
    }
}

/// The manifests among the first `n` files that were read and parsed,
/// with what they declare.
pub open spec fn found_upto(texts: Seq<Option<String>>, n: int) -> Seq<
    (
        int,
        (
            Option<Seq<char>>,
            Option<Seq<char>>,
            Option<Seq<char>>,
            Seq<(Seq<char>, Option<Seq<char>>, ManifestKind, bool, Option<Seq<char>>, Option<Seq<char>>)>,
        ),
    ),
>
    decreases n,
{
    if n <= 0 {
        seq![]
    } else {
        found_upto(texts, n - 1) + match facts_at(n - 1, texts[n - 1]) {
            Some(f) => seq![(n - 1, f)],
            None => seq![],
        }
    }
}

/// The first manifest's value of a field (`0` name, `1` description,
/// `2` license) that has one.
pub open spec fn first_field(
    fs: Seq<
        (
            int,
            (
                Option<Seq<char>>,
                Option<Seq<char>>,
                Option<Seq<char>>,
                Seq<(Seq<char>, Option<Seq<char>>, ManifestKind, bool, Option<Seq<char>>, Option<Seq<char>>)>,
            ),
        ),
    >,
    which: int,
) -> Option<Seq<char>>
    decreases fs.len(),
{
    if fs.len() == 0 {
        None
    } else {
        let v = found_field(fs[0], which);
        if v is Some {
            v
        } else {
            first_field(fs.drop_first(), which)
        }
    }
}

/// Every manifest's dependencies, manifest by manifest.
pub open spec fn all_dependencies(
    fs: Seq<
        (
            int,
            (
                Option<Seq<char>>,
                Option<Seq<char>>,
                Option<Seq<char>>,
                Seq<(Seq<char>, Option<Seq<char>>, ManifestKind, bool, Option<Seq<char>>, Option<Seq<char>>)>,
            ),
        ),
    >,
) -> Seq<(Seq<char>, Option<Seq<char>>, ManifestKind, bool, Option<Seq<char>>, Option<Seq<char>>)>
    decreases fs.len(),
{
    if fs.len() == 0 {
        seq![]
    } else {
        all_dependencies(fs.drop_last()) + fs.last().1.3
    }
}

/// The language a manifest kind implies.
pub open spec fn language_of(k: ManifestKind) -> Seq<char> {
    match k {
        ManifestKind::Cargo => "Rust"@,
        ManifestKind::Npm => "JavaScript/TypeScript"@,
        ManifestKind::PyprojectPoetry => "Python"@,
        ManifestKind::PyprojectPep621 => "Python"@,
        ManifestKind::Go => "Go"@,
    }
}

/// The evidence that manifest file `k` was read.
pub open spec fn manifest_claim(path: Seq<char>, id: Seq<char>, k: int, dep_count: nat) -> (
    Seq<char>,
    SourceType,
    Seq<char>,
    Seq<char>,
    Confidence,
    Seq<char>,
    Seq<char>,
) {
    (
        path_join(path, manifest_file(k)),
        SourceType::Manifest,
        id,
        "manifest_scanner"@,
        Confidence::Observed,
        manifest_file(k),
        manifest_file(k) + " declares "@ + decimal(dep_count) + " dependencies"@,
    )
}

pub open spec fn readme_claim(path: Seq<char>, id: Seq<char>) -> (
    Seq<char>,
    SourceType,
    Seq<char>,
    Seq<char>,
    Confidence,
    Seq<char>,
    Seq<char>,
) {
    (path, SourceType::Readme, id, "filesystem_scanner"@, Confidence::Observed, "README present"@, "Repository has a README"@)
}

/// How a commit time reads in the evidence.
pub open spec fn time_text(t: Option<i64>) -> Seq<char> {
    match t {
        Some(s) => if utc_representable(s as int) {
            utc_rfc3339(s as int)
        } else {
            "unknown"@
        },
        None => "unknown"@,
    }
}

pub open spec fn git_claim(path: Seq<char>, id: Seq<char>, g: GitInfo) -> (
    Seq<char>,
    SourceType,
    Seq<char>,
    Seq<char>,
    Confidence,
    Seq<char>,
    Seq<char>,
) {
    (
        path,
        SourceType::GitHistory,
        id,
        "git_history_scanner"@,
        Confidence::Observed,
        "HEAD revwalk"@,
        decimal(
            match g.commit_count {
                Some(c) => c as nat,
                None => 0,
            },
        ) + " commits by "@ + decimal(
            match g.contributor_count {
                Some(c) => c as nat,
                None => 0,
            },
        ) + " contributor(s), last commit "@ + time_text(g.last_commit_at),
    )
}

pub open spec fn found_field(
    x: (
        int,
        (
            Option<Seq<char>>,
            Option<Seq<char>>,
            Option<Seq<char>>,
            Seq<(Seq<char>, Option<Seq<char>>, ManifestKind, bool, Option<Seq<char>>, Option<Seq<char>>)>,
        ),
    ),
    which: int,
) -> Option<Seq<char>> {
    if which == 0 {
        x.1.0
    } else if which == 1 {
        x.1.1
    } else {
        x.1.2
    }
}

proof fn lemma_first_field_push(
    fs: Seq<
        (
            int,
            (
                Option<Seq<char>>,
                Option<Seq<char>>,
                Option<Seq<char>>,
                Seq<(Seq<char>, Option<Seq<char>>, ManifestKind, bool, Option<Seq<char>>, Option<Seq<char>>)>,
            ),
        ),
    >,
    x: (
        int,
        (
            Option<Seq<char>>,
            Option<Seq<char>>,
            Option<Seq<char>>,
            Seq<(Seq<char>, Option<Seq<char>>, ManifestKind, bool, Option<Seq<char>>, Option<Seq<char>>)>,
        ),
    ),
    which: int,
)
    ensures
        first_field(fs.push(x), which) == if first_field(fs, which) is Some {
            first_field(fs, which)
        } else {
            found_field(x, which)
        },
    decreases fs.len(),
{
    if fs.len() > 0 {
        assert(fs.push(x).drop_first() =~= fs.drop_first().push(x));
        assert(fs.push(x)[0] == fs[0]);
        lemma_first_field_push(fs.drop_first(), x, which);
    } else {
        assert(first_field(fs.push(x).drop_first(), which) is None);
        assert(fs.push(x).drop_first() =~= Seq::<(int, (Option<Seq<char>>, Option<Seq<char>>, Option<Seq<char>>, Seq<(Seq<char>, Option<Seq<char>>, ManifestKind, bool, Option<Seq<char>>, Option<Seq<char>>)>))>::empty());
    }
}

fn copy_opt(o: &Option<String>) -> (r: Option<String>)
    ensures
        opt_chars(r) == opt_chars(*o),
{
    match o {
        Some(s) => Some(copy_string(s)),
        None => None,
    }
}

/// The facts of manifest file `k` from its text.
fn read_manifest(k: usize, text: &Option<String>) -> (r: Option<ManifestFacts>)
    requires
        k < 4,
    ensures
        facts_view(r) == facts_at(k as int, *text),
{
    match text {
        None => None,
        Some(t) => {
            if k == 0 {
                parse_cargo_toml(t.as_str())
            } else if k == 1 {
                parse_package_json(t.as_str())
            } else if k == 2 {
                parse_pyproject_toml(t.as_str())
            } else {
                parse_go_mod(t.as_str())
            }
        },
    }
}

fn manifest_name(k: usize) -> (r: &'static str)
    requires
        k < 4,
    ensures
        r@ == manifest_file(k as int),
{
    if k == 0 {
        "Cargo.toml"
    } else if k == 1 {
        "package.json"
    } else if k == 2 {
        "pyproject.toml"
    } else {
        "go.mod"
    }
}

fn manifest_kind(k: usize) -> (r: ManifestKind)
    requires
        k < 4,
    ensures
        r == manifest_kind_at(k as int),
{
    if k == 0 {
        ManifestKind::Cargo
    } else if k == 1 {
        ManifestKind::Npm
    } else if k == 2 {
        ManifestKind::PyprojectPoetry
    } else {
        ManifestKind::Go
    }
}

fn language(k: ManifestKind) -> (r: &'static str)
    ensures
        r@ == language_of(k),
{
    match k {
        ManifestKind::Cargo => "Rust",
        ManifestKind::Npm => "JavaScript/TypeScript",
        ManifestKind::PyprojectPoetry => "Python",
        ManifestKind::PyprojectPep621 => "Python",
        ManifestKind::Go => "Go",
    }
}

pub open spec fn kinds_found(
    fs: Seq<
        (
            int,
            (
                Option<Seq<char>>,
                Option<Seq<char>>,
                Option<Seq<char>>,
                Seq<(Seq<char>, Option<Seq<char>>, ManifestKind, bool, Option<Seq<char>>, Option<Seq<char>>)>,
            ),
        ),
    >,
) -> Seq<ManifestKind> {
    fs.map_values(
        |x: (
            int,
            (
                Option<Seq<char>>,
                Option<Seq<char>>,
                Option<Seq<char>>,
                Seq<(Seq<char>, Option<Seq<char>>, ManifestKind, bool, Option<Seq<char>>, Option<Seq<char>>)>,
            ),
        )| manifest_kind_at(x.0),
    )
}

pub open spec fn manifest_claims(
    path: Seq<char>,
    id: Seq<char>,
    fs: Seq<
        (
            int,
            (
                Option<Seq<char>>,
                Option<Seq<char>>,
                Option<Seq<char>>,
                Seq<(Seq<char>, Option<Seq<char>>, ManifestKind, bool, Option<Seq<char>>, Option<Seq<char>>)>,
            ),
        ),
    >,
) -> Seq<(Seq<char>, SourceType, Seq<char>, Seq<char>, Confidence, Seq<char>, Seq<char>)> {
    fs.map_values(
        |x: (
            int,
            (
                Option<Seq<char>>,
                Option<Seq<char>>,
                Option<Seq<char>>,
                Seq<(Seq<char>, Option<Seq<char>>, ManifestKind, bool, Option<Seq<char>>, Option<Seq<char>>)>,
            ),
        )| manifest_claim(path, id, x.0, x.1.3.len()),
    )
}

/// The repository's id: its directory name, or `unknown`.
pub open spec fn repo_id_of(dir_name: Option<&str>) -> Seq<char> {
    match dir_name {
        Some(d) => d@,
        None => "unknown"@,
    }
}

/// What ingestion records about a repository, from its manifests' texts
/// (`Cargo.toml`, `package.json`, `pyproject.toml`, `go.mod`, in that
/// order; `None` for one missing or unreadable), whether it has a README,
/// and its git history.
pub open spec fn ingested(
    r: Repository,
    path: Seq<char>,
    dir_name: Option<&str>,
    texts: Seq<Option<String>>,
    readme_present: bool,
    is_git_repo: bool,
    git: Option<GitInfo>,
) -> bool {
    let fs = found_upto(texts, 4);
    let id = repo_id_of(dir_name);
    &&& r.id@ == id
    &&& r.name@ == match first_field(fs, 0) {
        Some(n) => n,
        None => id,
    }
    &&& r.path@ == path
    &&& opt_chars(r.description) == first_field(fs, 1)
    &&& opt_chars(r.license) == first_field(fs, 2)
    &&& r.manifests@ == kinds_found(fs)
    &&& opt_chars(r.primary_language) == if fs.len() == 0 {
        None
    } else {
        Some(language_of(manifest_kind_at(fs[0].0)))
    }
    &&& r.readme_present == readme_present
    &&& r.is_git_repo == is_git_repo
    &&& opt_chars(r.default_branch) == match git {
        Some(g) => opt_chars(g.default_branch),
        None => None,
    }
    &&& r.last_commit_at == match git {
        Some(g) => g.last_commit_at,
        None => None,
    }
    &&& r.commit_count == match git {
        Some(g) => g.commit_count,
        None => None,
    }
    &&& r.contributor_count == match git {
        Some(g) => g.contributor_count,
        None => None,
    }
    &&& deps_view(r.dependencies@) == all_dependencies(fs)
}

/// The evidence ingestion records: one claim per manifest read, one for a
/// README, one for the git history.
pub open spec fn ingest_claims(
    path: Seq<char>,
    dir_name: Option<&str>,
    texts: Seq<Option<String>>,
    readme_present: bool,
    git: Option<GitInfo>,
) -> Seq<(Seq<char>, SourceType, Seq<char>, Seq<char>, Confidence, Seq<char>, Seq<char>)> {
    let id = repo_id_of(dir_name);
    manifest_claims(path, id, found_upto(texts, 4)) + (if readme_present {
        seq![readme_claim(path, id)]
    } else {
        seq![]
    }) + match git {
        Some(g) => seq![git_claim(path, id, g)],
        None => seq![],
    }
}

fn text_claim(
    source: String,
    source_type: SourceType,
    repository: &String,
    extractor: &str,
    raw: String,
    text: &Vec<char>,
) -> (e: EvidenceClaim)
    ensures
        claim_view(e) == (source@, source_type, repository@, extractor@, Confidence::Observed, raw@, text@),
{
    EvidenceClaim {
        source,
        source_type,
        repository: copy_string(repository),
        extractor: extractor.to_string(),
        confidence: Confidence::Observed,
        raw_reference: raw,
        derived_claim: string_from_chars(text),
    }
}

/// Ingests one repository directory.
pub fn ingest_repository(
    path: &str,
    dir_name: Option<&str>,
    manifest_texts: &Vec<Option<String>>,
    readme_present: bool,
    is_git_repo: bool,
    git: Option<GitInfo>,
) -> (r: (Repository, Vec<EvidenceClaim>))
    requires
        manifest_texts@.len() == 4,
    ensures
        ingested(r.0, path@, dir_name, manifest_texts@, readme_present, is_git_repo, git),
        claims_view(r.1@) == ingest_claims(path@, dir_name, manifest_texts@, readme_present, git),
{
    let ghost texts = manifest_texts@;
    let id: String = match dir_name {
        Some(d) => d.to_string(),
        None => "unknown".to_string(),
    };
    let mut evidence: Vec<EvidenceClaim> = Vec::new();
    let mut kinds: Vec<ManifestKind> = Vec::new();
    let mut name: Option<String> = None;
    let mut description: Option<String> = None;
    let mut license: Option<String> = None;
    let mut dependencies: Vec<DependencyRef> = Vec::new();
    assert(claims_view(evidence@) =~= Seq::empty());
    assert(deps_view(dependencies@) =~= Seq::empty());
    assert(kinds@ =~= kinds_found(found_upto(texts, 0)));
    let mut k: usize = 0;
    while k < 4
        invariant
            k <= 4,
            texts == manifest_texts@,
            texts.len() == 4,
            id@ == repo_id_of(dir_name),
            opt_chars(name) == first_field(found_upto(texts, k as int), 0),
            opt_chars(description) == first_field(found_upto(texts, k as int), 1),
            opt_chars(license) == first_field(found_upto(texts, k as int), 2),
            kinds@ == kinds_found(found_upto(texts, k as int)),
            deps_view(dependencies@) == all_dependencies(found_upto(texts, k as int)),
            claims_view(evidence@) == manifest_claims(path@, id@, found_upto(texts, k as int)),
        decreases 4 - k,
    {
        let ghost fs = found_upto(texts, k as int);
        let facts = read_manifest(k, &manifest_texts[k]);
        match facts {
            Some(f) => {
                let ghost fv = f.view();
                let ghost x = (k as int, fv);
                assert(found_upto(texts, k + 1) == fs.push(x));
                proof {
                    lemma_first_field_push(fs, x, 0);
                    lemma_first_field_push(fs, x, 1);
                    lemma_first_field_push(fs, x, 2);
                }
                let kind = manifest_kind(k);
                kinds.push(kind);
                assert(kinds@ =~= kinds_found(fs.push(x)));
                if name.is_none() {
                    name = copy_opt(&f.name);
                }
                if description.is_none() {
                    description = copy_opt(&f.description);
                }
                if license.is_none() {
                    license = copy_opt(&f.license);
                }
                let dep_count = f.dependencies.len();
                let ghost before_deps = deps_view(dependencies@);
                let mut fd = f.dependencies;
                let ghost fdv = deps_view(fd@);
                dependencies.append(&mut fd);
                assert(deps_view(dependencies@) =~= before_deps + fdv);
                assert(fs.push(x).drop_last() =~= fs);
                let file = manifest_name(k);
                let mut text: Vec<char> = Vec::new();
                push_str_chars(&mut text, file);
                push_str_chars(&mut text, " declares ");
                push_decimal(&mut text, dep_count as u64);
                push_str_chars(&mut text, " dependencies");
                let e = text_claim(join_path(path, file), SourceType::Manifest, &id, "manifest_scanner", file.to_string(), &text);
                let ghost cb = claims_view(evidence@);
                evidence.push(e);
                assert(claims_view(evidence@) =~= cb.push(manifest_claim(path@, id@, k as int, fv.3.len())));
                assert(manifest_claims(path@, id@, fs.push(x)) =~= manifest_claims(path@, id@, fs).push(
                    manifest_claim(path@, id@, k as int, fv.3.len()),
                ));
            },
            None => {
                assert(found_upto(texts, k + 1) =~= fs);
            },
        }
        k = k + 1;
    }
    let ghost fs = found_upto(texts, 4);
    let primary_language = if kinds.len() > 0 {
        assert(kinds@[0] == manifest_kind_at(fs[0].0));
        Some(language(kinds[0]).to_string())
    } else {
        None
    };
    let ghost mid = claims_view(evidence@);
    if readme_present {
        let mut text: Vec<char> = Vec::new();
        push_str_chars(&mut text, "Repository has a README");
        let e = text_claim(path.to_string(), SourceType::Readme, &id, "filesystem_scanner", "README present".to_string(), &text);
        evidence.push(e);
        assert(claims_view(evidence@) =~= mid.push(readme_claim(path@, id@)));
    }
    let ghost mid2 = claims_view(evidence@);
    assert(mid2 == mid + (if readme_present {
        seq![readme_claim(path@, id@)]
    } else {
        Seq::empty()
    }));
    let (default_branch, last_commit_at, commit_count, contributor_count) = match &git {
        Some(g) => {
            let mut text: Vec<char> = Vec::new();
            let commits = match g.commit_count {
                Some(c) => c,
                None => 0,
            };
            let contributors = match g.contributor_count {
                Some(c) => c,
                None => 0,
            };
            push_decimal(&mut text, commits);
            push_str_chars(&mut text, " commits by ");
            push_decimal(&mut text, contributors);
            push_str_chars(&mut text, " contributor(s), last commit ");
            let when = match g.last_commit_at {
                Some(t) => match rfc3339_of(t) {
                    Some(s) => s,
                    None => "unknown".to_string(),
                },
                None => "unknown".to_string(),
            };
            push_str_chars(&mut text, when.as_str());
            let e = text_claim(path.to_string(), SourceType::GitHistory, &id, "git_history_scanner", "HEAD revwalk".to_string(), &text);
            evidence.push(e);
            assert(claims_view(evidence@) =~= mid2.push(git_claim(path@, id@, *g)));
            (copy_opt(&g.default_branch), g.last_commit_at, g.commit_count, g.contributor_count)
        },
        None => {
            assert(claims_view(evidence@) =~= mid2 + Seq::empty());
            (None, None, None, None)
        },
    };
    let repo_name = match name {
        Some(n) => n,
        None => copy_string(&id),
    };
    let repo = Repository {
        id,
        name: repo_name,
        path: path.to_string(),
        description,
        primary_language,
        manifests: kinds,
        license,
        readme_present,
        is_git_repo,
        default_branch,
        last_commit_at,
        commit_count,
        contributor_count,
        dependencies,
    };
    (repo, evidence)
}

/// Where a scan starts and how much history it walks per repository.
pub struct ScanConfig {
    pub root: String,
    /// Cap on commits walked per repository.
    pub max_commits: usize,
}

impl Default for ScanConfig {
    fn default() -> (r: Self)
        ensures
            r.root@ == "."@,
            r.max_commits == 20000,
    {
        ScanConfig { root: ".".to_string(), max_commits: 20000 }
    }
}

} // verus!
