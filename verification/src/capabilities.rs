//! Capability extraction: "what does this repository do", answered
//! without running any of its code. A declared binary or script entry
//! point (Cargo `[[bin]]` or `src/main.rs`, npm `bin`, PEP 621 or Poetry
//! `scripts`, a Go `package main`), plus a description, makes a `Cli`
//! capability whose `evidence_sources` counts the signals that agree. A
//! repository with a manifest but no entry point gets one weaker
//! `Library` capability.

use vstd::prelude::*;
use crate::model::{
    Repository, ManifestKind, Capability, CapabilityKind, EvidenceClaim, SourceType, Confidence, claim_view,
    claims_view,
};
use crate::text::{
    chars_of, trim, copy_string, strings_view, push_str_chars, string_from_chars, opt_chars, trim_range,
    range_starts_with,
};
use crate::document::{DocValue, toml_document, json_document, parse_toml, parse_json, doc_get, opt_get, get_str, doc_table, opt_str, get, get_opt, str_value, entry};
use crate::analysis::{strictly_sorted, insert_sorted_name};
use crate::rust_scan::{line_starts, line_starts_of, line_starts_ok, line_text};

verus! {

/// The `name` of each `[[bin]]` entry that has one.
pub open spec fn bin_names(items: Seq<DocValue>) -> Seq<Seq<char>>
    decreases items.len(),
{
    if items.len() == 0 {
        seq![]
    } else {
        (match get_str(Some(items[0]), "name"@) {
            Some(n) => seq![n],
            None => seq![],
        }) + bin_names(items.drop_first())
    }
}

/// The binaries a parsed `Cargo.toml` declares; with no `[[bin]]` name,
/// the package itself when it has a `src/main.rs`.
pub open spec fn cargo_bins(doc: DocValue, package_name: Seq<char>, has_src_main: bool) -> Seq<Seq<char>> {
    let names = match doc_get(doc, "bin"@) {
        Some(DocValue::Array(a)) => bin_names(a@),
        _ => seq![],
    };
    if names.len() == 0 && has_src_main {
        seq![package_name]
    } else {
        names
    }
}

/// The keys of a table, in entry order.
pub open spec fn table_keys(es: Seq<(String, DocValue)>) -> Seq<Seq<char>> {
    es.map_values(|e: (String, DocValue)| e.0@)
}

/// The binaries a parsed `package.json` declares: the package name for a
/// string `bin`, each key of a `bin` object.
pub open spec fn npm_bins(doc: DocValue) -> Seq<Seq<char>> {
    match doc_get(doc, "bin"@) {
        Some(DocValue::Str(_)) => match get_str(Some(doc), "name"@) {
            Some(n) => seq![n],
            None => seq![],
        },
        Some(DocValue::Table(es)) => table_keys(es@),
        _ => seq![],
    }
}

/// The scripts a parsed `pyproject.toml` declares: `[project.scripts]`,
/// else `[tool.poetry.scripts]`.
pub open spec fn python_bins(doc: DocValue) -> Seq<Seq<char>> {
    match doc_table(opt_get(doc_get(doc, "project"@), "scripts"@)) {
        Some(es) => table_keys(es),
        None => match doc_table(opt_get(opt_get(doc_get(doc, "tool"@), "poetry"@), "scripts"@)) {
            Some(es) => table_keys(es),
            None => seq![],
        },
    }
}

/// The keys of a table, copied out.
fn keys_of(es: &Vec<(String, DocValue)>) -> (r: Vec<String>)
    ensures
        strings_view(r@) == table_keys(es@),
{
    let mut out: Vec<String> = Vec::new();
    let mut k: usize = 0;
    while k < es.len()
        invariant
            k <= es@.len(),
            strings_view(out@) == table_keys(es@).take(k as int),
        decreases es@.len() - k,
    {
        let ghost before = strings_view(out@);
        out.push(copy_string(&es[k].0));
        assert(strings_view(out@) =~= before.push(es@[k as int].0@));
        assert(table_keys(es@).take(k + 1) =~= table_keys(es@).take(k as int).push(es@[k as int].0@));
        k = k + 1;
    }
    assert(table_keys(es@).take(k as int) =~= table_keys(es@));
    out
}

/// The binaries a parsed `Cargo.toml` declares.
pub fn cargo_bins_of(doc: &DocValue, package_name: &str, has_src_main: bool) -> (r: Vec<String>)
    ensures
        strings_view(r@) == cargo_bins(*doc, package_name@, has_src_main),
{
    let mut names: Vec<String> = Vec::new();
    match get(doc, "bin") {
        Some(DocValue::Array(a)) => {
            let ghost items = a@;
            let mut k: usize = 0;
            assert(items.skip(0) =~= items);
            assert(strings_view(names@) + bin_names(items) =~= bin_names(items));
            while k < a.len()
                invariant
                    k <= items.len(),
                    items == a@,
                    bin_names(items) == strings_view(names@) + bin_names(items.skip(k as int)),
                decreases items.len() - k,
            {
                let ghost rest = items.skip(k as int);
                assert(rest[0] == items[k as int]);
                assert(rest.drop_first() =~= items.skip(k + 1));
                let ghost before = strings_view(names@);
                let ghost tail = bin_names(items.skip(k + 1));
                match str_value(get(&a[k], "name")) {
                    Some(n) => {
                        names.push(n);
                        assert(strings_view(names@) =~= before.push(n@));
                        assert(before + (seq![n@] + tail) =~= before.push(n@) + tail);
                    },
                    None => {
                        assert(Seq::<Seq<char>>::empty() + tail =~= tail);
                    },
                }
                k = k + 1;
            }
            assert(items.skip(k as int) =~= Seq::<DocValue>::empty());
            assert(strings_view(names@) + Seq::empty() =~= strings_view(names@));
        },
        _ => {
            assert(strings_view(names@) =~= Seq::<Seq<char>>::empty());
        },
    }
    if names.len() == 0 && has_src_main {
        names.push(package_name.to_string());
        assert(strings_view(names@) =~= seq![package_name@]);
    }
    names
}

/// The binaries a `Cargo.toml`'s text declares; none when it is not valid
/// TOML. `has_src_main` says whether the repository has a `src/main.rs`.
pub fn cargo_binaries(content: &str, package_name: &str, has_src_main: bool) -> (r: Vec<String>)
    ensures
        strings_view(r@) == match toml_document(content@) {
            Some(doc) => cargo_bins(doc, package_name@, has_src_main),
            None => seq![],
        },
{
    match parse_toml(content) {
        Some(doc) => cargo_bins_of(&doc, package_name, has_src_main),
        None => {
            let v: Vec<String> = Vec::new();
            assert(strings_view(v@) =~= Seq::<Seq<char>>::empty());
            v
        },
    }
}

/// The binaries a parsed `package.json` declares.
pub fn npm_bins_of(doc: &DocValue) -> (r: Vec<String>)
    ensures
        strings_view(r@) == npm_bins(*doc),
{
    match get(doc, "bin") {
        Some(DocValue::Str(_)) => {
            let mut v: Vec<String> = Vec::new();
            match str_value(get(doc, "name")) {
                Some(n) => {
                    v.push(n);
                    assert(strings_view(v@) =~= seq![n@]);
                },
                None => {
                    assert(strings_view(v@) =~= Seq::<Seq<char>>::empty());
                },
            }
            v
        },
        Some(DocValue::Table(es)) => keys_of(es),
        _ => {
            let v: Vec<String> = Vec::new();
            assert(strings_view(v@) =~= Seq::<Seq<char>>::empty());
            v
        },
    }
}

/// The binaries a `package.json`'s text declares; none when it is not
/// valid JSON.
pub fn npm_binaries(content: &str) -> (r: Vec<String>)
    ensures
        strings_view(r@) == match json_document(content@) {
            Some(doc) => npm_bins(doc),
            None => seq![],
        },
{
    match parse_json(content) {
        Some(doc) => npm_bins_of(&doc),
        None => {
            let v: Vec<String> = Vec::new();
            assert(strings_view(v@) =~= Seq::<Seq<char>>::empty());
            v
        },
    }
}

/// The scripts a parsed `pyproject.toml` declares.
pub fn python_scripts_of(doc: &DocValue) -> (r: Vec<String>)
    ensures
        strings_view(r@) == python_bins(*doc),
{
    match get_opt(get(doc, "project"), "scripts") {
        Some(DocValue::Table(es)) => keys_of(es),
        _ => match get_opt(get_opt(get(doc, "tool"), "poetry"), "scripts") {
            Some(DocValue::Table(es)) => keys_of(es),
            _ => {
                let v: Vec<String> = Vec::new();
                assert(strings_view(v@) =~= Seq::<Seq<char>>::empty());
                v
            },
        },
    }
}

/// The scripts a `pyproject.toml`'s text declares; none when it is not
/// valid TOML.
pub fn python_scripts(content: &str) -> (r: Vec<String>)
    ensures
        strings_view(r@) == match toml_document(content@) {
            Some(doc) => python_bins(doc),
            None => seq![],
        },
{
    match parse_toml(content) {
        Some(doc) => python_scripts_of(&doc),
        None => {
            let v: Vec<String> = Vec::new();
            assert(strings_view(v@) =~= Seq::<Seq<char>>::empty());
            v
        },
    }
}

/// Some line of a Go file, trimmed, reads `package main`.
pub open spec fn declares_package_main(s: Seq<char>) -> bool {
    exists|li: int| 0 <= li < line_starts(s).len() && trim(#[trigger] line_text(s, line_starts(s), li)) == "package main"@
}

/// Whether a Go file's text has a `package main` line: a text search, not
/// a parse.
pub fn contains_package_main(content: &str) -> (r: bool)
    ensures
        r == declares_package_main(content@),
{
    let chars = chars_of(content);
    let ghost s = chars@;
    let ls = line_starts_of(&chars);
    let ghost lsp = line_starts(s);
    let nl = ls.len();
    let target = chars_of("package main");
    let tn = target.len();
    let mut k: usize = 0;
    while k < nl
        invariant
            k <= nl,
            nl == ls@.len(),
            nl == lsp.len(),
            lsp == line_starts(s),
            s == chars@,
            s == content@,
            ls@.map_values(|x: usize| x as int) == lsp,
            line_starts_ok(s, lsp),
            target@ == "package main"@,
            tn == target@.len(),
            forall|li: int| 0 <= li < k ==> trim(#[trigger] line_text(s, lsp, li)) != "package main"@,
        decreases nl - k,
    {
        assert(ls@.map_values(|x: usize| x as int)[k as int] == lsp[k as int]);
        let start = ls[k];
        let end = if k + 1 < nl {
            assert(ls@.map_values(|x: usize| x as int)[k + 1] == lsp[k + 1]);
            ls[k + 1]
        } else {
            chars.len()
        };
        assert(line_text(s, lsp, k as int) == chars@.subrange(start as int, end as int));
        let (a, b) = trim_range(&chars, start, end);
        if b - a == tn && range_starts_with(&chars, a, b, &target) {
            assert(chars@.subrange(a as int, b as int).subrange(0, tn as int) =~= chars@.subrange(a as int, b as int));
            return true;
        }
        proof {
            if trim(line_text(s, lsp, k as int)) == "package main"@ {
                assert(chars@.subrange(a as int, b as int).subrange(0, target@.len() as int) =~= chars@.subrange(a as int, b as int));
            }
        }
        k = k + 1;
    }
    false
}

/// The Go commands of a repository: the repository directory's own name
/// when a top-level `.go` file is `package main`, then each `cmd/<name>`
/// directory holding such a file.
pub open spec fn go_bins(dir_name: Option<Seq<char>>, top_level_main: bool, cmd_dirs: Seq<(String, bool)>) -> Seq<Seq<char>> {
    (if top_level_main && dir_name is Some {
        seq![dir_name.unwrap()]
    } else {
        seq![]
    }) + cmd_dirs.filter(|d: (String, bool)| d.1).map_values(|d: (String, bool)| d.0@)
}

/// The Go commands of a repository, from what its directories hold:
/// whether a top-level `.go` file is `package main`, and for each
/// `cmd/<name>` directory whether one of its `.go` files is.
pub fn go_binaries(dir_name: Option<&str>, top_level_main: bool, cmd_dirs: &Vec<(String, bool)>) -> (r: Vec<String>)
    ensures
        strings_view(r@) == go_bins(
            match dir_name {
                Some(d) => Some(d@),
                None => None,
            },
            top_level_main,
            cmd_dirs@,
        ),
{
    let mut names: Vec<String> = Vec::new();
    match dir_name {
        Some(d) => {
            if top_level_main {
                names.push(d.to_string());
            }
        },
        None => {},
    }
    let ghost head = strings_view(names@);
    let ghost f = |d: (String, bool)| d.1;
    let ghost g = |d: (String, bool)| d.0@;
    let mut k: usize = 0;
    assert(cmd_dirs@.take(0).filter(f) =~= Seq::<(String, bool)>::empty());
    while k < cmd_dirs.len()
        invariant
            k <= cmd_dirs@.len(),
            f == (|d: (String, bool)| d.1),
            g == (|d: (String, bool)| d.0@),
            strings_view(names@) == head + cmd_dirs@.take(k as int).filter(f).map_values(g),
        decreases cmd_dirs@.len() - k,
    {
        let ghost before = strings_view(names@);
        assert(cmd_dirs@.take(k + 1).drop_last() =~= cmd_dirs@.take(k as int));
        reveal(Seq::filter);
        if cmd_dirs[k].1 {
            names.push(copy_string(&cmd_dirs[k].0));
            assert(cmd_dirs@.take(k + 1).filter(f) =~= cmd_dirs@.take(k as int).filter(f).push(cmd_dirs@[k as int]));
            assert(strings_view(names@) =~= before.push(cmd_dirs@[k as int].0@));
        } else {
            assert(cmd_dirs@.take(k + 1).filter(f) =~= cmd_dirs@.take(k as int).filter(f));
        }
        k = k + 1;
    }
    assert(cmd_dirs@.take(k as int) =~= cmd_dirs@);
    names
}

/// The entry points a manifest kind contributes.
pub open spec fn kind_bins(
    k: ManifestKind,
    cargo: Seq<Seq<char>>,
    npm: Seq<Seq<char>>,
    python: Seq<Seq<char>>,
    go: Seq<Seq<char>>,
) -> Seq<Seq<char>> {
    match k {
        ManifestKind::Cargo => cargo,
        ManifestKind::Npm => npm,
        ManifestKind::PyprojectPoetry => python,
        ManifestKind::PyprojectPep621 => python,
        ManifestKind::Go => go,
    }
}

/// `name` is an entry point of one of the repository's manifest kinds.
pub open spec fn declared(
    ms: Seq<ManifestKind>,
    cargo: Seq<Seq<char>>,
    npm: Seq<Seq<char>>,
    python: Seq<Seq<char>>,
    go: Seq<Seq<char>>,
    name: Seq<char>,
) -> bool {
    exists|m: int| 0 <= m < ms.len() && kind_bins(#[trigger] ms[m], cargo, npm, python, go).contains(name)
}

/// The entry points a repository declares across its manifests, sorted,
/// each once. `cargo`, `npm`, `python` and `go` are what each kind's
/// manifest declares.
pub fn declared_binaries(
    manifests: &Vec<ManifestKind>,
    cargo: &Vec<String>,
    npm: &Vec<String>,
    python: &Vec<String>,
    go: &Vec<String>,
) -> (r: Vec<String>)
    ensures
        strictly_sorted(strings_view(r@)),
        forall|name: Seq<char>|
            #[trigger] strings_view(r@).contains(name) <==> declared(
                manifests@,
                strings_view(cargo@),
                strings_view(npm@),
                strings_view(python@),
                strings_view(go@),
                name,
            ),
{
    let ghost cv = strings_view(cargo@);
    let ghost nv = strings_view(npm@);
    let ghost pv = strings_view(python@);
    let ghost gv = strings_view(go@);
    let mut names: Vec<String> = Vec::new();
    let mut m: usize = 0;
    while m < manifests.len()
        invariant
            m <= manifests@.len(),
            cv == strings_view(cargo@),
            nv == strings_view(npm@),
            pv == strings_view(python@),
            gv == strings_view(go@),
            strictly_sorted(strings_view(names@)),
            forall|name: Seq<char>|
                #[trigger] strings_view(names@).contains(name) <==> exists|q: int|
                    0 <= q < m && kind_bins(#[trigger] manifests@[q], cv, nv, pv, gv).contains(name),
        decreases manifests@.len() - m,
    {
        let src: &Vec<String> = match manifests[m] {
            ManifestKind::Cargo => cargo,
            ManifestKind::Npm => npm,
            ManifestKind::PyprojectPoetry => python,
            ManifestKind::PyprojectPep621 => python,
            ManifestKind::Go => go,
        };
        assert(strings_view(src@) == kind_bins(manifests@[m as int], cv, nv, pv, gv));
        let ghost start = strings_view(names@);
        let mut k: usize = 0;
        while k < src.len()
            invariant
                k <= src@.len(),
                strictly_sorted(strings_view(names@)),
                forall|name: Seq<char>|
                    #[trigger] strings_view(names@).contains(name) <==> (start.contains(name) || strings_view(src@).take(
                        k as int,
                    ).contains(name)),
            decreases src@.len() - k,
        {
            let ghost before = strings_view(names@);
            insert_sorted_name(&mut names, copy_string(&src[k]));
            assert forall|name: Seq<char>|
                #[trigger] strings_view(names@).contains(name) <==> (start.contains(name) || strings_view(src@).take(
                    k + 1,
                ).contains(name)) by {
                let t1 = strings_view(src@).take(k + 1);
                let t0 = strings_view(src@).take(k as int);
                assert(t1 =~= t0.push(src@[k as int]@));
                if t1.contains(name) {
                    let i = choose|i: int| 0 <= i < t1.len() && t1[i] == name;
                    if i < k {
                        assert(t0[i] == name);
                    }
                }
                if t0.contains(name) {
                    let i = choose|i: int| 0 <= i < t0.len() && t0[i] == name;
                    assert(t1[i] == name);
                }
                if name == src@[k as int]@ {
                    assert(t1[k as int] == name);
                }
            }
            k = k + 1;
        }
        assert(strings_view(src@).take(k as int) =~= strings_view(src@));
        assert forall|name: Seq<char>|
            #[trigger] strings_view(names@).contains(name) <==> exists|q: int|
                0 <= q < m + 1 && kind_bins(#[trigger] manifests@[q], cv, nv, pv, gv).contains(name) by {
            if exists|q: int| 0 <= q < m + 1 && kind_bins(#[trigger] manifests@[q], cv, nv, pv, gv).contains(name) {
                let q = choose|q: int| 0 <= q < m + 1 && kind_bins(#[trigger] manifests@[q], cv, nv, pv, gv).contains(name);
                if q < m {
                    assert(start.contains(name));
                }
            }
        }
        m = m + 1;
    }
    names
}

pub open spec fn capability_view(c: Capability) -> (Seq<char>, Seq<char>, Seq<char>, CapabilityKind, Option<Seq<char>>, int) {
    (c.id@, c.repository@, c.name@, c.kind, opt_chars(c.description), c.evidence_sources as int)
}

pub open spec fn capabilities_view(v: Seq<Capability>) -> Seq<(Seq<char>, Seq<char>, Seq<char>, CapabilityKind, Option<Seq<char>>, int)> {
    v.map_values(|c: Capability| capability_view(c))
}

/// 1 for a present signal, 0 for an absent one.
pub open spec fn signal(b: bool) -> int {
    if b {
        1
    } else {
        0
    }
}

/// The CLI capability for one declared entry point.
pub open spec fn cli_capability(repo: Repository, name: Seq<char>) -> (
    Seq<char>,
    Seq<char>,
    Seq<char>,
    CapabilityKind,
    Option<Seq<char>>,
    int,
) {
    (
        repo.id@ + ":"@ + name,
        repo.id@,
        name,
        CapabilityKind::Cli,
        opt_chars(repo.description),
        1 + signal(repo.description is Some) + signal(repo.readme_present),
    )
}

pub open spec fn cli_claim(repo: Repository, name: Seq<char>) -> (
    Seq<char>,
    SourceType,
    Seq<char>,
    Seq<char>,
    Confidence,
    Seq<char>,
    Seq<char>,
) {
    (
        repo.path@,
        SourceType::Manifest,
        repo.id@,
        "capability_extractor"@,
        Confidence::DeterministicInference,
        name,
        repo.id@ + " exposes a CLI capability named `"@ + name + "`"@,
    )
}

/// The library capability of a repository with a manifest but no entry
/// point.
pub open spec fn library_capability(repo: Repository) -> (
    Seq<char>,
    Seq<char>,
    Seq<char>,
    CapabilityKind,
    Option<Seq<char>>,
    int,
) {
    (
        repo.id@ + ":library"@,
        repo.id@,
        repo.name@,
        CapabilityKind::Library,
        opt_chars(repo.description),
        1 + signal(repo.description is Some),
    )
}

pub open spec fn library_claim(repo: Repository) -> (
    Seq<char>,
    SourceType,
    Seq<char>,
    Seq<char>,
    Confidence,
    Seq<char>,
    Seq<char>,
) {
    (
        repo.path@,
        SourceType::Manifest,
        repo.id@,
        "capability_extractor"@,
        Confidence::DeterministicInference,
        "no bin/script entry point found"@,
        repo.id@ + " is a library capability (no declared entry point)"@,
    )
}

fn copy_opt(o: &Option<String>) -> (r: Option<String>)
    ensures
        opt_chars(r) == opt_chars(*o),
{
    match o {
        Some(s) => Some(copy_string(s)),
        None => None,
    }
}

/// The capabilities of a repository, given the entry points it declares
/// (`declared_binaries`), with one evidence record each: a `Cli`
/// capability per entry point; without any, one `Library` capability if
/// the repository has a manifest, else nothing.
pub fn extract(repo: &Repository, binaries: &Vec<String>) -> (r: (Vec<Capability>, Vec<EvidenceClaim>))
    ensures
        binaries@.len() == 0 && repo.manifests@.len() == 0 ==> r.0@.len() == 0 && r.1@.len() == 0,
        binaries@.len() == 0 && repo.manifests@.len() > 0 ==> capabilities_view(r.0@) == seq![library_capability(*repo)]
            && claims_view(r.1@) == seq![library_claim(*repo)],
        binaries@.len() > 0 ==> capabilities_view(r.0@) == strings_view(binaries@).map_values(
            |b: Seq<char>| cli_capability(*repo, b),
        ) && claims_view(r.1@) == strings_view(binaries@).map_values(|b: Seq<char>| cli_claim(*repo, b)),
{
    let mut caps: Vec<Capability> = Vec::new();
    let mut claims: Vec<EvidenceClaim> = Vec::new();
    let has_desc = repo.description.is_some();
    if binaries.len() == 0 {
        if repo.manifests.len() == 0 {
            return (caps, claims);
        }
        let mut id: Vec<char> = Vec::new();
        push_str_chars(&mut id, repo.id.as_str());
        push_str_chars(&mut id, ":library");
        let mut text: Vec<char> = Vec::new();
        push_str_chars(&mut text, repo.id.as_str());
        push_str_chars(&mut text, " is a library capability (no declared entry point)");
        let c = Capability {
            id: string_from_chars(&id),
            repository: copy_string(&repo.id),
            name: copy_string(&repo.name),
            kind: CapabilityKind::Library,
            description: copy_opt(&repo.description),
            evidence_sources: if has_desc {
                2
            } else {
                1
            },
        };
        let e = EvidenceClaim {
            source: copy_string(&repo.path),
            source_type: SourceType::Manifest,
            repository: copy_string(&repo.id),
            extractor: "capability_extractor".to_string(),
            confidence: Confidence::DeterministicInference,
            raw_reference: "no bin/script entry point found".to_string(),
            derived_claim: string_from_chars(&text),
        };
        caps.push(c);
        claims.push(e);
        assert(capabilities_view(caps@) =~= seq![library_capability(*repo)]);
        assert(claims_view(claims@) =~= seq![library_claim(*repo)]);
        return (caps, claims);
    }
    let sources: u32 = 1 + (if has_desc {
        1u32
    } else {
        0u32
    }) + (if repo.readme_present {
        1u32
    } else {
        0u32
    });
    let ghost fc = |b: Seq<char>| cli_capability(*repo, b);
    let ghost fe = |b: Seq<char>| cli_claim(*repo, b);
    let mut k: usize = 0;
    while k < binaries.len()
        invariant
            k <= binaries@.len(),
            sources as int == 1 + signal(repo.description is Some) + signal(repo.readme_present),
            has_desc == repo.description is Some,
            fc == (|b: Seq<char>| cli_capability(*repo, b)),
            fe == (|b: Seq<char>| cli_claim(*repo, b)),
            capabilities_view(caps@) == strings_view(binaries@).take(k as int).map_values(fc),
            claims_view(claims@) == strings_view(binaries@).take(k as int).map_values(fe),
        decreases binaries@.len() - k,
    {
        let name = &binaries[k];
        let mut id: Vec<char> = Vec::new();
        push_str_chars(&mut id, repo.id.as_str());
        push_str_chars(&mut id, ":");
        push_str_chars(&mut id, name.as_str());
        let mut text: Vec<char> = Vec::new();
        push_str_chars(&mut text, repo.id.as_str());
        push_str_chars(&mut text, " exposes a CLI capability named `");
        push_str_chars(&mut text, name.as_str());
        push_str_chars(&mut text, "`");
        let c = Capability {
            id: string_from_chars(&id),
            repository: copy_string(&repo.id),
            name: copy_string(name),
            kind: CapabilityKind::Cli,
            description: copy_opt(&repo.description),
            evidence_sources: sources,
        };
        let e = EvidenceClaim {
            source: copy_string(&repo.path),
            source_type: SourceType::Manifest,
            repository: copy_string(&repo.id),
            extractor: "capability_extractor".to_string(),
            confidence: Confidence::DeterministicInference,
            raw_reference: copy_string(name),
            derived_claim: string_from_chars(&text),
        };
        let ghost cb = capabilities_view(caps@);
        let ghost eb = claims_view(claims@);
        caps.push(c);
        claims.push(e);
        let ghost tk = strings_view(binaries@).take(k + 1);
        assert(tk =~= strings_view(binaries@).take(k as int).push(name@));
        assert(capabilities_view(caps@) =~= cb.push(fc(name@)));
        assert(claims_view(claims@) =~= eb.push(fe(name@)));
        assert(tk.map_values(fc) =~= strings_view(binaries@).take(k as int).map_values(fc).push(fc(name@)));
        assert(tk.map_values(fe) =~= strings_view(binaries@).take(k as int).map_values(fe).push(fe(name@)));
        k = k + 1;
    }
    assert(strings_view(binaries@).take(k as int) =~= strings_view(binaries@));
    (caps, claims)
}

} // verus!
