//! Matching each repository's declared dependencies against the other
//! repositories found in the same scan. A path dependency that leads to
//! another discovered repository's directory is the strongest signal; a
//! case-insensitive name match is weaker but still a fixed rule. A
//! repository never resolves a dependency to itself.
//!
//! Canonical paths come from the filesystem, so the caller supplies them:
//! `canon[i]` is the canonical path of repository `i` (if it has one) and
//! `hints[i][j]` the canonical path that dependency `j` of repository `i`
//! points at through its path hint (if it has one and it exists).

use vstd::prelude::*;
use crate::model::{Repository, DependencyRef, EvidenceClaim, SourceType, Confidence, claim_view, claims_view};
use crate::text::{str_lowercase, lowercase, str_eq, copy_string, push_str_chars, string_from_chars, opt_chars};

verus! {

/// The last of the first `n` entries equal to `Some(key)`.
pub open spec fn last_index_of(xs: Seq<Option<Seq<char>>>, key: Seq<char>, n: int) -> Option<int>
    decreases n,
{
    if n <= 0 {
        None
    } else if xs[n - 1] == Some(key) {
        Some(n - 1)
    } else {
        last_index_of(xs, key, n - 1)
    }
}

pub open spec fn ids_view(repos: Seq<Repository>) -> Seq<Option<Seq<char>>> {
    repos.map_values(|r: Repository| Some(r.id@))
}

pub open spec fn lowered_names(repos: Seq<Repository>) -> Seq<Option<Seq<char>>> {
    repos.map_values(|r: Repository| Some(str_lowercase(r.name@)))
}

pub open spec fn paths_view(canon: Seq<Option<String>>) -> Seq<Option<Seq<char>>> {
    canon.map_values(|c: Option<String>| opt_chars(c))
}

/// The repository that dependency `j` of repository `i` is a path
/// dependency on, if its hint leads to a discovered repository's directory.
pub open spec fn path_target(
    repos: Seq<Repository>,
    canon: Seq<Option<String>>,
    hints: Seq<Vec<Option<String>>>,
    i: int,
    j: int,
) -> Option<int> {
    if repos[i].dependencies@[j].path_hint is Some {
        match opt_chars(hints[i]@[j]) {
            Some(h) => last_index_of(paths_view(canon), h, canon.len() as int),
            None => None,
        }
    } else {
        None
    }
}

/// The repository whose lowercased name equals dependency `j`'s lowercased
/// name (the last such one).
pub open spec fn name_target(repos: Seq<Repository>, i: int, j: int) -> Option<int> {
    last_index_of(lowered_names(repos), str_lowercase(repos[i].dependencies@[j].name@), repos.len() as int)
}

/// How dependency `j` of repository `i` resolves: the target repository
/// and whether it was found by path. A match on the repository itself
/// does not count.
pub open spec fn resolution(
    repos: Seq<Repository>,
    canon: Seq<Option<String>>,
    hints: Seq<Vec<Option<String>>>,
    i: int,
    j: int,
) -> Option<(int, bool)> {
    match path_target(repos, canon, hints, i, j) {
        Some(k) if repos[k].id@ != repos[i].id@ => Some((k, true)),
        _ => match name_target(repos, i, j) {
            Some(k) if repos[k].id@ != repos[i].id@ => Some((k, false)),
            _ => None,
        },
    }
}

/// The resolutions of the first `n` dependencies of repository `i`, as
/// (repository, dependency, target, by path).
pub open spec fn repo_resolutions(
    repos: Seq<Repository>,
    canon: Seq<Option<String>>,
    hints: Seq<Vec<Option<String>>>,
    i: int,
    n: int,
) -> Seq<(int, int, int, bool)>
    decreases n,
{
    if n <= 0 {
        seq![]
    } else {
        repo_resolutions(repos, canon, hints, i, n - 1) + match resolution(repos, canon, hints, i, n - 1) {
            Some((k, v)) => seq![(i, n - 1, k, v)],
            None => seq![],
        }
    }
}

/// The resolutions of the first `m` repositories, in order.
pub open spec fn resolutions_upto(
    repos: Seq<Repository>,
    canon: Seq<Option<String>>,
    hints: Seq<Vec<Option<String>>>,
    m: int,
) -> Seq<(int, int, int, bool)>
    decreases m,
{
    if m <= 0 {
        seq![]
    } else {
        resolutions_upto(repos, canon, hints, m - 1) + repo_resolutions(
            repos,
            canon,
            hints,
            m - 1,
            repos[m - 1].dependencies@.len() as int,
        )
    }
}

pub open spec fn resolutions(
    repos: Seq<Repository>,
    canon: Seq<Option<String>>,
    hints: Seq<Vec<Option<String>>>,
) -> Seq<(int, int, int, bool)> {
    resolutions_upto(repos, canon, hints, repos.len() as int)
}

/// The position a resolution of repository `i` is written to: the last
/// repository carrying `i`'s id.
pub open spec fn applied_pos(repos: Seq<Repository>, i: int) -> int {
    match last_index_of(ids_view(repos), repos[i].id@, repos.len() as int) {
        Some(p) => p,
        None => i,
    }
}

/// The target of the last resolution written to dependency `j` of the
/// repository at `p`.
pub open spec fn last_resolution_for(repos: Seq<Repository>, rs: Seq<(int, int, int, bool)>, p: int, j: int) -> Option<
    int,
>
    decreases rs.len(),
{
    if rs.len() == 0 {
        None
    } else if applied_pos(repos, rs.last().0) == p && rs.last().1 == j {
        Some(rs.last().2)
    } else {
        last_resolution_for(repos, rs.drop_last(), p, j)
    }
}

/// Every resolution is written to a dependency that exists.
pub open spec fn resolutions_in_bounds(repos: Seq<Repository>, rs: Seq<(int, int, int, bool)>) -> bool {
    forall|t: int|
        0 <= t < rs.len() ==> 0 <= #[trigger] rs[t].1 < repos[applied_pos(repos, rs[t].0)].dependencies@.len()
}

/// The evidence a resolution is recorded with.
pub open spec fn resolution_claim(repos: Seq<Repository>, x: (int, int, int, bool)) -> (
    Seq<char>,
    SourceType,
    Seq<char>,
    Seq<char>,
    Confidence,
    Seq<char>,
    Seq<char>,
) {
    let repo_id = repos[x.0].id@;
    let dep_name = repos[applied_pos(repos, x.0)].dependencies@[x.1].name@;
    (
        repo_id,
        SourceType::Manifest,
        repo_id,
        "dependency_resolver"@,
        Confidence::DeterministicInference,
        dep_name,
        repo_id + " depends_on "@ + repos[x.2].id@ + " (dependency `"@ + dep_name + "` resolved via "@ + (if x.3 {
            "path match"@
        } else {
            "name match"@
        }) + ")"@,
    )
}

/// Everything of a dependency but its resolution is unchanged.
pub open spec fn same_dependency(a: DependencyRef, b: DependencyRef) -> bool {
    &&& a.name == b.name
    &&& a.version_req == b.version_req
    &&& a.manifest == b.manifest
    &&& a.is_path_dependency == b.is_path_dependency
    &&& a.path_hint == b.path_hint
}

/// Everything of a repository but its dependencies is unchanged.
pub open spec fn same_repository(a: Repository, b: Repository) -> bool {
    &&& a.id == b.id
    &&& a.name == b.name
    &&& a.path == b.path
    &&& a.description == b.description
    &&& a.primary_language == b.primary_language
    &&& a.manifests == b.manifests
    &&& a.license == b.license
    &&& a.readme_present == b.readme_present
    &&& a.is_git_repo == b.is_git_repo
    &&& a.default_branch == b.default_branch
    &&& a.last_commit_at == b.last_commit_at
    &&& a.commit_count == b.commit_count
    &&& a.contributor_count == b.contributor_count
    &&& a.dependencies@.len() == b.dependencies@.len()
}

/// The state after the resolutions `rs` are written into `old`.
pub open spec fn resolved_state(old: Seq<Repository>, new: Seq<Repository>, rs: Seq<(int, int, int, bool)>) -> bool {
    &&& new.len() == old.len()
    &&& forall|p: int| 0 <= p < old.len() ==> same_repository(#[trigger] new[p], old[p])
    &&& forall|p: int, j: int|
        0 <= p < old.len() && 0 <= j < old[p].dependencies@.len() ==> {
            &&& same_dependency(#[trigger] new[p].dependencies@[j], old[p].dependencies@[j])
            &&& opt_chars(new[p].dependencies@[j].resolved_repo) == match last_resolution_for(old, rs, p, j) {
                Some(k) => Some(old[k].id@),
                None => opt_chars(old[p].dependencies@[j].resolved_repo),
            }
        }
}

pub open spec fn shapes_match(repos: Seq<Repository>, canon: Seq<Option<String>>, hints: Seq<Vec<Option<String>>>) -> bool {
    &&& canon.len() == repos.len()
    &&& hints.len() == repos.len()
    &&& forall|i: int| 0 <= i < repos.len() ==> #[trigger] hints[i]@.len() == repos[i].dependencies@.len()
}

/// The last entry of `xs` equal to `Some(key)`.
pub(crate) fn find_last(xs: &Vec<Option<String>>, key: &str) -> (r: Option<usize>)
    ensures
        match r {
            Some(k) => k < xs@.len() && last_index_of(paths_view(xs@), key@, xs@.len() as int) == Some(k as int),
            None => last_index_of(paths_view(xs@), key@, xs@.len() as int) is None,
        },
{
    let ghost v = paths_view(xs@);
    let mut k: usize = xs.len();
    while k > 0
        invariant
            k <= xs@.len(),
            v == paths_view(xs@),
            last_index_of(v, key@, xs@.len() as int) == last_index_of(v, key@, k as int),
        decreases k,
    {
        k = k - 1;
        assert(v[k as int] == opt_chars(xs@[k as int]));
        match &xs[k] {
            Some(x) => {
                if str_eq(x.as_str(), key) {
                    return Some(k);
                }
            },
            None => {},
        }
    }
    None
}

pub proof fn lemma_last_index_bounds(xs: Seq<Option<Seq<char>>>, key: Seq<char>, n: int)
    ensures
        match last_index_of(xs, key, n) {
            Some(k) => 0 <= k < n && xs[k] == Some(key),
            None => forall|t: int| 0 <= t < n ==> xs[t] != Some(key),
        },
    decreases n,
{
    if n > 0 {
        lemma_last_index_bounds(xs, key, n - 1);
    }
}

/// How dependency `j` of repository `i` resolves.
fn resolve_one(
    repos: &Vec<Repository>,
    canon: &Vec<Option<String>>,
    hints: &Vec<Vec<Option<String>>>,
    names: &Vec<Option<String>>,
    i: usize,
    j: usize,
) -> (r: Option<(usize, bool)>)
    requires
        shapes_match(repos@, canon@, hints@),
        paths_view(names@) == lowered_names(repos@),
        names@.len() == repos@.len(),
        i < repos@.len(),
        j < repos@[i as int].dependencies@.len(),
    ensures
        match r {
            Some((k, v)) => k < repos@.len() && resolution(repos@, canon@, hints@, i as int, j as int) == Some((k as int, v)),
            None => resolution(repos@, canon@, hints@, i as int, j as int) is None,
        },
{
    let d = &repos[i].dependencies[j];
    assert(hints@[i as int]@.len() == repos@[i as int].dependencies@.len());
    if d.path_hint.is_some() {
        match &hints[i][j] {
            Some(h) => {
                match find_last(canon, h.as_str()) {
                    Some(k) => {
                        if !str_eq(repos[k].id.as_str(), repos[i].id.as_str()) {
                            return Some((k, true));
                        }
                    },
                    None => {},
                }
            },
            None => {},
        }
    }
    let key = lowercase(d.name.as_str());
    proof {
        lemma_last_index_bounds(lowered_names(repos@), key@, repos@.len() as int);
    }
    match find_last(names, key.as_str()) {
        Some(k) => {
            if !str_eq(repos[k].id.as_str(), repos[i].id.as_str()) {
                Some((k, false))
            } else {
                None
            }
        },
        None => None,
    }
}

/// The evidence record for one resolution.
fn dependency_claim(repo_id: &str, target: &str, dep_name: &str, via_path: bool) -> (e: EvidenceClaim)
    ensures
        claim_view(e) == (
            repo_id@,
            SourceType::Manifest,
            repo_id@,
            "dependency_resolver"@,
            Confidence::DeterministicInference,
            dep_name@,
            repo_id@ + " depends_on "@ + target@ + " (dependency `"@ + dep_name@ + "` resolved via "@ + (if via_path {
                "path match"@
            } else {
                "name match"@
            }) + ")"@,
        ),
{
    let mut text: Vec<char> = Vec::new();
    push_str_chars(&mut text, repo_id);
    push_str_chars(&mut text, " depends_on ");
    push_str_chars(&mut text, target);
    push_str_chars(&mut text, " (dependency `");
    push_str_chars(&mut text, dep_name);
    push_str_chars(&mut text, "` resolved via ");
    if via_path {
        push_str_chars(&mut text, "path match");
    } else {
        push_str_chars(&mut text, "name match");
    }
    push_str_chars(&mut text, ")");
    EvidenceClaim {
        source: repo_id.to_string(),
        source_type: SourceType::Manifest,
        repository: repo_id.to_string(),
        extractor: "dependency_resolver".to_string(),
        confidence: Confidence::DeterministicInference,
        raw_reference: dep_name.to_string(),
        derived_claim: string_from_chars(&text),
    }
}

pub open spec fn res_view(v: Seq<(usize, usize, usize, bool)>) -> Seq<(int, int, int, bool)> {
    v.map_values(|x: (usize, usize, usize, bool)| (x.0 as int, x.1 as int, x.2 as int, x.3))
}

/// Every resolution of the scan, in repository then dependency order.
fn collect_resolutions(
    repos: &Vec<Repository>,
    canon: &Vec<Option<String>>,
    hints: &Vec<Vec<Option<String>>>,
) -> (r: Vec<(usize, usize, usize, bool)>)
    requires
        shapes_match(repos@, canon@, hints@),
    ensures
        res_view(r@) == resolutions(repos@, canon@, hints@),
        forall|t: int| 0 <= t < r@.len() ==> #[trigger] r@[t].0 < repos@.len() && r@[t].2 < repos@.len(),
{
    let mut names: Vec<Option<String>> = Vec::new();
    let mut q: usize = 0;
    while q < repos.len()
        invariant
            q <= repos@.len(),
            names@.len() == q,
            forall|t: int| 0 <= t < q ==> #[trigger] opt_chars(names@[t]) == Some(str_lowercase(repos@[t].name@)),
        decreases repos@.len() - q,
    {
        names.push(Some(lowercase(repos[q].name.as_str())));
        q = q + 1;
    }
    assert(paths_view(names@) =~= lowered_names(repos@));
    let mut out: Vec<(usize, usize, usize, bool)> = Vec::new();
    let mut i: usize = 0;
    while i < repos.len()
        invariant
            i <= repos@.len(),
            shapes_match(repos@, canon@, hints@),
            paths_view(names@) == lowered_names(repos@),
            names@.len() == repos@.len(),
            res_view(out@) == resolutions_upto(repos@, canon@, hints@, i as int),
            forall|t: int| 0 <= t < out@.len() ==> #[trigger] out@[t].0 < repos@.len() && out@[t].2 < repos@.len(),
        decreases repos@.len() - i,
    {
        let ghost before = res_view(out@);
        let nd = repos[i].dependencies.len();
        let mut j: usize = 0;
        while j < nd
            invariant
                i < repos@.len(),
                j <= nd,
                nd == repos@[i as int].dependencies@.len(),
                shapes_match(repos@, canon@, hints@),
                paths_view(names@) == lowered_names(repos@),
                names@.len() == repos@.len(),
                before == resolutions_upto(repos@, canon@, hints@, i as int),
                res_view(out@) == before + repo_resolutions(repos@, canon@, hints@, i as int, j as int),
                forall|t: int| 0 <= t < out@.len() ==> #[trigger] out@[t].0 < repos@.len() && out@[t].2 < repos@.len(),
            decreases nd - j,
        {
            let ghost prev = res_view(out@);
            match resolve_one(repos, canon, hints, &names, i, j) {
                Some((k, v)) => {
                    out.push((i, j, k, v));
                    assert(res_view(out@) =~= prev.push((i as int, j as int, k as int, v)));
                    assert(before + repo_resolutions(repos@, canon@, hints@, i as int, j + 1) =~= prev + seq![
                        (i as int, j as int, k as int, v),
                    ]);
                },
                None => {
                    assert(before + repo_resolutions(repos@, canon@, hints@, i as int, j + 1) =~= prev + Seq::<
                        (int, int, int, bool),
                    >::empty());
                },
            }
            j = j + 1;
        }
        i = i + 1;
    }
    out
}

/// Records, on each repository's dependencies, which discovered repository
/// they resolve to, and appends one evidence record per resolution.
pub fn resolve_internal_dependencies(
    repositories: &mut Vec<Repository>,
    evidence: &mut Vec<EvidenceClaim>,
    canon: &Vec<Option<String>>,
    hints: &Vec<Vec<Option<String>>>,
)
    requires
        shapes_match(old(repositories)@, canon@, hints@),
        resolutions_in_bounds(old(repositories)@, resolutions(old(repositories)@, canon@, hints@)),
    ensures
        resolved_state(
            old(repositories)@,
            final(repositories)@,
            resolutions(old(repositories)@, canon@, hints@),
        ),
        claims_view(final(evidence)@) == claims_view(old(evidence)@) + resolutions(
            old(repositories)@,
            canon@,
            hints@,
        ).map_values(|x: (int, int, int, bool)| resolution_claim(old(repositories)@, x)),
{
    let ghost old_repos = repositories@;
    let ghost rs = resolutions(old_repos, canon@, hints@);
    let res = collect_resolutions(repositories, canon, hints);
    let mut ids: Vec<Option<String>> = Vec::new();
    let mut q: usize = 0;
    while q < repositories.len()
        invariant
            q <= old_repos.len(),
            repositories@ == old_repos,
            ids@.len() == q,
            forall|t: int| 0 <= t < q ==> #[trigger] opt_chars(ids@[t]) == Some(old_repos[t].id@),
        decreases old_repos.len() - q,
    {
        ids.push(Some(copy_string(&repositories[q].id)));
        q = q + 1;
    }
    assert(paths_view(ids@) =~= ids_view(old_repos));
    let ghost c0 = claims_view(evidence@);
    let ghost fc = |x: (int, int, int, bool)| resolution_claim(old_repos, x);
    assert(rs.take(0) =~= Seq::<(int, int, int, bool)>::empty());
    assert(claims_view(evidence@) =~= c0 + rs.take(0).map_values(fc));
    let mut m: usize = 0;
    while m < res.len()
        invariant
            m <= res@.len(),
            res_view(res@) == rs,
            rs == resolutions(old_repos, canon@, hints@),
            resolutions_in_bounds(old_repos, rs),
            forall|t: int| 0 <= t < res@.len() ==> #[trigger] res@[t].0 < old_repos.len() && res@[t].2 < old_repos.len(),
            paths_view(ids@) == ids_view(old_repos),
            ids@.len() == old_repos.len(),
            resolved_state(old_repos, repositories@, rs.take(m as int)),
            claims_view(evidence@) == c0 + rs.take(m as int).map_values(fc),
            fc == (|x: (int, int, int, bool)| resolution_claim(old_repos, x)),
        decreases res@.len() - m,
    {
        let (i, j, k, v) = res[m];
        let ghost x = rs[m as int];
        assert(x == (i as int, j as int, k as int, v));
        assert(same_repository(repositories@[i as int], old_repos[i as int]));
        assert(same_repository(repositories@[k as int], old_repos[k as int]));
        proof {
            lemma_last_index_bounds(ids_view(old_repos), old_repos[i as int].id@, old_repos.len() as int);
            assert(ids_view(old_repos)[i as int] == Some(old_repos[i as int].id@));
        }
        let pos = match find_last(&ids, repositories[i].id.as_str()) {
            Some(p) => p,
            None => i,
        };
        assert(pos as int == applied_pos(old_repos, i as int));
        assert(0 <= rs[m as int].1 < old_repos[applied_pos(old_repos, rs[m as int].0)].dependencies@.len());
        assert(same_repository(repositories@[pos as int], old_repos[pos as int]));
        assert(same_dependency(repositories@[pos as int].dependencies@[j as int], old_repos[pos as int].dependencies@[j as int]));
        let dep_name = copy_string(&repositories[pos].dependencies[j].name);
        let target = copy_string(&repositories[k].id);
        let repo_id = copy_string(&repositories[i].id);
        let ghost before = repositories@;
        let mut r = repositories.remove(pos);
        let mut d = r.dependencies.remove(j);
        d.resolved_repo = Some(copy_string(&target));
        r.dependencies.insert(j, d);
        repositories.insert(pos, r);
        let ghost after = repositories@;
        assert(after =~= before.update(pos as int, after[pos as int]));
        assert(after[pos as int].dependencies@ =~= before[pos as int].dependencies@.update(
            j as int,
            after[pos as int].dependencies@[j as int],
        ));
        let ghost tk = rs.take(m + 1);
        assert(tk.drop_last() =~= rs.take(m as int));
        assert(tk.last() == x);
        assert forall|p: int, jj: int|
            0 <= p < old_repos.len() && 0 <= jj < old_repos[p].dependencies@.len() implies {
                &&& same_dependency(#[trigger] after[p].dependencies@[jj], old_repos[p].dependencies@[jj])
                &&& opt_chars(after[p].dependencies@[jj].resolved_repo) == match last_resolution_for(
                    old_repos,
                    tk,
                    p,
                    jj,
                ) {
                    Some(kk) => Some(old_repos[kk].id@),
                    None => opt_chars(old_repos[p].dependencies@[jj].resolved_repo),
                }
            } by {
            assert(same_repository(before[p], old_repos[p]));
            assert(same_dependency(before[p].dependencies@[jj], old_repos[p].dependencies@[jj]));
            if p == pos && jj == j {
                assert(last_resolution_for(old_repos, tk, p, jj) == Some(k as int));
            } else {
                assert(last_resolution_for(old_repos, tk, p, jj) == last_resolution_for(
                    old_repos,
                    rs.take(m as int),
                    p,
                    jj,
                ));
                if p != pos {
                    assert(after[p] == before[p]);
                } else {
                    assert(after[p].dependencies@[jj] == before[p].dependencies@[jj]);
                }
            }
        }
        assert forall|p: int| 0 <= p < old_repos.len() implies same_repository(#[trigger] after[p], old_repos[p]) by {
            assert(same_repository(before[p], old_repos[p]));
        }
        let e = dependency_claim(repo_id.as_str(), target.as_str(), dep_name.as_str(), v);
        let ghost cprev = claims_view(evidence@);
        evidence.push(e);
        assert(claims_view(evidence@) =~= cprev.push(claim_view(e)));
        assert(claim_view(e) == fc(x));
        assert(tk.map_values(fc) =~= rs.take(m as int).map_values(fc).push(fc(x)));
        m = m + 1;
    }
    assert(rs.take(m as int) =~= rs);
}

/// Whether every resolution of the scan is written to a dependency that
/// exists: always so when repository ids are distinct; with a repeated id
/// a resolution goes to the last repository carrying it.
pub fn resolution_fits(
    repositories: &Vec<Repository>,
    canon: &Vec<Option<String>>,
    hints: &Vec<Vec<Option<String>>>,
) -> (r: bool)
    requires
        shapes_match(repositories@, canon@, hints@),
    ensures
        r == resolutions_in_bounds(repositories@, resolutions(repositories@, canon@, hints@)),
{
    let ghost repos = repositories@;
    let ghost rs = resolutions(repos, canon@, hints@);
    let res = collect_resolutions(repositories, canon, hints);
    let mut ids: Vec<Option<String>> = Vec::new();
    let mut q: usize = 0;
    while q < repositories.len()
        invariant
            q <= repos.len(),
            repositories@ == repos,
            ids@.len() == q,
            forall|t: int| 0 <= t < q ==> #[trigger] opt_chars(ids@[t]) == Some(repos[t].id@),
        decreases repos.len() - q,
    {
        ids.push(Some(copy_string(&repositories[q].id)));
        q = q + 1;
    }
    assert(paths_view(ids@) =~= ids_view(repos));
    let mut m: usize = 0;
    while m < res.len()
        invariant
            m <= res@.len(),
            res_view(res@) == rs,
            rs == resolutions(repos, canon@, hints@),
            repositories@ == repos,
            paths_view(ids@) == ids_view(repos),
            ids@.len() == repos.len(),
            forall|t: int| 0 <= t < res@.len() ==> #[trigger] res@[t].0 < repos.len() && res@[t].2 < repos.len(),
            forall|t: int| 0 <= t < m ==> 0 <= #[trigger] rs[t].1 < repos[applied_pos(repos, rs[t].0)].dependencies@.len(),
        decreases res@.len() - m,
    {
        let (i, j, _k, _v) = res[m];
        assert(rs[m as int] == (i as int, j as int, _k as int, _v));
        proof {
            lemma_last_index_bounds(ids_view(repos), repos[i as int].id@, repos.len() as int);
            assert(ids_view(repos)[i as int] == Some(repos[i as int].id@));
        }
        let pos = match find_last(&ids, repositories[i].id.as_str()) {
            Some(p) => p,
            None => i,
        };
        assert(pos as int == applied_pos(repos, i as int));
        if j >= repositories[pos].dependencies.len() {
            assert(rs.len() == res@.len());
            assert(!(0 <= rs[m as int].1 < repos[applied_pos(repos, rs[m as int].0)].dependencies@.len()));
            assert(!resolutions_in_bounds(repos, rs));
            return false;
        }
        m = m + 1;
    }
    assert(rs.len() == res@.len());
    true
}

} // verus!
