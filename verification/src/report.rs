//! What the command line reports about a snapshot: record listings in a
//! stable order, optionally narrowed to one repository, and the counts a
//! scan summary shows.

use vstd::prelude::*;
use crate::analysis::{
    seq_lt, str_lt, strictly_sorted, insert_sorted_name, lemma_seq_lt_transitive,
    lemma_seq_lt_total,
};
use crate::model::{Repository, Capability, CapabilityKind};
use crate::text::{str_eq, copy_string, strings_view};

verus! {

/// Order on `(repository, name)` keys: by repository, then by name.
pub open spec fn key_lt(a: (Seq<char>, Seq<char>), b: (Seq<char>, Seq<char>)) -> bool {
    seq_lt(a.0, b.0) || (a.0 == b.0 && seq_lt(a.1, b.1))
}

pub open spec fn keys_view(keys: Seq<(String, String)>) -> Seq<(Seq<char>, Seq<char>)> {
    keys.map_values(|k: (String, String)| (k.0@, k.1@))
}

pub open spec fn filter_view(repo: Option<&str>) -> Option<Seq<char>> {
    match repo {
        Some(s) => Some(s@),
        None => None,
    }
}

/// Entry `i` belongs in a listing narrowed to `repo`, if any.
pub open spec fn shown(ks: Seq<(Seq<char>, Seq<char>)>, repo: Option<Seq<char>>, i: int) -> bool {
    match repo {
        Some(r) => ks[i].0 == r,
        None => true,
    }
}

/// Entry `i` is listed before entry `j`: by key, and entries with equal
/// keys keep their order.
pub open spec fn shown_before(ks: Seq<(Seq<char>, Seq<char>)>, i: int, j: int) -> bool {
    key_lt(ks[i], ks[j]) || (ks[i] == ks[j] && i < j)
}

proof fn lemma_key_lt_transitive(a: (Seq<char>, Seq<char>), b: (Seq<char>, Seq<char>), c: (Seq<char>, Seq<char>))
    requires
        key_lt(a, b),
        key_lt(b, c),
    ensures
        key_lt(a, c),
{
    if seq_lt(a.0, b.0) {
        if seq_lt(b.0, c.0) {
            lemma_seq_lt_transitive(a.0, b.0, c.0);
        }
    } else if seq_lt(b.0, c.0) {
    } else {
        lemma_seq_lt_transitive(a.1, b.1, c.1);
    }
}

proof fn lemma_key_lt_total(a: (Seq<char>, Seq<char>), b: (Seq<char>, Seq<char>))
    requires
        a != b,
    ensures
        key_lt(a, b) || key_lt(b, a),
{
    if a.0 != b.0 {
        lemma_seq_lt_total(a.0, b.0);
    } else {
        lemma_seq_lt_total(a.1, b.1);
    }
}

proof fn lemma_shown_before_transitive(ks: Seq<(Seq<char>, Seq<char>)>, i: int, j: int, k: int)
    requires
        shown_before(ks, i, j),
        shown_before(ks, j, k),
    ensures
        shown_before(ks, i, k),
{
    if key_lt(ks[i], ks[j]) && key_lt(ks[j], ks[k]) {
        lemma_key_lt_transitive(ks[i], ks[j], ks[k]);
    }
}

fn key_less(a: &(String, String), b: &(String, String)) -> (r: bool)
    ensures
        r == key_lt((a.0@, a.1@), (b.0@, b.1@)),
{
    if str_lt(a.0.as_str(), b.0.as_str()) {
        true
    } else if str_eq(a.0.as_str(), b.0.as_str()) {
        str_lt(a.1.as_str(), b.1.as_str())
    } else {
        false
    }
}

/// The order in which to list records whose `(repository, name)` keys are
/// `keys`: the positions of those in `repo` (of all, without one), sorted
/// by key; records with equal keys keep their order.
pub fn listing_order(keys: &Vec<(String, String)>, repo: Option<&str>) -> (r: Vec<usize>)
    ensures
        forall|k: int| 0 <= k < r@.len() ==> #[trigger] r@[k] < keys@.len() && shown(keys_view(keys@), filter_view(repo), r@[k] as int),
        forall|i: int|
            #![trigger shown(keys_view(keys@), filter_view(repo), i)]
            0 <= i < keys@.len() && shown(keys_view(keys@), filter_view(repo), i) ==> r@.contains(i as usize),
        forall|a: int, b: int|
            0 <= a < b < r@.len() ==> shown_before(keys_view(keys@), #[trigger] r@[a] as int, #[trigger] r@[b] as int),
{
    let ghost ks = keys_view(keys@);
    let ghost fv = filter_view(repo);
    let mut r: Vec<usize> = Vec::new();
    let mut i: usize = 0;
    while i < keys.len()
        invariant
            i <= keys@.len(),
            ks == keys_view(keys@),
            fv == filter_view(repo),
            forall|k: int| 0 <= k < r@.len() ==> #[trigger] r@[k] < i && shown(ks, fv, r@[k] as int),
            forall|j: int| #![trigger shown(ks, fv, j)] 0 <= j < i && shown(ks, fv, j) ==> r@.contains(j as usize),
            forall|a: int, b: int| 0 <= a < b < r@.len() ==> shown_before(ks, #[trigger] r@[a] as int, #[trigger] r@[b] as int),
        decreases keys@.len() - i,
    {
        let take = match repo {
            Some(name) => str_eq(keys[i].0.as_str(), name),
            None => true,
        };
        assert(ks[i as int] == (keys@[i as int].0@, keys@[i as int].1@));
        if take {
            let ghost r0 = r@;
            let mut p: usize = 0;
            while p < r.len() && !key_less(&keys[i], &keys[r[p]])
                invariant
                    p <= r@.len(),
                    r@ == r0,
                    i < keys@.len(),
                    ks == keys_view(keys@),
                    forall|k: int| 0 <= k < r@.len() ==> #[trigger] r@[k] < i,
                    forall|k: int| 0 <= k < p ==> shown_before(ks, #[trigger] r0[k] as int, i as int),
                decreases r@.len() - p,
            {
                let ghost q = r0[p as int] as int;
                assert(ks[q] == (keys@[q].0@, keys@[q].1@));
                proof {
                    if ks[q] != ks[i as int] {
                        lemma_key_lt_total(ks[q], ks[i as int]);
                    }
                }
                p = p + 1;
            }
            proof {
                if p < r0.len() {
                    let q = r0[p as int] as int;
                    assert(ks[q] == (keys@[q].0@, keys@[q].1@));
                    assert(key_lt(ks[i as int], ks[q]));
                    assert forall|k: int| p <= k < r0.len() implies shown_before(ks, i as int, #[trigger] r0[k] as int) by {
                        if k > p {
                            assert(shown_before(ks, q, r0[k] as int));
                            if key_lt(ks[q], ks[r0[k] as int]) {
                                lemma_key_lt_transitive(ks[i as int], ks[q], ks[r0[k] as int]);
                            }
                        }
                    }
                }
            }
            r.insert(p, i);
            let ghost r1 = r@;
            assert(r1 =~= r0.insert(p as int, i));
            assert forall|a: int, b: int| 0 <= a < b < r1.len() implies shown_before(ks, #[trigger] r1[a] as int, #[trigger] r1[b] as int) by {
                if b < p {
                } else if b == p {
                } else if a < p {
                    assert(r1[b] == r0[b - 1]);
                    lemma_shown_before_transitive(ks, r1[a] as int, i as int, r1[b] as int);
                } else if a == p {
                    assert(r1[b] == r0[b - 1]);
                } else {
                    assert(r1[a] == r0[a - 1]);
                    assert(r1[b] == r0[b - 1]);
                }
            }
            assert forall|k: int| 0 <= k < r1.len() implies #[trigger] r1[k] < i + 1 && shown(ks, fv, r1[k] as int) by {
                if k < p {
                } else if k > p {
                    assert(r1[k] == r0[k - 1]);
                }
            }
            assert forall|j: int| #![trigger shown(ks, fv, j)] 0 <= j < i + 1 && shown(ks, fv, j) implies r1.contains(j as usize) by {
                if j == i {
                    assert(r1[p as int] == i);
                } else {
                    assert(r0.contains(j as usize));
                    let m = choose|m: int| 0 <= m < r0.len() && r0[m] == j as usize;
                    if m < p {
                        assert(r1[m] == r0[m]);
                    } else {
                        assert(r1[m + 1] == r0[m]);
                    }
                }
            }
        } else {
            assert(!shown(ks, fv, i as int));
        }
        i = i + 1;
    }
    r
}

/// The language a summary files a repository under.
pub open spec fn language_of(r: Repository) -> Seq<char> {
    match r.primary_language {
        Some(l) => l@,
        None => "unknown"@,
    }
}

/// How many of the first `n` repositories are filed under `l`.
pub open spec fn language_count(repos: Seq<Repository>, n: int, l: Seq<char>) -> nat
    decreases n,
{
    if n <= 0 {
        0
    } else {
        language_count(repos, n - 1, l) + if language_of(repos[n - 1]) == l {
            1nat
        } else {
            0nat
        }
    }
}

proof fn lemma_language_count_bound(repos: Seq<Repository>, n: int, l: Seq<char>)
    requires
        0 <= n,
    ensures
        language_count(repos, n, l) <= n,
        language_count(repos, n, l) > 0 <==> exists|i: int| 0 <= i < n && #[trigger] language_of(repos[i]) == l,
    decreases n,
{
    if n > 0 {
        lemma_language_count_bound(repos, n - 1, l);
        if language_of(repos[n - 1]) == l {
            assert(language_of(repos[n - 1]) == l);
        } else if language_count(repos, n, l) == 0 {
            assert forall|i: int| 0 <= i < n implies #[trigger] language_of(repos[i]) != l by {
                if i < n - 1 {
                    if language_of(repos[i]) == l {
                        assert(exists|i: int| 0 <= i < n - 1 && #[trigger] language_of(repos[i]) == l);
                    }
                }
            }
        } else {
            let w = choose|i: int| 0 <= i < n - 1 && #[trigger] language_of(repos[i]) == l;
            assert(0 <= w < n && language_of(repos[w]) == l);
        }
    }
}

fn language_name(r: &Repository) -> (s: String)
    ensures
        s@ == language_of(*r),
{
    match &r.primary_language {
        Some(l) => copy_string(l),
        None => "unknown".to_string(),
    }
}

fn count_language(repos: &[Repository], l: &str) -> (c: usize)
    ensures
        c == language_count(repos@, repos@.len() as int, l@),
{
    let mut c: usize = 0;
    let mut i: usize = 0;
    while i < repos.len()
        invariant
            i <= repos@.len(),
            c == language_count(repos@, i as int, l@),
        decreases repos@.len() - i,
    {
        proof {
            lemma_language_count_bound(repos@, i as int, l@);
        }
        let name = language_name(&repos[i]);
        if str_eq(name.as_str(), l) {
            c = c + 1;
        }
        i = i + 1;
    }
    c
}

pub open spec fn breakdown_names(v: Seq<(String, usize)>) -> Seq<Seq<char>> {
    v.map_values(|x: (String, usize)| x.0@)
}

/// The languages of `repos` (`unknown` where none is known), in order,
/// each with how many repositories it has.
pub fn language_breakdown(repos: &[Repository]) -> (r: Vec<(String, usize)>)
    ensures
        strictly_sorted(breakdown_names(r@)),
        forall|k: int| 0 <= k < r@.len() ==> #[trigger] r@[k].1 == language_count(repos@, repos@.len() as int, r@[k].0@),
        forall|l: Seq<char>|
            #![trigger language_count(repos@, repos@.len() as int, l)]
            language_count(repos@, repos@.len() as int, l) > 0 <==> breakdown_names(r@).contains(l),
{
    let ghost n = repos@.len() as int;
    let mut names: Vec<String> = Vec::new();
    let mut i: usize = 0;
    while i < repos.len()
        invariant
            i <= repos@.len(),
            strictly_sorted(strings_view(names@)),
            forall|l: Seq<char>|
                strings_view(names@).contains(l) <==> exists|j: int| 0 <= j < i && #[trigger] language_of(repos@[j]) == l,
        decreases repos@.len() - i,
    {
        let name = language_name(&repos[i]);
        let ghost x = name@;
        let ghost v0 = strings_view(names@);
        insert_sorted_name(&mut names, name);
        assert forall|l: Seq<char>|
            strings_view(names@).contains(l) <==> exists|j: int| 0 <= j < i + 1 && #[trigger] language_of(repos@[j]) == l by {
            if strings_view(names@).contains(l) {
                if v0.contains(l) {
                    let j = choose|j: int| 0 <= j < i && #[trigger] language_of(repos@[j]) == l;
                    assert(0 <= j < i + 1 && language_of(repos@[j]) == l);
                } else {
                    assert(language_of(repos@[i as int]) == l);
                }
            }
            if exists|j: int| 0 <= j < i + 1 && #[trigger] language_of(repos@[j]) == l {
                let j = choose|j: int| 0 <= j < i + 1 && #[trigger] language_of(repos@[j]) == l;
                if j < i {
                    assert(exists|j: int| 0 <= j < i && #[trigger] language_of(repos@[j]) == l);
                }
            }
        }
        i = i + 1;
    }
    let mut r: Vec<(String, usize)> = Vec::new();
    let mut k: usize = 0;
    while k < names.len()
        invariant
            k <= names@.len(),
            n == repos@.len(),
            r@.len() == k,
            forall|m: int| 0 <= m < k ==> (#[trigger] r@[m]).0@ == names@[m]@,
            forall|m: int| 0 <= m < k ==> #[trigger] r@[m].1 == language_count(repos@, n, r@[m].0@),
        decreases names@.len() - k,
    {
        let c = count_language(repos, names[k].as_str());
        r.push((copy_string(&names[k]), c));
        k = k + 1;
    }
    assert(breakdown_names(r@) =~= strings_view(names@));
    assert forall|l: Seq<char>|
        #![trigger language_count(repos@, repos@.len() as int, l)]
        language_count(repos@, repos@.len() as int, l) > 0 <==> breakdown_names(r@).contains(l) by {
        lemma_language_count_bound(repos@, n, l);
    }
    r
}

/// How many of the first `n` repositories are git repositories.
pub open spec fn git_tracked_count(repos: Seq<Repository>, n: int) -> nat
    decreases n,
{
    if n <= 0 {
        0
    } else {
        git_tracked_count(repos, n - 1) + if repos[n - 1].is_git_repo {
            1nat
        } else {
            0nat
        }
    }
}

/// The commits counted in the first `n` repositories.
pub open spec fn commit_total(repos: Seq<Repository>, n: int) -> nat
    decreases n,
{
    if n <= 0 {
        0
    } else {
        commit_total(repos, n - 1) + match repos[n - 1].commit_count {
            Some(c) => c as nat,
            None => 0nat,
        }
    }
}

/// How many of the first `n` capabilities are CLI capabilities.
pub open spec fn cli_count(caps: Seq<Capability>, n: int) -> nat
    decreases n,
{
    if n <= 0 {
        0
    } else {
        cli_count(caps, n - 1) + if caps[n - 1].kind == CapabilityKind::Cli {
            1nat
        } else {
            0nat
        }
    }
}

proof fn lemma_commit_total_monotone(repos: Seq<Repository>, i: int, n: int)
    requires
        0 <= i <= n,
    ensures
        commit_total(repos, i) <= commit_total(repos, n),
    decreases n - i,
{
    if i < n {
        lemma_commit_total_monotone(repos, i, n - 1);
    }
}

proof fn lemma_counts_bounded(repos: Seq<Repository>, caps: Seq<Capability>, n: int, m: int)
    requires
        0 <= n,
        0 <= m,
    ensures
        git_tracked_count(repos, n) <= n,
        cli_count(caps, m) <= m,
    decreases n + m,
{
    if n > 0 {
        lemma_counts_bounded(repos, caps, n - 1, m);
    } else if m > 0 {
        lemma_counts_bounded(repos, caps, n, m - 1);
    }
}

/// The counts a scan summary reports.
pub struct ScanSummary {
    pub repositories: usize,
    pub git_tracked: usize,
    pub total_commits: u64,
    pub languages: Vec<(String, usize)>,
    pub cli_capabilities: usize,
    pub library_capabilities: usize,
}

/// Summarises a snapshot's repositories and capabilities: how many
/// repositories, how many are tracked by git, the commits observed across
/// them, the repositories per language, and the capabilities by kind.
pub fn scan_summary(repos: &[Repository], caps: &[Capability]) -> (r: ScanSummary)
    requires
        commit_total(repos@, repos@.len() as int) <= u64::MAX,
    ensures
        r.repositories == repos@.len(),
        r.git_tracked == git_tracked_count(repos@, repos@.len() as int),
        r.total_commits == commit_total(repos@, repos@.len() as int),
        r.cli_capabilities == cli_count(caps@, caps@.len() as int),
        r.library_capabilities == caps@.len() - cli_count(caps@, caps@.len() as int),
        strictly_sorted(breakdown_names(r.languages@)),
        forall|k: int|
            0 <= k < r.languages@.len() ==> #[trigger] r.languages@[k].1 == language_count(
                repos@,
                repos@.len() as int,
                r.languages@[k].0@,
            ),
        forall|l: Seq<char>|
            #![trigger language_count(repos@, repos@.len() as int, l)]
            language_count(repos@, repos@.len() as int, l) > 0 <==> breakdown_names(r.languages@).contains(l),
{
    let mut git_tracked: usize = 0;
    let mut total: u64 = 0;
    let mut i: usize = 0;
    while i < repos.len()
        invariant
            i <= repos@.len(),
            commit_total(repos@, repos@.len() as int) <= u64::MAX,
            git_tracked == git_tracked_count(repos@, i as int),
            total == commit_total(repos@, i as int),
        decreases repos@.len() - i,
    {
        proof {
            lemma_counts_bounded(repos@, caps@, i as int, 0);
            lemma_commit_total_monotone(repos@, i + 1, repos@.len() as int);
        }
        if repos[i].is_git_repo {
            git_tracked = git_tracked + 1;
        }
        match repos[i].commit_count {
            Some(c) => {
                total = total + c;
            },
            None => {},
        }
        i = i + 1;
    }
    let mut cli: usize = 0;
    let mut j: usize = 0;
    while j < caps.len()
        invariant
            j <= caps@.len(),
            cli == cli_count(caps@, j as int),
        decreases caps@.len() - j,
    {
        proof {
            lemma_counts_bounded(repos@, caps@, 0, j as int);
        }
        if caps[j].kind == CapabilityKind::Cli {
            cli = cli + 1;
        }
        j = j + 1;
    }
    proof {
        lemma_counts_bounded(repos@, caps@, 0, caps@.len() as int);
    }
    ScanSummary {
        repositories: repos.len(),
        git_tracked,
        total_commits: total,
        languages: language_breakdown(repos),
        cli_capabilities: cli,
        library_capabilities: caps.len() - cli,
    }
}

} // verus!
