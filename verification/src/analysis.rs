//! Cross-repository analysis over an already-loaded snapshot: independent
//! repositories that pull in the same external dependency are a candidate
//! signal for shared or duplicated infrastructure, not proof of it. This
//! module produces the candidates; it does not decide which ones matter.

use vstd::prelude::*;
use crate::model::{Repository, DependencyRef, ManifestKind};
use crate::text::{chars_of, copy_string, strings_view, str_eq};

verus! {

/// Lexicographic order on strings by code point (`String`'s `<`).
pub open spec fn seq_lt(a: Seq<char>, b: Seq<char>) -> bool
    decreases a.len(),
{
    if a.len() == 0 {
        b.len() > 0
    } else if b.len() == 0 {
        false
    } else if a[0] != b[0] {
        (a[0] as int) < (b[0] as int)
    } else {
        seq_lt(a.drop_first(), b.drop_first())
    }
}

pub proof fn lemma_seq_lt_irreflexive(a: Seq<char>)
    ensures
        !seq_lt(a, a),
    decreases a.len(),
{
    if a.len() > 0 {
        lemma_seq_lt_irreflexive(a.drop_first());
    }
}

pub proof fn lemma_seq_lt_transitive(a: Seq<char>, b: Seq<char>, c: Seq<char>)
    requires
        seq_lt(a, b),
        seq_lt(b, c),
    ensures
        seq_lt(a, c),
    decreases a.len(),
{
    if a.len() > 0 && b.len() > 0 && c.len() > 0 && a[0] == b[0] && b[0] == c[0] {
        lemma_seq_lt_transitive(a.drop_first(), b.drop_first(), c.drop_first());
    }
}

pub proof fn lemma_seq_lt_total(a: Seq<char>, b: Seq<char>)
    requires
        a != b,
    ensures
        seq_lt(a, b) || seq_lt(b, a),
    decreases a.len(),
{
    if a.len() > 0 && b.len() > 0 && a[0] == b[0] {
        if a.drop_first() == b.drop_first() {
            assert(a =~= seq![a[0]] + a.drop_first());
            assert(b =~= seq![b[0]] + b.drop_first());
        }
        lemma_seq_lt_total(a.drop_first(), b.drop_first());
    } else if a.len() == 0 && b.len() == 0 {
        assert(a =~= b);
    } else if a.len() > 0 && b.len() > 0 {
        assert((a[0] as int) != (b[0] as int));
    }
}

pub proof fn lemma_seq_lt_asymmetric(a: Seq<char>, b: Seq<char>)
    requires
        seq_lt(a, b),
    ensures
        !seq_lt(b, a),
{
    if seq_lt(b, a) {
        lemma_seq_lt_transitive(a, b, a);
        lemma_seq_lt_irreflexive(a);
    }
}

/// `a < b` on strings.
pub fn str_lt(a: &str, b: &str) -> (r: bool)
    ensures
        r == seq_lt(a@, b@),
{
    let x = chars_of(a);
    let y = chars_of(b);
    let mut k: usize = 0;
    assert(x@.skip(0) =~= x@);
    assert(y@.skip(0) =~= y@);
    while k < x.len() && k < y.len()
        invariant
            k <= x@.len(),
            k <= y@.len(),
            x@ == a@,
            y@ == b@,
            seq_lt(a@, b@) == seq_lt(x@.skip(k as int), y@.skip(k as int)),
        decreases x@.len() - k,
    {
        assert(x@.skip(k as int)[0] == x@[k as int]);
        assert(y@.skip(k as int)[0] == y@[k as int]);
        if x[k] != y[k] {
            return x[k] < y[k];
        }
        assert(x@.skip(k as int).drop_first() =~= x@.skip(k + 1));
        assert(y@.skip(k as int).drop_first() =~= y@.skip(k + 1));
        k = k + 1;
    }
    k == x.len() && k < y.len()
}

/// Strictly increasing by `seq_lt`.
pub open spec fn strictly_sorted(xs: Seq<Seq<char>>) -> bool {
    forall|i: int, j: int| 0 <= i < j < xs.len() ==> seq_lt(#[trigger] xs[i], #[trigger] xs[j])
}

/// Adds `x` to a strictly sorted list of names, unless it is there.
pub(crate) fn insert_sorted_name(v: &mut Vec<String>, x: String)
    requires
        strictly_sorted(strings_view(old(v)@)),
    ensures
        strictly_sorted(strings_view(final(v)@)),
        forall|s: Seq<char>| strings_view(final(v)@).contains(s) <==> (strings_view(old(v)@).contains(s) || s == x@),
        final(v)@.len() <= old(v)@.len() + 1,
{
    let ghost v0 = strings_view(v@);
    let mut p: usize = 0;
    while p < v.len() && str_lt(v[p].as_str(), x.as_str())
        invariant
            p <= v@.len(),
            v0 == strings_view(v@),
            forall|i: int| 0 <= i < p ==> seq_lt(#[trigger] v0[i], x@),
        decreases v@.len() - p,
    {
        assert(v0[p as int] == v@[p as int]@);
        p = p + 1;
    }
    if p < v.len() && str_eq(v[p].as_str(), x.as_str()) {
        assert(v0[p as int] == x@);
        return;
    }
    proof {
        if p < v0.len() {
            assert(v0[p as int] == v@[p as int]@);
            lemma_seq_lt_total(v0[p as int], x@);
            assert forall|j: int| p <= j < v0.len() implies seq_lt(x@, #[trigger] v0[j]) by {
                if j > p {
                    lemma_seq_lt_transitive(x@, v0[p as int], v0[j]);
                }
            }
        }
    }
    v.insert(p, x);
    let ghost v1 = strings_view(v@);
    assert(v1 =~= v0.insert(p as int, x@));
    assert forall|i: int, j: int| 0 <= i < j < v1.len() implies seq_lt(#[trigger] v1[i], #[trigger] v1[j]) by {
        if j < p {
        } else if j == p {
        } else if i < p {
            assert(v1[j] == v0[j - 1]);
            lemma_seq_lt_transitive(v1[i], x@, v1[j]);
        } else if i == p {
            assert(v1[j] == v0[j - 1]);
        } else {
            assert(v1[i] == v0[i - 1]);
            assert(v1[j] == v0[j - 1]);
        }
    }
    assert forall|s: Seq<char>| v1.contains(s) <==> (v0.contains(s) || s == x@) by {
        if v1.contains(s) {
            let i = choose|i: int| 0 <= i < v1.len() && v1[i] == s;
            if i < p {
                assert(v0[i] == s);
            } else if i > p {
                assert(v0[i - 1] == s);
            }
        }
        if v0.contains(s) {
            let i = choose|i: int| 0 <= i < v0.len() && v0[i] == s;
            if i < p {
                assert(v1[i] == s);
            } else {
                assert(v1[i + 1] == s);
            }
        }
        if s == x@ {
            assert(v1[p as int] == s);
        }
    }
}

pub proof fn lemma_sorted_unique(a: Seq<Seq<char>>, b: Seq<Seq<char>>)
    requires
        strictly_sorted(a),
        strictly_sorted(b),
        forall|s: Seq<char>| a.contains(s) <==> b.contains(s),
    ensures
        a == b,
    decreases a.len() + b.len(),
{
    if a.len() > 0 && b.len() > 0 {
        assert(a.contains(a[0]));
        assert(b.contains(b[0]));
        let i = choose|i: int| 0 <= i < b.len() && b[i] == a[0];
        let j = choose|j: int| 0 <= j < a.len() && a[j] == b[0];
        if i > 0 {
            if j > 0 {
                assert(seq_lt(b[0], b[i]));
                assert(seq_lt(a[0], a[j]));
                lemma_seq_lt_asymmetric(b[0], a[0]);
            } else {
                assert(seq_lt(b[0], b[i]));
                lemma_seq_lt_irreflexive(a[0]);
            }
        } else if j > 0 {
            assert(seq_lt(a[0], a[j]));
            lemma_seq_lt_irreflexive(a[0]);
        }
        assert(a[0] == b[0]);
        let a1 = a.drop_first();
        let b1 = b.drop_first();
        assert forall|s: Seq<char>| a1.contains(s) <==> b1.contains(s) by {
            if a1.contains(s) {
                let k = choose|k: int| 0 <= k < a1.len() && a1[k] == s;
                assert(a[k + 1] == s);
                assert(seq_lt(a[0], a[k + 1]));
                assert(b.contains(s));
                let m = choose|m: int| 0 <= m < b.len() && b[m] == s;
                if m == 0 {
                    lemma_seq_lt_irreflexive(s);
                }
                assert(b1[m - 1] == s);
            }
            if b1.contains(s) {
                let k = choose|k: int| 0 <= k < b1.len() && b1[k] == s;
                assert(b[k + 1] == s);
                assert(seq_lt(b[0], b[k + 1]));
                assert(a.contains(s));
                let m = choose|m: int| 0 <= m < a.len() && a[m] == s;
                if m == 0 {
                    lemma_seq_lt_irreflexive(s);
                }
                assert(a1[m - 1] == s);
            }
        }
        lemma_sorted_unique(a1, b1);
        assert(a =~= seq![a[0]] + a1);
        assert(b =~= seq![b[0]] + b1);
    } else if a.len() > 0 {
        assert(a.contains(a[0]));
    } else if b.len() > 0 {
        assert(b.contains(b[0]));
    } else {
        assert(a =~= b);
    }
}

/// External dependencies shared by several repositories.
#[derive(Debug, Clone)]
pub struct DuplicateCandidate {
    pub dependency_name: String,
    pub manifest: ManifestKind,
    /// The repositories that declare it, in order, each once.
    pub repositories: Vec<String>,
    /// How many repositories declare a manifest of this kind at all: the
    /// denominator for judging whether the dependency is a deliberate,
    /// narrow choice or ecosystem-wide boilerplate.
    pub ecosystem_total: usize,
}

pub open spec fn candidate_view(c: DuplicateCandidate) -> (Seq<char>, ManifestKind, Seq<Seq<char>>, int) {
    (c.dependency_name@, c.manifest, strings_view(c.repositories@), c.ecosystem_total as int)
}

/// `ManifestKind`'s declaration order.
pub open spec fn kind_rank(k: ManifestKind) -> int {
    match k {
        ManifestKind::Cargo => 0,
        ManifestKind::Npm => 1,
        ManifestKind::PyprojectPoetry => 2,
        ManifestKind::PyprojectPep621 => 3,
        ManifestKind::Go => 4,
    }
}

/// Result order: more repositories first, then by dependency name, then
/// by manifest kind.
pub open spec fn comes_before(
    c: (Seq<char>, ManifestKind, Seq<Seq<char>>, int),
    d: (Seq<char>, ManifestKind, Seq<Seq<char>>, int),
) -> bool {
    ||| c.2.len() > d.2.len()
    ||| (c.2.len() == d.2.len() && seq_lt(c.0, d.0))
    ||| (c.2.len() == d.2.len() && c.0 == d.0 && kind_rank(c.1) < kind_rank(d.1))
}

/// How often kind `k` occurs among `ms`.
pub open spec fn count_in(ms: Seq<ManifestKind>, k: ManifestKind) -> nat
    decreases ms.len(),
{
    if ms.len() == 0 {
        0
    } else {
        count_in(ms.drop_last(), k) + if ms.last() == k {
            1nat
        } else {
            0nat
        }
    }
}

/// How many manifests of kind `k` the repositories declare.
pub open spec fn kind_count(repos: Seq<Repository>, k: ManifestKind) -> nat
    decreases repos.len(),
{
    if repos.len() == 0 {
        0
    } else {
        kind_count(repos.drop_last(), k) + count_in(repos.last().manifests@, k)
    }
}

/// Repository `r` declares an unresolved dependency `name` of kind `kind`.
pub open spec fn has_unresolved(r: Repository, name: Seq<char>, kind: ManifestKind) -> bool {
    exists|j: int|
        0 <= j < r.dependencies@.len() && (#[trigger] r.dependencies@[j]).resolved_repo is None
            && r.dependencies@[j].name@ == name && r.dependencies@[j].manifest == kind
}

/// `id` names a repository that declares the dependency unresolved.
pub open spec fn in_group(repos: Seq<Repository>, name: Seq<char>, kind: ManifestKind, id: Seq<char>) -> bool {
    exists|i: int| 0 <= i < repos.len() && (#[trigger] repos[i]).id@ == id && has_unresolved(repos[i], name, kind)
}

/// The ecosystem size a group is judged against.
pub open spec fn ecosystem_total(repos: Seq<Repository>, kind: ManifestKind, group_len: int) -> int {
    if kind_count(repos, kind) > 0 {
        kind_count(repos, kind) as int
    } else {
        group_len
    }
}

pub open spec fn max_int(a: int, b: int) -> int {
    if a >= b {
        a
    } else {
        b
    }
}

/// `c` is a shared dependency worth reporting: its repositories are
/// exactly those declaring it unresolved, in order, and their number is at
/// least `min_repos` and at most the ubiquity cap for its ecosystem size
/// (`caps[total]`, raised to `min_repos`).
pub open spec fn is_candidate(
    repos: Seq<Repository>,
    min_repos: int,
    caps: Seq<usize>,
    c: (Seq<char>, ManifestKind, Seq<Seq<char>>, int),
) -> bool {
    &&& strictly_sorted(c.2)
    &&& c.2.len() > 0
    &&& forall|id: Seq<char>| c.2.contains(id) <==> in_group(repos, c.0, c.1, id)
    &&& c.3 == ecosystem_total(repos, c.1, c.2.len() as int)
    &&& min_repos <= c.2.len() <= max_int(caps[c.3] as int, min_repos)
}

proof fn lemma_count_in_take(ms: Seq<ManifestKind>, k: ManifestKind, m: int)
    requires
        0 <= m < ms.len(),
    ensures
        count_in(ms.take(m + 1), k) == count_in(ms.take(m), k) + if ms[m] == k {
            1nat
        } else {
            0nat
        },
        count_in(ms.take(m + 1), k) <= count_in(ms, k),
    decreases ms.len() - m,
{
    assert(ms.take(m + 1).drop_last() =~= ms.take(m));
    if m + 1 < ms.len() {
        lemma_count_in_take(ms, k, m + 1);
    } else {
        assert(ms.take(m + 1) =~= ms);
    }
}

proof fn lemma_kind_count_take(repos: Seq<Repository>, k: ManifestKind, i: int)
    requires
        0 <= i < repos.len(),
    ensures
        kind_count(repos.take(i + 1), k) == kind_count(repos.take(i), k) + count_in(repos[i].manifests@, k),
        kind_count(repos.take(i + 1), k) <= kind_count(repos, k),
    decreases repos.len() - i,
{
    assert(repos.take(i + 1).drop_last() =~= repos.take(i));
    if i + 1 < repos.len() {
        lemma_kind_count_take(repos, k, i + 1);
    } else {
        assert(repos.take(i + 1) =~= repos);
    }
}

/// How many manifests of kind `k` the repositories declare.
fn count_kind(repos: &[Repository], k: ManifestKind) -> (r: usize)
    requires
        kind_count(repos@, k) <= usize::MAX,
    ensures
        r == kind_count(repos@, k),
{
    let mut cnt: usize = 0;
    let mut i: usize = 0;
    assert(repos@.take(0) =~= Seq::<Repository>::empty());
    while i < repos.len()
        invariant
            i <= repos@.len(),
            cnt == kind_count(repos@.take(i as int), k),
            kind_count(repos@, k) <= usize::MAX,
        decreases repos@.len() - i,
    {
        proof {
            lemma_kind_count_take(repos@, k, i as int);
        }
        let ms = &repos[i].manifests;
        let mut m: usize = 0;
        assert(ms@.take(0) =~= Seq::<ManifestKind>::empty());
        while m < ms.len()
            invariant
                i < repos@.len(),
                ms@ == repos@[i as int].manifests@,
                m <= ms@.len(),
                cnt == kind_count(repos@.take(i as int), k) + count_in(ms@.take(m as int), k),
                kind_count(repos@.take(i as int), k) + count_in(ms@, k) <= usize::MAX,
            decreases ms@.len() - m,
        {
            proof {
                lemma_count_in_take(ms@, k, m as int);
            }
            if ms[m] == k {
                cnt = cnt + 1;
            }
            m = m + 1;
        }
        assert(ms@.take(m as int) =~= ms@);
        i = i + 1;
    }
    assert(repos@.take(i as int) =~= repos@);
    cnt
}

/// Whether `r` declares the dependency `name` of kind `kind` unresolved.
fn declares_unresolved(r: &Repository, name: &str, kind: ManifestKind) -> (b: bool)
    ensures
        b == has_unresolved(*r, name@, kind),
{
    let mut j: usize = 0;
    while j < r.dependencies.len()
        invariant
            j <= r.dependencies@.len(),
            forall|t: int|
                0 <= t < j ==> !((#[trigger] r.dependencies@[t]).resolved_repo is None && r.dependencies@[t].name@ == name@
                    && r.dependencies@[t].manifest == kind),
        decreases r.dependencies@.len() - j,
    {
        let d = &r.dependencies[j];
        if d.resolved_repo.is_none() && d.manifest == kind && str_eq(d.name.as_str(), name) {
            return true;
        }
        j = j + 1;
    }
    false
}

/// The repositories declaring the dependency unresolved, in order.
fn group_ids(repos: &[Repository], name: &str, kind: ManifestKind) -> (r: Vec<String>)
    ensures
        strictly_sorted(strings_view(r@)),
        forall|id: Seq<char>| strings_view(r@).contains(id) <==> in_group(repos@, name@, kind, id),
        r@.len() <= repos@.len(),
{
    let mut ids: Vec<String> = Vec::new();
    let mut i: usize = 0;
    while i < repos.len()
        invariant
            i <= repos@.len(),
            strictly_sorted(strings_view(ids@)),
            forall|id: Seq<char>|
                strings_view(ids@).contains(id) <==> exists|t: int|
                    0 <= t < i && (#[trigger] repos@[t]).id@ == id && has_unresolved(repos@[t], name@, kind),
            ids@.len() <= i,
        decreases repos@.len() - i,
    {
        if declares_unresolved(&repos[i], name, kind) {
            let ghost before = strings_view(ids@);
            insert_sorted_name(&mut ids, copy_string(&repos[i].id));
            assert forall|id: Seq<char>|
                strings_view(ids@).contains(id) <==> exists|t: int|
                    0 <= t < i + 1 && (#[trigger] repos@[t]).id@ == id && has_unresolved(repos@[t], name@, kind) by {
                if id == repos@[i as int].id@ {
                    assert(repos@[i as int].id@ == id && has_unresolved(repos@[i as int], name@, kind));
                }
            }
        } else {
            assert forall|id: Seq<char>|
                strings_view(ids@).contains(id) <==> exists|t: int|
                    0 <= t < i + 1 && (#[trigger] repos@[t]).id@ == id && has_unresolved(repos@[t], name@, kind) by {
                if exists|t: int| 0 <= t < i + 1 && (#[trigger] repos@[t]).id@ == id && has_unresolved(repos@[t], name@, kind) {
                    let t = choose|t: int| 0 <= t < i + 1 && (#[trigger] repos@[t]).id@ == id && has_unresolved(repos@[t], name@, kind);
                    assert(t < i);
                }
            }
        }
        i = i + 1;
    }
    ids
}

proof fn lemma_comes_before_transitive(
    a: (Seq<char>, ManifestKind, Seq<Seq<char>>, int),
    b: (Seq<char>, ManifestKind, Seq<Seq<char>>, int),
    c: (Seq<char>, ManifestKind, Seq<Seq<char>>, int),
)
    requires
        comes_before(a, b),
        comes_before(b, c),
    ensures
        comes_before(a, c),
{
    if a.2.len() == b.2.len() && b.2.len() == c.2.len() {
        if seq_lt(a.0, b.0) && seq_lt(b.0, c.0) {
            lemma_seq_lt_transitive(a.0, b.0, c.0);
        }
    }
}

proof fn lemma_comes_before_total(
    a: (Seq<char>, ManifestKind, Seq<Seq<char>>, int),
    b: (Seq<char>, ManifestKind, Seq<Seq<char>>, int),
)
    requires
        (a.0, a.1) != (b.0, b.1),
    ensures
        comes_before(a, b) || comes_before(b, a),
{
    if a.2.len() == b.2.len() {
        if a.0 != b.0 {
            lemma_seq_lt_total(a.0, b.0);
        } else {
            assert(a.1 != b.1);
        }
    }
}

pub open spec fn candidates_sorted(v: Seq<(Seq<char>, ManifestKind, Seq<Seq<char>>, int)>) -> bool {
    forall|i: int, j: int| 0 <= i < j < v.len() ==> comes_before(#[trigger] v[i], #[trigger] v[j])
}

pub open spec fn candidates_view(v: Seq<DuplicateCandidate>) -> Seq<(Seq<char>, ManifestKind, Seq<Seq<char>>, int)> {
    v.map_values(|c: DuplicateCandidate| candidate_view(c))
}

/// Inserts a candidate whose dependency is not yet listed, keeping the
/// result order.
fn insert_candidate(v: &mut Vec<DuplicateCandidate>, c: DuplicateCandidate)
    requires
        candidates_sorted(candidates_view(old(v)@)),
        forall|i: int| 0 <= i < old(v)@.len() ==> (#[trigger] candidates_view(old(v)@)[i].0, candidates_view(old(v)@)[i].1) != (
            c.dependency_name@,
            c.manifest,
        ),
    ensures
        candidates_sorted(candidates_view(final(v)@)),
        forall|x: (Seq<char>, ManifestKind, Seq<Seq<char>>, int)|
            candidates_view(final(v)@).contains(x) <==> (candidates_view(old(v)@).contains(x) || x == candidate_view(c)),
{
    let ghost v0 = candidates_view(v@);
    let ghost cv = candidate_view(c);
    let mut p: usize = 0;
    while p < v.len() && before_exec(&v[p], &c)
        invariant
            p <= v@.len(),
            v0 == candidates_view(v@),
            cv == candidate_view(c),
            forall|i: int| 0 <= i < p ==> comes_before(#[trigger] v0[i], cv),
        decreases v@.len() - p,
    {
        assert(v0[p as int] == candidate_view(v@[p as int]));
        p = p + 1;
    }
    proof {
        if p < v0.len() {
            assert(v0[p as int] == candidate_view(v@[p as int]));
            assert((v0[p as int].0, v0[p as int].1) != (cv.0, cv.1));
            lemma_comes_before_total(v0[p as int], cv);
            assert forall|j: int| p <= j < v0.len() implies comes_before(cv, #[trigger] v0[j]) by {
                if j > p {
                    lemma_comes_before_transitive(cv, v0[p as int], v0[j]);
                }
            }
        }
    }
    v.insert(p, c);
    let ghost v1 = candidates_view(v@);
    assert(v1 =~= v0.insert(p as int, cv));
    assert forall|i: int, j: int| 0 <= i < j < v1.len() implies comes_before(#[trigger] v1[i], #[trigger] v1[j]) by {
        if j < p {
        } else if j == p {
        } else if i < p {
            assert(v1[j] == v0[j - 1]);
            lemma_comes_before_transitive(v1[i], cv, v1[j]);
        } else if i == p {
            assert(v1[j] == v0[j - 1]);
        } else {
            assert(v1[i] == v0[i - 1]);
            assert(v1[j] == v0[j - 1]);
        }
    }
    assert forall|x: (Seq<char>, ManifestKind, Seq<Seq<char>>, int)| v1.contains(x) <==> (v0.contains(x) || x == cv) by {
        if v1.contains(x) {
            let i = choose|i: int| 0 <= i < v1.len() && v1[i] == x;
            if i < p {
                assert(v0[i] == x);
            } else if i > p {
                assert(v0[i - 1] == x);
            }
        }
        if v0.contains(x) {
            let i = choose|i: int| 0 <= i < v0.len() && v0[i] == x;
            if i < p {
                assert(v1[i] == x);
            } else {
                assert(v1[i + 1] == x);
            }
        }
        if x == cv {
            assert(v1[p as int] == x);
        }
    }
}

/// Whether candidate `a` comes before `b` in the result.
fn before_exec(a: &DuplicateCandidate, b: &DuplicateCandidate) -> (r: bool)
    ensures
        r == comes_before(candidate_view(*a), candidate_view(*b)),
{
    let la = a.repositories.len();
    let lb = b.repositories.len();
    if la != lb {
        return la > lb;
    }
    if str_lt(a.dependency_name.as_str(), b.dependency_name.as_str()) {
        return true;
    }
    if !str_eq(a.dependency_name.as_str(), b.dependency_name.as_str()) {
        return false;
    }
    kind_rank_exec(a.manifest) < kind_rank_exec(b.manifest)
}

fn kind_rank_exec(k: ManifestKind) -> (r: u8)
    ensures
        r as int == kind_rank(k),
{
    match k {
        ManifestKind::Cargo => 0,
        ManifestKind::Npm => 1,
        ManifestKind::PyprojectPoetry => 2,
        ManifestKind::PyprojectPep621 => 3,
        ManifestKind::Go => 4,
    }
}

pub open spec fn keys_view(v: Seq<(String, ManifestKind)>) -> Seq<(Seq<char>, ManifestKind)> {
    v.map_values(|k: (String, ManifestKind)| (k.0@, k.1))
}

/// Dependency `j` of repository `i` is unresolved.
pub open spec fn unresolved_at(repos: Seq<Repository>, i: int, j: int) -> bool {
    repos[i].dependencies@[j].resolved_repo is None
}

/// Some repository declares the dependency `key` unresolved.
pub open spec fn key_witnessed(repos: Seq<Repository>, key: (Seq<char>, ManifestKind)) -> bool {
    exists|i: int| 0 <= i < repos.len() && has_unresolved(#[trigger] repos[i], key.0, key.1)
}

/// Every (name, kind) some repository declares unresolved, each once.
fn dependency_keys(repos: &[Repository]) -> (r: Vec<(String, ManifestKind)>)
    ensures
        forall|a: int, b: int| 0 <= a < b < r@.len() ==> #[trigger] keys_view(r@)[a] != #[trigger] keys_view(r@)[b],
        forall|t: int| 0 <= t < r@.len() ==> key_witnessed(repos@, #[trigger] keys_view(r@)[t]),
        forall|i: int, j: int|
            0 <= i < repos@.len() && 0 <= j < repos@[i].dependencies@.len() && unresolved_at(repos@, i, j) ==> keys_view(
                r@,
            ).contains((#[trigger] repos@[i].dependencies@[j].name@, repos@[i].dependencies@[j].manifest)),
{
    let mut keys: Vec<(String, ManifestKind)> = Vec::new();
    let mut i: usize = 0;
    while i < repos.len()
        invariant
            i <= repos@.len(),
            forall|a: int, b: int| 0 <= a < b < keys@.len() ==> #[trigger] keys_view(keys@)[a] != #[trigger] keys_view(keys@)[b],
            forall|t: int| 0 <= t < keys@.len() ==> key_witnessed(repos@, #[trigger] keys_view(keys@)[t]),
            forall|q: int, j: int|
                0 <= q < i && 0 <= j < repos@[q].dependencies@.len() && unresolved_at(repos@, q, j) ==> keys_view(
                    keys@,
                ).contains((#[trigger] repos@[q].dependencies@[j].name@, repos@[q].dependencies@[j].manifest)),
        decreases repos@.len() - i,
    {
        let deps = &repos[i].dependencies;
        let mut j: usize = 0;
        while j < deps.len()
            invariant
                i < repos@.len(),
                deps@ == repos@[i as int].dependencies@,
                j <= deps@.len(),
                forall|a: int, b: int| 0 <= a < b < keys@.len() ==> #[trigger] keys_view(keys@)[a] != #[trigger] keys_view(keys@)[b],
                forall|t: int| 0 <= t < keys@.len() ==> key_witnessed(repos@, #[trigger] keys_view(keys@)[t]),
                forall|q: int, jj: int|
                    0 <= q < i && 0 <= jj < repos@[q].dependencies@.len() && unresolved_at(repos@, q, jj) ==> keys_view(
                        keys@,
                    ).contains((#[trigger] repos@[q].dependencies@[jj].name@, repos@[q].dependencies@[jj].manifest)),
                forall|jj: int|
                    0 <= jj < j && unresolved_at(repos@, i as int, jj) ==> keys_view(keys@).contains(
                        (#[trigger] repos@[i as int].dependencies@[jj].name@, repos@[i as int].dependencies@[jj].manifest),
                    ),
            decreases deps@.len() - j,
        {
            let d = &deps[j];
            if d.resolved_repo.is_none() {
                let mut found = false;
                let mut t: usize = 0;
                while t < keys.len()
                    invariant
                        t <= keys@.len(),
                        found ==> keys_view(keys@).contains((d.name@, d.manifest)),
                        !found ==> forall|u: int| 0 <= u < t ==> #[trigger] keys_view(keys@)[u] != (d.name@, d.manifest),
                    decreases keys@.len() - t,
                {
                    if keys[t].1 == d.manifest && str_eq(keys[t].0.as_str(), d.name.as_str()) {
                        assert(keys_view(keys@)[t as int] == (d.name@, d.manifest));
                        found = true;
                    } else {
                        assert(keys_view(keys@)[t as int] == (keys@[t as int].0@, keys@[t as int].1));
                    }
                    t = t + 1;
                }
                if !found {
                    let ghost before = keys_view(keys@);
                    keys.push((copy_string(&d.name), d.manifest));
                    assert(keys_view(keys@) =~= before.push((d.name@, d.manifest)));
                    assert(has_unresolved(repos@[i as int], d.name@, d.manifest));
                    assert forall|q: int, jj: int|
                        0 <= q < i && 0 <= jj < repos@[q].dependencies@.len() && unresolved_at(repos@, q, jj) implies keys_view(
                            keys@,
                        ).contains((#[trigger] repos@[q].dependencies@[jj].name@, repos@[q].dependencies@[jj].manifest)) by {
                        let x = (repos@[q].dependencies@[jj].name@, repos@[q].dependencies@[jj].manifest);
                        assert(before.contains(x));
                        let u = choose|u: int| 0 <= u < before.len() && before[u] == x;
                        assert(keys_view(keys@)[u] == x);
                    }
                    assert forall|jj: int| 0 <= jj < j + 1 && unresolved_at(repos@, i as int, jj) implies keys_view(keys@).contains(
                        (#[trigger] repos@[i as int].dependencies@[jj].name@, repos@[i as int].dependencies@[jj].manifest),
                    ) by {
                        let x = (repos@[i as int].dependencies@[jj].name@, repos@[i as int].dependencies@[jj].manifest);
                        if jj < j {
                            assert(before.contains(x));
                            let u = choose|u: int| 0 <= u < before.len() && before[u] == x;
                            assert(keys_view(keys@)[u] == x);
                        } else {
                            assert(keys_view(keys@)[before.len() as int] == x);
                        }
                    }
                    assert forall|t2: int| 0 <= t2 < keys@.len() implies key_witnessed(repos@, #[trigger] keys_view(keys@)[t2]) by {
                        if t2 < before.len() {
                            assert(keys_view(keys@)[t2] == before[t2]);
                        } else {
                            assert(has_unresolved(repos@[i as int], keys_view(keys@)[t2].0, keys_view(keys@)[t2].1));
                        }
                    }
                }
            }
            j = j + 1;
        }
        i = i + 1;
    }
    keys
}

/// The dependency of `c` is among the first `t` keys.
pub open spec fn listed_before(ks: Seq<(Seq<char>, ManifestKind)>, t: int, c: (Seq<char>, ManifestKind, Seq<Seq<char>>, int)) -> bool {
    exists|u: int| 0 <= u < t && #[trigger] ks[u] == (c.0, c.1)
}

/// Every total a repository set can yield is covered by `caps`.
pub open spec fn caps_cover(repos: Seq<Repository>, caps: Seq<usize>) -> bool {
    &&& repos.len() < caps.len()
    &&& forall|k: ManifestKind| #[trigger] kind_count(repos, k) < caps.len()
}

/// External dependencies shared by at least `min_repos` repositories and
/// not ubiquitous in their ecosystem. `caps[t]` is the most repositories
/// a dependency may be shared by, in an ecosystem of `t` repositories,
/// before sharing it says nothing (for a ubiquity fraction `f`, the floor
/// of `t * f`); it is raised to `min_repos`. Dependencies already resolved
/// to a discovered repository are internal and never candidates. Results
/// come by descending number of repositories, then by name, then by
/// manifest kind.
pub fn shared_dependency_candidates(repositories: &[Repository], min_repos: usize, caps: &Vec<usize>) -> (r: Vec<
    DuplicateCandidate,
>)
    requires
        caps_cover(repositories@, caps@),
    ensures
        forall|i: int| 0 <= i < r@.len() ==> is_candidate(repositories@, min_repos as int, caps@, #[trigger] candidates_view(r@)[i]),
        forall|c: (Seq<char>, ManifestKind, Seq<Seq<char>>, int)|
            is_candidate(repositories@, min_repos as int, caps@, c) ==> #[trigger] candidates_view(r@).contains(c),
        candidates_sorted(candidates_view(r@)),
{
    let ghost repos = repositories@;
    let ghost cp = caps@;
    let keys = dependency_keys(repositories);
    let cap_len = caps.len();
    assert(caps@.len() == cap_len);
    assert(kind_count(repos, ManifestKind::Cargo) < caps@.len());
    assert(kind_count(repos, ManifestKind::Npm) < caps@.len());
    assert(kind_count(repos, ManifestKind::PyprojectPoetry) < caps@.len());
    assert(kind_count(repos, ManifestKind::PyprojectPep621) < caps@.len());
    assert(kind_count(repos, ManifestKind::Go) < caps@.len());
    let c_cargo = count_kind(repositories, ManifestKind::Cargo);
    let c_npm = count_kind(repositories, ManifestKind::Npm);
    let c_poetry = count_kind(repositories, ManifestKind::PyprojectPoetry);
    let c_pep = count_kind(repositories, ManifestKind::PyprojectPep621);
    let c_go = count_kind(repositories, ManifestKind::Go);
    let mut out: Vec<DuplicateCandidate> = Vec::new();
    let mut t: usize = 0;
    while t < keys.len()
        invariant
            t <= keys@.len(),
            repos == repositories@,
            cp == caps@,
            caps_cover(repos, cp),
            c_cargo == kind_count(repos, ManifestKind::Cargo),
            c_npm == kind_count(repos, ManifestKind::Npm),
            c_poetry == kind_count(repos, ManifestKind::PyprojectPoetry),
            c_pep == kind_count(repos, ManifestKind::PyprojectPep621),
            c_go == kind_count(repos, ManifestKind::Go),
            forall|a: int, b: int| 0 <= a < b < keys@.len() ==> #[trigger] keys_view(keys@)[a] != #[trigger] keys_view(keys@)[b],
            forall|u: int| 0 <= u < keys@.len() ==> key_witnessed(repos, #[trigger] keys_view(keys@)[u]),
            candidates_sorted(candidates_view(out@)),
            forall|i: int| 0 <= i < out@.len() ==> is_candidate(repos, min_repos as int, cp, #[trigger] candidates_view(out@)[i]),
            forall|i: int| 0 <= i < out@.len() ==> listed_before(keys_view(keys@), t as int, #[trigger] candidates_view(out@)[i]),
            forall|u: int, c: (Seq<char>, ManifestKind, Seq<Seq<char>>, int)|
                0 <= u < t && is_candidate(repos, min_repos as int, cp, c) && (c.0, c.1) == #[trigger] keys_view(keys@)[u]
                    ==> #[trigger] candidates_view(out@).contains(c),
        decreases keys@.len() - t,
    {
        let name = &keys[t].0;
        let kind = keys[t].1;
        let ghost key = keys_view(keys@)[t as int];
        assert(key == (name@, kind));
        let ids = group_ids(repositories, name.as_str(), kind);
        let count = match kind {
            ManifestKind::Cargo => c_cargo,
            ManifestKind::Npm => c_npm,
            ManifestKind::PyprojectPoetry => c_poetry,
            ManifestKind::PyprojectPep621 => c_pep,
            ManifestKind::Go => c_go,
        };
        assert(count == kind_count(repos, kind));
        assert(kind_count(repos, kind) < caps@.len());
        let total = if count > 0 {
            count
        } else {
            ids.len()
        };
        let cap = caps[total];
        let max_repos = if cap >= min_repos {
            cap
        } else {
            min_repos
        };
        let n = ids.len();
        proof {
            assert(key_witnessed(repos, key));
            let q = choose|q: int| 0 <= q < repos.len() && has_unresolved(#[trigger] repos[q], key.0, key.1);
            assert(in_group(repos, name@, kind, repos[q].id@));
            assert(strings_view(ids@).contains(repos[q].id@));
        }
        let ghost before = candidates_view(out@);
        if n >= min_repos && n <= max_repos {
            let c = DuplicateCandidate {
                dependency_name: copy_string(name),
                manifest: kind,
                repositories: ids,
                ecosystem_total: total,
            };
            let ghost cv = candidate_view(c);
            assert(is_candidate(repos, min_repos as int, cp, cv));
            proof {
                assert forall|i: int| 0 <= i < out@.len() implies (#[trigger] candidates_view(out@)[i].0, candidates_view(out@)[i].1) != (
                    c.dependency_name@,
                    c.manifest,
                ) by {
                    assert(listed_before(keys_view(keys@), t as int, candidates_view(out@)[i]));
                    let u = choose|u: int|
                        0 <= u < t && #[trigger] keys_view(keys@)[u] == (candidates_view(out@)[i].0, candidates_view(out@)[i].1);
                    assert(keys_view(keys@)[u] != keys_view(keys@)[t as int]);
                }
            }
            insert_candidate(&mut out, c);
            let ghost after = candidates_view(out@);
            assert forall|i: int| 0 <= i < out@.len() implies is_candidate(repos, min_repos as int, cp, #[trigger] after[i]) by {
                assert(after.contains(after[i]));
                if after[i] != cv {
                    assert(before.contains(after[i]));
                    let k = choose|k: int| 0 <= k < before.len() && before[k] == after[i];
                    assert(is_candidate(repos, min_repos as int, cp, before[k]));
                }
            }
            assert forall|i: int| 0 <= i < out@.len() implies listed_before(keys_view(keys@), t + 1, #[trigger] candidates_view(out@)[i]) by {
                assert(after.contains(after[i]));
                if after[i] != cv {
                    assert(before.contains(after[i]));
                    let k = choose|k: int| 0 <= k < before.len() && before[k] == after[i];
                    assert(listed_before(keys_view(keys@), t as int, before[k]));
                    let u = choose|u: int| 0 <= u < t && #[trigger] keys_view(keys@)[u] == (before[k].0, before[k].1);
                    assert(keys_view(keys@)[u] == (after[i].0, after[i].1));
                } else {
                    assert(keys_view(keys@)[t as int] == (after[i].0, after[i].1));
                }
            }
            assert forall|u: int, c2: (Seq<char>, ManifestKind, Seq<Seq<char>>, int)|
                0 <= u < t + 1 && is_candidate(repos, min_repos as int, cp, c2) && (c2.0, c2.1) == #[trigger] keys_view(keys@)[u]
                    implies #[trigger] after.contains(c2) by {
                if u < t {
                    assert(before.contains(c2));
                } else {
                    lemma_sorted_unique(c2.2, cv.2);
                    assert(c2 == cv);
                }
            }
        } else {
            assert forall|u: int, c2: (Seq<char>, ManifestKind, Seq<Seq<char>>, int)|
                0 <= u < t + 1 && is_candidate(repos, min_repos as int, cp, c2) && (c2.0, c2.1) == #[trigger] keys_view(keys@)[u]
                    implies #[trigger] candidates_view(out@).contains(c2) by {
                if u == t {
                    lemma_sorted_unique(c2.2, strings_view(ids@));
                    assert(false);
                }
            }
        }
        t = t + 1;
    }
    assert forall|c: (Seq<char>, ManifestKind, Seq<Seq<char>>, int)|
        is_candidate(repos, min_repos as int, cp, c) implies #[trigger] candidates_view(out@).contains(c) by {
        assert(c.2.contains(c.2[0]));
        assert(in_group(repos, c.0, c.1, c.2[0]));
        let i = choose|i: int| 0 <= i < repos.len() && (#[trigger] repos[i]).id@ == c.2[0] && has_unresolved(repos[i], c.0, c.1);
        let j = choose|j: int|
            0 <= j < repos[i].dependencies@.len() && (#[trigger] repos[i].dependencies@[j]).resolved_repo is None
                && repos[i].dependencies@[j].name@ == c.0 && repos[i].dependencies@[j].manifest == c.1;
        assert(unresolved_at(repos, i, j));
        assert(keys_view(keys@).contains((repos[i].dependencies@[j].name@, repos[i].dependencies@[j].manifest)));
        let u = choose|u: int| 0 <= u < keys_view(keys@).len() && keys_view(keys@)[u] == (c.0, c.1);
    }
    out
}

} // verus!
