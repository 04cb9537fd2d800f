//! Reading a `go.mod` file: the module name (last path segment), the
//! `require` lines (single or in a `require ( .. )` block), and `replace`
//! directives that point a module at a local directory.
//!
//! Each line is read up to its first `//` and trimmed; blank lines are
//! skipped. Lines are taken between `\n` characters: a `\r` before the
//! `\n` is whitespace and trimmed away with the rest.

use vstd::prelude::*;
use crate::model::{DependencyRef, ManifestKind, dep_view, deps_view};
use crate::text::{
    is_ws, is_whitespace, trim, trim_start, starts_with, chars_of, trim_range, range_starts_with, extend_range,
    string_from_range, string_from_chars, opt_chars, str_eq, copy_string,
};
use crate::rust_scan::{line_starts, line_starts_of, line_starts_ok, line_text};
use crate::manifests::{ManifestFacts, facts_view};

verus! {

/// Where `p` first occurs in `x`.
pub open spec fn find_pattern(x: Seq<char>, p: Seq<char>) -> Option<int>
    decreases x.len(),
{
    if starts_with(x, p) {
        Some(0)
    } else if x.len() == 0 {
        None
    } else {
        match find_pattern(x.drop_first(), p) {
            Some(k) => Some(k + 1),
            None => None,
        }
    }
}

/// The text before the first `//` (`split("//").next()`).
pub open spec fn before_comment(x: Seq<char>) -> Seq<char> {
    match find_pattern(x, "//"@) {
        Some(k) => x.take(k),
        None => x,
    }
}

/// A line as the reader sees it: comment cut off, trimmed.
pub open spec fn go_clean(line: Seq<char>) -> Seq<char> {
    trim(before_comment(line))
}

/// The length of the run of non-whitespace characters `t` starts with.
pub open spec fn word_len(t: Seq<char>) -> nat
    decreases t.len(),
{
    if t.len() > 0 && !is_ws(t[0]) {
        1 + word_len(t.drop_first())
    } else {
        0
    }
}

/// The first whitespace-separated word of `y`, empty when there is none
/// (`split_whitespace().next().unwrap_or("")`).
pub open spec fn first_word(y: Seq<char>) -> Seq<char> {
    trim_start(y).take(word_len(trim_start(y)) as int)
}

/// What follows the first word of `y`.
pub open spec fn after_first_word(y: Seq<char>) -> Seq<char> {
    trim_start(y).skip(word_len(trim_start(y)) as int)
}

/// The first two words of `y`, when it has two.
pub open spec fn two_words(y: Seq<char>) -> Option<(Seq<char>, Seq<char>)> {
    let a = first_word(y);
    let b = first_word(after_first_word(y));
    if a.len() > 0 && b.len() > 0 {
        Some((a, b))
    } else {
        None
    }
}

/// The text after the last `/` (`rsplit('/').next()`).
pub open spec fn last_segment(x: Seq<char>) -> Seq<char>
    decreases x.len(),
{
    if x.len() == 0 {
        x
    } else if x.last() == '/' {
        seq![]
    } else {
        last_segment(x.drop_last()).push(x.last())
    }
}

/// The first dependency named `target`.
pub open spec fn dep_position(
    deps: Seq<(Seq<char>, Option<Seq<char>>, ManifestKind, bool, Option<Seq<char>>, Option<Seq<char>>)>,
    target: Seq<char>,
) -> Option<int>
    decreases deps.len(),
{
    if deps.len() == 0 {
        None
    } else if deps[0].0 == target {
        Some(0)
    } else {
        match dep_position(deps.drop_first(), target) {
            Some(k) => Some(k + 1),
            None => None,
        }
    }
}

/// What reading one cleaned line does to the module name, the
/// dependencies and whether a `require ( .. )` block is open.
pub open spec fn go_step(
    st: (
        Option<Seq<char>>,
        Seq<(Seq<char>, Option<Seq<char>>, ManifestKind, bool, Option<Seq<char>>, Option<Seq<char>>)>,
        bool,
    ),
    l: Seq<char>,
) -> (
    Option<Seq<char>>,
    Seq<(Seq<char>, Option<Seq<char>>, ManifestKind, bool, Option<Seq<char>>, Option<Seq<char>>)>,
    bool,
) {
    let (name, deps, in_block) = st;
    if l.len() == 0 {
        st
    } else if starts_with(l, "module "@) {
        (Some(last_segment(trim(l.skip("module "@.len() as int)))), deps, in_block)
    } else if l == "require ("@ {
        (name, deps, true)
    } else if in_block && l == ")"@ {
        (name, deps, false)
    } else if in_block || starts_with(l, "require "@) {
        let spec = if in_block {
            l
        } else {
            l.skip("require "@.len() as int)
        };
        match two_words(spec) {
            Some((m, v)) => (name, deps.push((m, Some(v), ManifestKind::Go, false, None, None)), in_block),
            None => st,
        }
    } else if starts_with(l, "replace "@) {
        let rest = l.skip("replace "@.len() as int);
        match find_pattern(rest, "=>"@) {
            Some(k) => {
                let target = first_word(rest.take(k));
                let local = first_word(trim(rest.skip(k + "=>"@.len())));
                if starts_with(local, "."@) || starts_with(local, "/"@) {
                    match dep_position(deps, target) {
                        Some(t) => (
                            name,
                            deps.update(t, (deps[t].0, deps[t].1, deps[t].2, true, Some(local), deps[t].5)),
                            in_block,
                        ),
                        None => (name, deps.push((target, None, ManifestKind::Go, true, Some(local), None)), in_block),
                    }
                } else {
                    st
                }
            },
            None => st,
        }
    } else {
        st
    }
}

/// The reader's state after the first `n` lines.
pub open spec fn go_state(s: Seq<char>, n: int) -> (
    Option<Seq<char>>,
    Seq<(Seq<char>, Option<Seq<char>>, ManifestKind, bool, Option<Seq<char>>, Option<Seq<char>>)>,
    bool,
)
    decreases n,
{
    if n <= 0 {
        (None, seq![], false)
    } else {
        go_step(go_state(s, n - 1), go_clean(line_text(s, line_starts(s), n - 1)))
    }
}

/// What a `go.mod` declares.
pub open spec fn go_facts(s: Seq<char>) -> (
    Option<Seq<char>>,
    Option<Seq<char>>,
    Option<Seq<char>>,
    Seq<(Seq<char>, Option<Seq<char>>, ManifestKind, bool, Option<Seq<char>>, Option<Seq<char>>)>,
) {
    let st = go_state(s, line_starts(s).len() as int);
    (st.0, None, None, st.1)
}

/// Where `p` first occurs in `x`.
fn find_pattern_in(x: &[char], p: &[char]) -> (r: Option<usize>)
    ensures
        match r {
            Some(k) => k <= x@.len() && find_pattern(x@, p@) == Some(k as int),
            None => find_pattern(x@, p@) is None,
        },
{
    let n = x.len();
    let mut k: usize = 0;
    assert(x@.skip(0) =~= x@);
    while k < n
        invariant
            k <= n,
            n == x@.len(),
            find_pattern(x@, p@) == match find_pattern(x@.skip(k as int), p@) {
                Some(j) => Some(j + k),
                None => None,
            },
        decreases n - k,
    {
        assert(x@.subrange(k as int, n as int) =~= x@.skip(k as int));
        if range_starts_with(x, k, n, p) {
            return Some(k);
        }
        assert(x@.skip(k as int).drop_first() =~= x@.skip(k + 1));
        k = k + 1;
    }
    assert(x@.subrange(k as int, n as int) =~= x@.skip(k as int));
    if range_starts_with(x, k, n, p) {
        return Some(k);
    }
    assert(x@.skip(k as int).len() == 0);
    None
}

proof fn lemma_trim_start_skip(y: Seq<char>)
    ensures
        exists|j: int| 0 <= j <= y.len() && trim_start(y) == y.skip(j) && forall|t: int| 0 <= t < j ==> is_ws(#[trigger] y[t]),
    decreases y.len(),
{
    if y.len() > 0 && is_ws(y[0]) {
        lemma_trim_start_skip(y.drop_first());
        let j = choose|j: int| 0 <= j <= y.drop_first().len() && trim_start(y.drop_first()) == y.drop_first().skip(j)
            && forall|t: int| 0 <= t < j ==> is_ws(#[trigger] y.drop_first()[t]);
        assert(y.drop_first().skip(j) =~= y.skip(j + 1));
        assert forall|t: int| 0 <= t < j + 1 implies is_ws(#[trigger] y[t]) by {
            if t > 0 {
                assert(y[t] == y.drop_first()[t - 1]);
            }
        }
    } else {
        assert(y.skip(0) =~= y);
    }
}

proof fn lemma_word_len_bound(t: Seq<char>)
    ensures
        word_len(t) <= t.len(),
    decreases t.len(),
{
    if t.len() > 0 && !is_ws(t[0]) {
        lemma_word_len_bound(t.drop_first());
    }
}

/// The range of the first word of `x[a..b]`; what follows it is `x[r.1..b]`.
fn first_word_range(x: &[char], a: usize, b: usize) -> (r: (usize, usize))
    requires
        a <= b <= x@.len(),
    ensures
        a <= r.0 <= r.1 <= b,
        x@.subrange(r.0 as int, r.1 as int) == first_word(x@.subrange(a as int, b as int)),
        x@.subrange(r.1 as int, b as int) == after_first_word(x@.subrange(a as int, b as int)),
{
    let ghost y = x@.subrange(a as int, b as int);
    let mut i = a;
    while i < b && is_whitespace(x[i])
        invariant
            a <= i <= b <= x@.len(),
            y == x@.subrange(a as int, b as int),
            trim_start(y) == trim_start(x@.subrange(i as int, b as int)),
        decreases b - i,
    {
        assert(x@.subrange(i as int, b as int).drop_first() =~= x@.subrange(i + 1, b as int));
        i = i + 1;
    }
    let ghost t = x@.subrange(i as int, b as int);
    assert(trim_start(t) == t);
    let mut e = i;
    while e < b && !is_whitespace(x[e])
        invariant
            i <= e <= b <= x@.len(),
            t == x@.subrange(i as int, b as int),
            word_len(t) == (e - i) + word_len(x@.subrange(e as int, b as int)),
        decreases b - e,
    {
        assert(x@.subrange(e as int, b as int).drop_first() =~= x@.subrange(e + 1, b as int));
        e = e + 1;
    }
    assert(word_len(x@.subrange(e as int, b as int)) == 0);
    assert(t.take(word_len(t) as int) =~= x@.subrange(i as int, e as int));
    assert(t.skip(word_len(t) as int) =~= x@.subrange(e as int, b as int));
    (i, e)
}

/// The text after the last `/` of `x[a..b]` starts at `r`.
fn last_segment_start(x: &[char], a: usize, b: usize) -> (r: usize)
    requires
        a <= b <= x@.len(),
    ensures
        a <= r <= b,
        x@.subrange(r as int, b as int) == last_segment(x@.subrange(a as int, b as int)),
{
    let mut k = b;
    while k > a && x[k - 1] != '/'
        invariant
            a <= k <= b <= x@.len(),
            last_segment(x@.subrange(a as int, b as int)) == last_segment(x@.subrange(a as int, k as int))
                + x@.subrange(k as int, b as int),
        decreases k - a,
    {
        let ghost y = x@.subrange(a as int, k as int);
        assert(y.drop_last() =~= x@.subrange(a as int, k - 1));
        assert(y.last() == x@[k - 1]);
        assert(x@.subrange(k - 1, b as int) =~= seq![x@[k - 1]] + x@.subrange(k as int, b as int));
        assert(last_segment(x@.subrange(a as int, k - 1)).push(x@[k - 1]) + x@.subrange(k as int, b as int)
            =~= last_segment(x@.subrange(a as int, k - 1)) + x@.subrange(k - 1, b as int));
        k = k - 1;
    }
    if k > a {
        assert(x@.subrange(a as int, k as int).last() == '/');
    }
    assert(last_segment(x@.subrange(a as int, k as int)) =~= Seq::<char>::empty());
    assert(Seq::<char>::empty() + x@.subrange(k as int, b as int) =~= x@.subrange(k as int, b as int));
    k
}

/// `a == b` on character slices.
fn chars_equal(a: &[char], b: &[char]) -> (r: bool)
    ensures
        r == (a@ == b@),
{
    if a.len() != b.len() {
        return false;
    }
    let n = a.len();
    assert(a@.subrange(0, n as int) =~= a@);
    if range_starts_with(a, 0, n, b) {
        assert(a@.subrange(0, b@.len() as int) =~= a@);
        true
    } else {
        false
    }
}

/// The first dependency named `target`.
fn find_dep(deps: &Vec<DependencyRef>, target: &str) -> (r: Option<usize>)
    ensures
        match r {
            Some(k) => k < deps@.len() && dep_position(deps_view(deps@), target@) == Some(k as int),
            None => dep_position(deps_view(deps@), target@) is None,
        },
{
    let ghost dv = deps_view(deps@);
    let mut k: usize = 0;
    assert(dv.skip(0) =~= dv);
    while k < deps.len()
        invariant
            k <= deps@.len(),
            dv == deps_view(deps@),
            dep_position(dv, target@) == match dep_position(dv.skip(k as int), target@) {
                Some(j) => Some(j + k),
                None => None,
            },
        decreases deps@.len() - k,
    {
        assert(dv.skip(k as int)[0] == dep_view(deps@[k as int]));
        assert(dv.skip(k as int).drop_first() =~= dv.skip(k + 1));
        if str_eq(deps[k].name.as_str(), target) {
            return Some(k);
        }
        k = k + 1;
    }
    None
}

proof fn lemma_find_pattern(x: Seq<char>, p: Seq<char>)
    ensures
        match find_pattern(x, p) {
            Some(k) => 0 <= k <= x.len() && starts_with(x.skip(k), p),
            None => true,
        },
    decreases x.len(),
{
    if starts_with(x, p) {
        assert(x.skip(0) =~= x);
    } else if x.len() > 0 {
        lemma_find_pattern(x.drop_first(), p);
        match find_pattern(x.drop_first(), p) {
            Some(k) => {
                assert(x.drop_first().skip(k) =~= x.skip(k + 1));
            },
            None => {},
        }
    }
}

/// A copy of `x[a..b]`.
fn sub_chars(x: &[char], a: usize, b: usize) -> (r: Vec<char>)
    requires
        a <= b <= x@.len(),
    ensures
        r@ == x@.subrange(a as int, b as int),
{
    let mut v: Vec<char> = Vec::new();
    extend_range(&mut v, x, a, b);
    assert(v@ =~= x@.subrange(a as int, b as int));
    v
}

/// Reads one cleaned line of a `go.mod`.
fn go_line(l: &Vec<char>, name: &mut Option<String>, deps: &mut Vec<DependencyRef>, in_block: &mut bool)
    ensures
        (opt_chars(*final(name)), deps_view(final(deps)@), *final(in_block)) == go_step(
            (opt_chars(*old(name)), deps_view(old(deps)@), *old(in_block)),
            l@,
        ),
{
    let n = l.len();
    if n == 0 {
        return;
    }
    let module_p = chars_of("module ");
    let require_open = chars_of("require (");
    let close = chars_of(")");
    let require_p = chars_of("require ");
    let replace_p = chars_of("replace ");
    let arrow = chars_of("=>");
    let dot = chars_of(".");
    let slash = chars_of("/");
    proof {
        reveal_strlit("module ");
        reveal_strlit("require ");
        reveal_strlit("replace ");
        reveal_strlit("=>");
    }
    assert(l@.subrange(0, n as int) =~= l@);
    if range_starts_with(l, 0, n, &module_p) {
        assert(l@.skip(7) =~= l@.subrange(7, n as int));
        let (a, b) = trim_range(l, 7, n);
        let s0 = last_segment_start(l, a, b);
        *name = Some(string_from_range(l, s0, b));
        return;
    }
    if chars_equal(l, &require_open) {
        *in_block = true;
        return;
    }
    if *in_block && chars_equal(l, &close) {
        *in_block = false;
        return;
    }
    let is_req = range_starts_with(l, 0, n, &require_p);
    if *in_block || is_req {
        let start: usize = if *in_block {
            0
        } else {
            8
        };
        assert(l@.subrange(start as int, n as int) == (if *in_block {
            l@
        } else {
            l@.skip(8)
        }));
        let (a1, b1) = first_word_range(l, start, n);
        let (a2, b2) = first_word_range(l, b1, n);
        if b1 > a1 && b2 > a2 {
            let d = make_go_dep(string_from_range(l, a1, b1), Some(string_from_range(l, a2, b2)), false, None);
            let ghost before = deps_view(deps@);
            deps.push(d);
            assert(deps_view(deps@) =~= before.push(dep_view(d)));
        }
        return;
    }
    if range_starts_with(l, 0, n, &replace_p) {
        let rest = sub_chars(l, 8, n);
        assert(rest@ =~= l@.skip(8));
        match find_pattern_in(&rest, &arrow) {
            Some(k) => {
                proof {
                    lemma_find_pattern(rest@, arrow@);
                }
                let rn = rest.len();
                assert(rest@.take(k as int) =~= rest@.subrange(0, k as int));
                assert(rest@.skip(k + 2) =~= rest@.subrange(k + 2, rn as int));
                let (ta, tb) = first_word_range(&rest, 0, k);
                let (ra, rb) = trim_range(&rest, k + 2, rn);
                let (la, lb) = first_word_range(&rest, ra, rb);
                if range_starts_with(&rest, la, lb, &dot) || range_starts_with(&rest, la, lb, &slash) {
                    let target = string_from_range(&rest, ta, tb);
                    let local = string_from_range(&rest, la, lb);
                    let ghost before = deps_view(deps@);
                    match find_dep(deps, target.as_str()) {
                        Some(t) => {
                            let mut d = deps.remove(t);
                            d.is_path_dependency = true;
                            d.path_hint = Some(local);
                            deps.insert(t, d);
                            assert(deps_view(deps@) =~= before.update(
                                t as int,
                                (before[t as int].0, before[t as int].1, before[t as int].2, true, Some(local@), before[t as int].5),
                            ));
                        },
                        None => {
                            let d = make_go_dep(target, None, true, Some(local));
                            deps.push(d);
                            assert(deps_view(deps@) =~= before.push(dep_view(d)));
                        },
                    }
                }
            },
            None => {},
        }
    }
}

fn make_go_dep(name: String, version_req: Option<String>, is_path_dependency: bool, path_hint: Option<String>) -> (d:
    DependencyRef)
    ensures
        dep_view(d) == (name@, opt_chars(version_req), ManifestKind::Go, is_path_dependency, opt_chars(path_hint), None::<
            Seq<char>,
        >),
{
    DependencyRef { name, version_req, manifest: ManifestKind::Go, is_path_dependency, path_hint, resolved_repo: None }
}

/// Reads a `go.mod`'s text. It always yields facts; a `go.mod` declares no
/// description or license.
pub fn parse_go_mod(content: &str) -> (r: Option<ManifestFacts>)
    ensures
        facts_view(r) == Some(go_facts(content@)),
{
    let chars = chars_of(content);
    let ghost s = chars@;
    let ls = line_starts_of(&chars);
    let ghost lsp = line_starts(s);
    let nl = ls.len();
    let slashes = chars_of("//");
    let mut name: Option<String> = None;
    let mut deps: Vec<DependencyRef> = Vec::new();
    let mut in_block = false;
    assert(deps_view(deps@) =~= Seq::empty());
    let mut k: usize = 0;
    while k < nl
        invariant
            k <= nl,
            nl == ls@.len(),
            nl == lsp.len(),
            lsp == line_starts(s),
            s == chars@,
            s == content@,
            ls@.map_values(|x: usize| x as int) == lsp,
            line_starts_ok(s, lsp),
            slashes@ == "//"@,
            (opt_chars(name), deps_view(deps@), in_block) == go_state(s, k as int),
        decreases nl - k,
    {
        assert(ls@.map_values(|x: usize| x as int)[k as int] == lsp[k as int]);
        let start = ls[k];
        let end = if k + 1 < nl {
            assert(ls@.map_values(|x: usize| x as int)[k + 1] == lsp[k + 1]);
            ls[k + 1]
        } else {
            chars.len()
        };
        let line = sub_chars(&chars, start, end);
        assert(line@ == line_text(s, lsp, k as int));
        let cut = match find_pattern_in(&line, &slashes) {
            Some(c) => c,
            None => line.len(),
        };
        assert(line@.subrange(0, cut as int) == before_comment(line@));
        let (a, b) = trim_range(&line, 0, cut);
        let cleaned = sub_chars(&line, a, b);
        go_line(&cleaned, &mut name, &mut deps, &mut in_block);
        k = k + 1;
    }
    Some(ManifestFacts { name, description: None, license: None, dependencies: deps })
}

} // verus!
