//! Text-pattern scanning primitives over Rust source, shared by CLI
//! subcommand extraction and serde-struct extraction. No macro expansion,
//! no build, no execution: a lexer just precise enough not to be fooled by
//! raw strings, doc comments holding commas, or test fixtures embedding
//! lookalike source.

use vstd::prelude::*;
use crate::text::{
    chars_of, string_from_range, range_is_blank, is_blank, trim, starts_with, contains, trim_range,
    range_starts_with, range_contains, string_from_chars, ident_prefix, ident_end, join, lemma_join_push,
    extend_range, extend_all, opt_chars,
};
use crate::lexer::{LexMode, lex_step, capped_next, lex_step_exec, lemma_lex_step_advances, mode_ok};

verus! {

/// Scanning on from `i` in mode `m` with brace depth `depth`: the index of
/// the code `}` that brings the depth back to zero, if any.
pub open spec fn brace_scan(s: Seq<char>, i: int, m: LexMode, depth: int) -> Option<int>
    decreases s.len() - i,
{
    if i < 0 || i >= s.len() {
        None
    } else {
        let st = lex_step(s, i, m);
        let next = capped_next(s, i, m);
        if st.2 && s[i] == '{' {
            brace_scan(s, next, st.1, depth + 1)
        } else if st.2 && s[i] == '}' {
            if depth - 1 == 0 {
                Some(i)
            } else {
                brace_scan(s, next, st.1, depth - 1)
            }
        } else {
            brace_scan(s, next, st.1, depth)
        }
    }
}

/// The `}` matching the `{` at `open_idx`: brace_scan from there in code mode.
pub open spec fn matching_brace(s: Seq<char>, open_idx: int) -> Option<int> {
    brace_scan(s, open_idx, LexMode::Code, 0)
}

/// The index of the `}` matching the `{` at `open_idx`, tracking
/// string/char literals, raw strings, and line comments so none of their
/// contents (quotes, braces, commas) throw off the depth count. The scan
/// starts at `open_idx` at depth zero whatever stands there; from past the
/// end it finds nothing.
pub fn find_matching_brace(chars: &[char], open_idx: usize) -> (r: Option<usize>)
    ensures
        r matches Some(k) ==> Some(k as int) == matching_brace(chars@, open_idx as int),
        r is None ==> matching_brace(chars@, open_idx as int) is None,
        r matches Some(k) ==> open_idx < k < chars@.len() && chars@[k as int] == '}',
{
    let ghost s = chars@;
    let len = chars.len();
    if open_idx >= len {
        return None;
    }
    let mut depth: i128 = 0;
    let mut mode = LexMode::Code;
    let mut i = open_idx;
    proof {
        lemma_lex_step_advances(s, i as int, mode);
    }
    while i < len
        invariant
            len == s.len(),
            s == chars@,
            open_idx <= i <= len,
            mode_ok(s, mode),
            i == open_idx ==> depth == 0 && mode == LexMode::Code,
            -(i - open_idx) <= depth <= i - open_idx,
            matching_brace(s, open_idx as int) == brace_scan(s, i as int, mode, depth as int),
        decreases len - i,
    {
        let (next, m2, code, _) = lex_step_exec(chars, i, mode);
        let c = chars[i];
        if code && c == '{' {
            depth = depth + 1;
        } else if code && c == '}' {
            if depth == 1 {
                return Some(i);
            }
            depth = depth - 1;
        }
        i = next;
        mode = m2;
    }
    None
}


pub open spec fn is_open_bracket(c: char) -> bool {
    c == '{' || c == '(' || c == '['
}

pub open spec fn is_close_bracket(c: char) -> bool {
    c == '}' || c == ')' || c == ']'
}

/// Positions of the commas at bracket depth zero in code, scanning on from
/// `i` in mode `m` at depth `depth`.
pub open spec fn comma_scan(s: Seq<char>, i: int, m: LexMode, depth: int) -> Seq<int>
    decreases s.len() - i,
{
    if i < 0 || i >= s.len() {
        seq![]
    } else {
        let st = lex_step(s, i, m);
        let next = capped_next(s, i, m);
        if st.2 && is_open_bracket(s[i]) {
            comma_scan(s, next, st.1, depth + 1)
        } else if st.2 && is_close_bracket(s[i]) {
            comma_scan(s, next, st.1, depth - 1)
        } else if st.2 && s[i] == ',' && depth == 0 {
            seq![i] + comma_scan(s, next, st.1, depth)
        } else {
            comma_scan(s, next, st.1, depth)
        }
    }
}

/// The top-level comma positions of a whole body.
pub open spec fn top_level_commas(s: Seq<char>) -> Seq<int> {
    comma_scan(s, 0, LexMode::Code, 0)
}

/// Whether scanning on from `i` ever closes a raw string whose closing `#`s
/// would run past the end of the text.
pub open spec fn raw_overrun_from(s: Seq<char>, i: int, m: LexMode) -> bool
    decreases s.len() - i,
{
    if i < 0 || i >= s.len() {
        false
    } else {
        lex_step(s, i, m).0 > s.len() || raw_overrun_from(s, capped_next(s, i, m), lex_step(s, i, m).1)
    }
}

pub open spec fn raw_overrun(s: Seq<char>) -> bool {
    raw_overrun_from(s, 0, LexMode::Code)
}

/// The pieces of `s` between consecutive cut positions `ps` (cuts dropped).
pub open spec fn pieces(s: Seq<char>, ps: Seq<int>) -> Seq<Seq<char>> {
    Seq::new(
        ps.len() + 1,
        |k: int|
            s.subrange(
                if k == 0 {
                    0
                } else {
                    ps[k - 1] + 1
                },
                if k < ps.len() {
                    ps[k]
                } else {
                    s.len() as int
                },
            ),
    )
}

/// The chunks `split_top_level` yields: the pieces between top-level
/// commas, with the final piece dropped when it is blank.
pub open spec fn split_chunks(s: Seq<char>) -> Seq<Seq<char>> {
    let p = pieces(s, top_level_commas(s));
    if is_blank(p.last()) {
        p.drop_last()
    } else {
        p
    }
}

/// Split a block body into top-level (brace/paren/bracket-depth-0) comma
/// separated chunks (enum variants, struct fields, ...), aware of string
/// literals, raw strings, char-literal-vs-lifetime, and line comments.
/// A comma inside a `///` doc comment does not split a chunk.
pub fn split_top_level(body: &str) -> (r: Vec<String>)
    requires
        !raw_overrun(body@),
        body@.len() < i64::MAX,
    ensures
        r@.len() == split_chunks(body@).len(),
        forall|k: int| 0 <= k < r@.len() ==> #[trigger] r@[k]@ == split_chunks(body@)[k],
{
    let chars = chars_of(body);
    let ghost s = chars@;
    let len = chars.len();
    let mut result: Vec<String> = Vec::new();
    let ghost mut found: Seq<int> = seq![];
    let mut start: usize = 0;
    let mut depth: i64 = 0;
    let mut mode = LexMode::Code;
    let mut i: usize = 0;
    while i < len
        invariant
            len == s.len(),
            s == chars@,
            s == body@,
            len < i64::MAX,
            0 <= start <= i <= len,
            -(i as int) <= depth <= i,
            mode_ok(s, mode),
            top_level_commas(s) == found + comma_scan(s, i as int, mode, depth as int),
            start == (if found.len() == 0 {
                0
            } else {
                found.last() + 1
            }),
            forall|k: int| 0 <= k < found.len() ==> found[k] < i,
            forall|k: int, t: int| 0 <= k < t < found.len() ==> found[k] < found[t],
            result@.len() == found.len(),
            forall|k: int|
                0 <= k < found.len() ==> #[trigger] result@[k]@ == s.subrange(
                    if k == 0 {
                        0
                    } else {
                        found[k - 1] + 1
                    },
                    found[k],
                ),
        decreases len - i,
    {
        let (next, m2, code, _) = lex_step_exec(&chars, i, mode);
        let c = chars[i];
        if code && (c == '{' || c == '(' || c == '[') {
            depth = depth + 1;
        } else if code && (c == '}' || c == ')' || c == ']') {
            depth = depth - 1;
        } else if code && c == ',' && depth == 0 {
            let chunk = string_from_range(&chars, start, i);
            result.push(chunk);
            proof {
                let old_found = found;
                found = found.push(i as int);
                assert(old_found + (seq![i as int] + comma_scan(s, next as int, m2, depth as int))
                    == found + comma_scan(s, next as int, m2, depth as int));
                assert forall|k: int| 0 <= k < found.len() implies #[trigger] result@[k]@ == s.subrange(
                    if k == 0 {
                        0
                    } else {
                        found[k - 1] + 1
                    },
                    found[k],
                ) by {
                    if k < old_found.len() {
                        assert(found[k] == old_found[k]);
                        if k > 0 {
                            assert(found[k - 1] == old_found[k - 1]);
                        }
                    }
                }
            }
            start = i + 1;
        }
        i = next;
        mode = m2;
    }
    proof {
        assert(comma_scan(s, i as int, mode, depth as int) == Seq::<int>::empty());
        assert(top_level_commas(s) == found);
    }
    let ghost p = pieces(s, found);
    assert(p.last() == s.subrange(start as int, len as int));
    if !range_is_blank(&chars, start, len) {
        let last = string_from_range(&chars, start, len);
        result.push(last);
    }
    proof {
        assert forall|k: int| 0 <= k < result@.len() implies #[trigger] result@[k]@ == split_chunks(body@)[k] by {
            if k < found.len() {
                assert(p[k] == s.subrange(
                    if k == 0 {
                        0
                    } else {
                        found[k - 1] + 1
                    },
                    found[k],
                ));
            }
        }
    }
    result
}


/// Start index of every line: 0, and each position just after a `\n`
/// among the first `n` characters.
pub open spec fn line_starts_upto(s: Seq<char>, n: int) -> Seq<int>
    decreases n,
{
    if n <= 0 {
        seq![0]
    } else {
        let p = line_starts_upto(s, n - 1);
        if s[n - 1] == '\n' {
            p.push(n)
        } else {
            p
        }
    }
}

pub open spec fn line_starts(s: Seq<char>) -> Seq<int> {
    line_starts_upto(s, s.len() as int)
}

/// Where line `li` ends (exclusive; its `\n`, if any, included).
pub open spec fn line_end(s: Seq<char>, ls: Seq<int>, li: int) -> int {
    if li + 1 < ls.len() {
        ls[li + 1]
    } else {
        s.len() as int
    }
}

pub open spec fn line_text(s: Seq<char>, ls: Seq<int>, li: int) -> Seq<char> {
    s.subrange(ls[li], line_end(s, ls, li))
}

/// Line starts of a text, as computed: strictly increasing, first 0, all within the text.
pub open spec fn line_starts_ok(s: Seq<char>, ls: Seq<int>) -> bool {
    &&& ls.len() >= 1
    &&& ls[0] == 0
    &&& forall|k: int| 0 <= k < ls.len() ==> 0 <= #[trigger] ls[k] <= s.len()
    &&& forall|k: int, t: int| 0 <= k < t < ls.len() ==> ls[k] < ls[t]
}

proof fn lemma_line_starts_upto(s: Seq<char>, n: int)
    requires
        0 <= n <= s.len(),
    ensures
        line_starts_ok(s, line_starts_upto(s, n)),
        forall|k: int| 0 <= k < line_starts_upto(s, n).len() ==> #[trigger] line_starts_upto(s, n)[k] <= n,
    decreases n,
{
    if n > 0 {
        lemma_line_starts_upto(s, n - 1);
    }
}

pub proof fn lemma_line_starts(s: Seq<char>)
    ensures
        line_starts_ok(s, line_starts(s)),
{
    lemma_line_starts_upto(s, s.len() as int);
}

/// The line starts of `chars`.
pub fn line_starts_of(chars: &[char]) -> (ls: Vec<usize>)
    ensures
        ls@.map_values(|x: usize| x as int) == line_starts(chars@),
        line_starts_ok(chars@, line_starts(chars@)),
{
    let mut ls: Vec<usize> = Vec::new();
    ls.push(0);
    let mut i: usize = 0;
    while i < chars.len()
        invariant
            i <= chars@.len(),
            ls@.map_values(|x: usize| x as int) == line_starts_upto(chars@, i as int),
        decreases chars@.len() - i,
    {
        if chars[i] == '\n' {
            ls.push(i + 1);
        }
        i = i + 1;
    }
    proof {
        lemma_line_starts(chars@);
    }
    ls
}

/// The first index at or after `from` holding `c`.
pub open spec fn first_from(s: Seq<char>, from: int, c: char) -> Option<int>
    decreases s.len() - from,
{
    if from < 0 || from >= s.len() {
        None
    } else if s[from] == c {
        Some(from)
    } else {
        first_from(s, from + 1, c)
    }
}

/// Computed `first_from`.
pub fn find_char_from(chars: &[char], from: usize, c: char) -> (r: Option<usize>)
    ensures
        r matches Some(k) ==> Some(k as int) == first_from(chars@, from as int, c) && from <= k < chars@.len()
            && chars@[k as int] == c,
        r is None ==> first_from(chars@, from as int, c) is None,
{
    let mut k = from;
    while k < chars.len()
        invariant
            from <= k,
            first_from(chars@, from as int, c) == first_from(chars@, k as int, c),
        decreases chars@.len() - k,
    {
        if chars[k] == c {
            return Some(k);
        }
        k = k + 1;
    }
    None
}

/// A line that the look-ahead passes over: blank, a comment, or an attribute.
pub open spec fn passable(t: Seq<char>) -> bool {
    t.len() == 0 || starts_with(t, "//"@) || starts_with(t, "#"@)
}

/// For a `cfg(test)` line `li`, look at lines `lj` up to `li + 5` for the
/// `mod` it applies to, and return where that module's braces close.
pub open spec fn test_target(s: Seq<char>, ls: Seq<int>, li: int, lj: int) -> Option<int>
    decreases li + 6 - lj,
{
    if lj < 0 || lj >= ls.len() || lj >= li + 6 {
        None
    } else {
        let t = trim(line_text(s, ls, lj));
        if passable(t) {
            test_target(s, ls, li, lj + 1)
        } else if contains(t, "mod "@) {
            match first_from(s, ls[lj], '{') {
                Some(o) => matching_brace(s, o),
                None => None,
            }
        } else {
            None
        }
    }
}

/// Where the test module introduced on line `li` closes, if `li` is such a line.
#[verifier::opaque]
pub open spec fn test_block_close(s: Seq<char>, li: int) -> Option<int> {
    let ls = line_starts(s);
    if 0 <= li < ls.len() && contains(line_text(s, ls, li), "cfg(test)"@) {
        test_target(s, ls, li, li + 1)
    } else {
        None
    }
}

/// Position `k` lies in a `#[cfg(test)] mod ... { ... }` block (from the
/// start of the attribute's line through the closing brace).
pub open spec fn in_test_block(s: Seq<char>, k: int) -> bool {
    exists|li: int|
        #![trigger test_block_close(s, li)]
        0 <= li < line_starts(s).len() && (test_block_close(s, li) matches Some(c) && line_starts(s)[li] <= k
            <= c)
}

fn test_target_exec(chars: &[char], ls: &Vec<usize>, li: usize) -> (r: Option<usize>)
    requires
        ls@.map_values(|x: usize| x as int) == line_starts(chars@),
        line_starts_ok(chars@, line_starts(chars@)),
        li < ls@.len(),
    ensures
        r matches Some(c) ==> test_target(chars@, line_starts(chars@), li as int, li + 1) == Some(c as int)
            && c < chars@.len() && line_starts(chars@)[li as int] < c,
        r is None ==> test_target(chars@, line_starts(chars@), li as int, li + 1) is None,
{
    let ghost s = chars@;
    let ghost lsp = line_starts(chars@);
    let slashes = chars_of("//");
    let hash = chars_of("#");
    let modp = chars_of("mod ");
    let nl = ls.len();
    let mut lj = li + 1;
    while lj < nl && lj - li < 6
        invariant
            li < lj <= nl,
            nl == ls@.len(),
            nl == lsp.len(),
            lsp == line_starts(s),
            s == chars@,
            ls@.map_values(|x: usize| x as int) == lsp,
            line_starts_ok(s, lsp),
            lj - li <= 6,
            slashes@ == "//"@,
            hash@ == "#"@,
            modp@ == "mod "@,
            test_target(s, lsp, li as int, li + 1) == test_target(s, lsp, li as int, lj as int),
        decreases nl - lj,
    {
        assert(ls@.map_values(|x: usize| x as int)[lj as int] == lsp[lj as int]);
        let start = ls[lj];
        let end = if lj + 1 < nl {
            assert(ls@.map_values(|x: usize| x as int)[lj + 1] == lsp[lj + 1]);
            ls[lj + 1]
        } else {
            chars.len()
        };
        let (a, b) = trim_range(chars, start, end);
        if a == b || range_starts_with(chars, a, b, &slashes) || range_starts_with(chars, a, b, &hash) {
            lj = lj + 1;
        } else {
            if range_contains(chars, a, b, &modp) {
                match find_char_from(chars, start, '{') {
                    Some(o) => {
                        assert(lsp[li as int] < lsp[lj as int]);
                        return find_matching_brace(chars, o);
                    },
                    None => {
                        return None;
                    },
                }
            }
            return None;
        }
    }
    None
}

/// The `(start, end)` character ranges of all test-module blocks: one per
/// `cfg(test)` line whose module closes, from that line's start through
/// the closing brace.
spec fn ranges_sound(s: Seq<char>, lsp: Seq<int>, len: int, ranges: Seq<(usize, usize)>, li: int) -> bool {
    forall|r: int|
        #![trigger ranges[r]]
        0 <= r < ranges.len() ==> exists|lk: int|
            #![trigger test_block_close(s, lk)]
            0 <= lk < li && test_block_close(s, lk) == Some(ranges[r].1 - 1) && ranges[r].0 == lsp[lk]
                && ranges[r].0 <= ranges[r].1 <= len
}

spec fn ranges_complete(s: Seq<char>, lsp: Seq<int>, ranges: Seq<(usize, usize)>, li: int) -> bool {
    forall|lk: int|
        #![trigger test_block_close(s, lk)]
        0 <= lk < li && test_block_close(s, lk) is Some ==> exists|r: int|
            #![trigger ranges[r]]
            0 <= r < ranges.len() && ranges[r].0 == lsp[lk] && ranges[r].1 - 1 == test_block_close(s, lk)->0
}

proof fn lemma_ranges_step(
    s: Seq<char>,
    lsp: Seq<int>,
    len: int,
    old: Seq<(usize, usize)>,
    new: Seq<(usize, usize)>,
    li: int,
)
    requires
        0 <= li < lsp.len(),
        ranges_sound(s, lsp, len, old, li),
        ranges_complete(s, lsp, old, li),
        (new == old && test_block_close(s, li) is None) || (new.len() == old.len() + 1 && new.drop_last()
            == old && test_block_close(s, li) == Some(new.last().1 - 1) && new.last().0 == lsp[li]
            && new.last().0 <= new.last().1 <= len),
    ensures
        ranges_sound(s, lsp, len, new, li + 1),
        ranges_complete(s, lsp, new, li + 1),
{
    assert forall|r: int|
        #![trigger new[r]]
        0 <= r < new.len() implies exists|lk: int|
            #![trigger test_block_close(s, lk)]
            0 <= lk < li + 1 && test_block_close(s, lk) == Some(new[r].1 - 1) && new[r].0 == lsp[lk]
                && new[r].0 <= new[r].1 <= len by {
        if r < old.len() {
            assert(new[r] == old[r]);
        } else {
            assert(test_block_close(s, li) == Some(new[r].1 - 1));
        }
    }
    assert forall|lk: int|
        #![trigger test_block_close(s, lk)]
        0 <= lk < li + 1 && test_block_close(s, lk) is Some implies exists|r: int|
            #![trigger new[r]]
            0 <= r < new.len() && new[r].0 == lsp[lk] && new[r].1 - 1 == test_block_close(s, lk)->0 by {
        if lk < li {
            let r = choose|r: int|
                #![trigger old[r]]
                0 <= r < old.len() && old[r].0 == lsp[lk] && old[r].1 - 1 == test_block_close(s, lk)->0;
            assert(new[r] == old[r]);
        } else {
            let r = new.len() - 1;
            assert(new[r].0 == lsp[lk]);
        }
    }
}

proof fn lemma_ranges_cover(s: Seq<char>, lsp: Seq<int>, len: int, ranges: Seq<(usize, usize)>, li: int)
    requires
        lsp == line_starts(s),
        len == s.len(),
        li == line_starts(s).len(),
        ranges_sound(s, lsp, len, ranges, li),
        ranges_complete(s, lsp, ranges, li),
    ensures
        forall|k: int|
            0 <= k < s.len() ==> (in_test_block(s, k) <==> exists|r: int|
                #![trigger ranges[r]]
                0 <= r < ranges.len() && ranges[r].0 <= k < ranges[r].1),
{
    assert forall|k: int| 0 <= k < len implies (in_test_block(s, k) <==> exists|r: int|
        #![trigger ranges[r]]
        0 <= r < ranges.len() && ranges[r].0 <= k < ranges[r].1) by {
        if in_test_block(s, k) {
            let lk = choose|lk: int|
                #![trigger test_block_close(s, lk)]
                0 <= lk < lsp.len() && (test_block_close(s, lk) matches Some(c) && lsp[lk] <= k <= c);
            let r = choose|r: int|
                #![trigger ranges[r]]
                0 <= r < ranges.len() && ranges[r].0 == lsp[lk] && ranges[r].1 - 1
                    == test_block_close(s, lk)->0;
            assert(ranges[r].0 <= k < ranges[r].1);
        }
        if exists|r: int|
            #![trigger ranges[r]]
            0 <= r < ranges.len() && ranges[r].0 <= k < ranges[r].1 {
            let r = choose|r: int|
                #![trigger ranges[r]]
                0 <= r < ranges.len() && ranges[r].0 <= k < ranges[r].1;
            let lk = choose|lk: int|
                #![trigger test_block_close(s, lk)]
                0 <= lk < li && test_block_close(s, lk) == Some(ranges[r].1 - 1) && ranges[r].0
                    == lsp[lk] && ranges[r].0 <= ranges[r].1 <= len;
            assert(test_block_close(s, lk) matches Some(c) && lsp[lk] <= k <= c);
        }
    }
}

#[verifier::rlimit(40)]
fn test_block_ranges(chars: &[char], ls: &Vec<usize>) -> (ranges: Vec<(usize, usize)>)
    requires
        ls@.map_values(|x: usize| x as int) == line_starts(chars@),
        line_starts_ok(chars@, line_starts(chars@)),
    ensures
        forall|r: int|
            #![trigger ranges@[r]]
            0 <= r < ranges@.len() ==> ranges@[r].0 <= ranges@[r].1 <= chars@.len(),
        forall|k: int|
            0 <= k < chars@.len() ==> (in_test_block(chars@, k) <==> exists|r: int|
                #![trigger ranges@[r]]
                0 <= r < ranges@.len() && ranges@[r].0 <= k < ranges@[r].1),
{
    let ghost s = chars@;
    let ghost lsp = line_starts(s);
    let cfg = chars_of("cfg(test)");
    let nl = ls.len();
    let len = chars.len();
    let mut ranges: Vec<(usize, usize)> = Vec::new();
    let mut li: usize = 0;
    while li < nl
        invariant
            li <= nl,
            nl == ls@.len(),
            nl == lsp.len(),
            len == s.len(),
            lsp == line_starts(s),
            s == chars@,
            ls@.map_values(|x: usize| x as int) == lsp,
            line_starts_ok(s, lsp),
            cfg@ == "cfg(test)"@,
            ranges_sound(s, lsp, len as int, ranges@, li as int),
            ranges_complete(s, lsp, ranges@, li as int),
        decreases nl - li,
    {
        assert(ls@.map_values(|x: usize| x as int)[li as int] == lsp[li as int]);
        let start = ls[li];
        let end = if li + 1 < nl {
            assert(ls@.map_values(|x: usize| x as int)[li + 1] == lsp[li + 1]);
            ls[li + 1]
        } else {
            len
        };
        let ghost old_ranges = ranges@;
        if range_contains(chars, start, end, &cfg) {
            let found = test_target_exec(chars, ls, li);
            if let Some(c) = found {
                assert(test_block_close(s, li as int) == Some(c as int)) by {
                    reveal(test_block_close);
                }
                ranges.push((start, c + 1));
                assert(ranges@.drop_last() =~= old_ranges);
            } else {
                assert(test_block_close(s, li as int) is None) by {
                    reveal(test_block_close);
                }
            }
        } else {
            assert(test_block_close(s, li as int) is None) by {
                reveal(test_block_close);
            }
        }
        proof {
            lemma_ranges_step(s, lsp, len as int, old_ranges, ranges@, li as int);
        }
        li = li + 1;
    }
    proof {
        lemma_ranges_cover(s, lsp, len as int, ranges@, li as int);
    }
    ranges
}

/// A copy of `chars` with every non-newline inside one of `ranges` turned into a space.
fn blank_ranges(chars: &Vec<char>, ranges: &Vec<(usize, usize)>) -> (out: Vec<char>)
    requires
        forall|r: int|
            #![trigger ranges@[r]]
            0 <= r < ranges@.len() ==> ranges@[r].0 <= ranges@[r].1 <= chars@.len(),
    ensures
        out@.len() == chars@.len(),
        forall|k: int|
            0 <= k < chars@.len() ==> #[trigger] out@[k] == if (exists|r: int|
                #![trigger ranges@[r]]
                0 <= r < ranges@.len() && ranges@[r].0 <= k < ranges@[r].1) && chars@[k] != '\n' {
                ' '
            } else {
                chars@[k]
            },
{
    let ghost s = chars@;
    let len = chars.len();
    let mut out = chars.clone();
    assert(out@ =~= chars@);
    let mut ri: usize = 0;
    while ri < ranges.len()
        invariant
            ri <= ranges@.len(),
            len == s.len(),
            s == chars@,
            out@.len() == len,
            forall|r: int| #![trigger ranges@[r]] 0 <= r < ranges@.len() ==> ranges@[r].0 <= ranges@[r].1 <= len,
            forall|k: int|
                0 <= k < len ==> #[trigger] out@[k] == if (exists|r: int|
                    #![trigger ranges@[r]]
                    0 <= r < ri && ranges@[r].0 <= k < ranges@[r].1) && s[k] != '\n' {
                    ' '
                } else {
                    s[k]
                },
        decreases ranges@.len() - ri,
    {
        let (a, b) = ranges[ri];
        let mut k = a;
        while k < b
            invariant
                a <= k <= b <= len,
                len == s.len(),
                out@.len() == len,
                ri < ranges@.len(),
                (a, b) == ranges@[ri as int],
                forall|t: int|
                    0 <= t < len ==> #[trigger] out@[t] == if ((exists|r: int|
                        #![trigger ranges@[r]]
                        0 <= r < ri && ranges@[r].0 <= t < ranges@[r].1) || (a <= t < k)) && s[t] != '\n' {
                        ' '
                    } else {
                        s[t]
                    },
            decreases b - k,
        {
            if out[k] != '\n' {
                out.set(k, ' ');
            }
            k = k + 1;
        }
        assert forall|t: int| 0 <= t < len implies #[trigger] out@[t] == if (exists|r: int|
            #![trigger ranges@[r]]
            0 <= r < ri + 1 && ranges@[r].0 <= t < ranges@[r].1) && s[t] != '\n' {
            ' '
        } else {
            s[t]
        } by {
            if a <= t < b {
                assert(ranges@[ri as int].0 <= t < ranges@[ri as int].1);
            }
            if exists|r: int|
                #![trigger ranges@[r]]
                0 <= r < ri + 1 && ranges@[r].0 <= t < ranges@[r].1 {
                let r = choose|r: int|
                    #![trigger ranges@[r]]
                    0 <= r < ri + 1 && ranges@[r].0 <= t < ranges@[r].1;
                if r < ri {
                } else {
                    assert(a <= t < b);
                }
            }
        }
        ri = ri + 1;
    }
    out
}

/// Replace the body of every `#[cfg(test)] mod ... { ... }` block with
/// blanks (preserving newlines, so line numbers of everything else stay
/// correct), so later scanning never sees inside test modules. Test
/// fixtures routinely embed lookalike source as string literals.
pub fn strip_test_modules(content: &str) -> (r: String)
    ensures
        r@.len() == content@.len(),
        forall|k: int|
            0 <= k < content@.len() ==> #[trigger] r@[k] == if in_test_block(content@, k) && content@[k]
                != '\n' {
                ' '
            } else {
                content@[k]
            },
{
    let chars = chars_of(content);
    let ls = line_starts_of(&chars);
    let ranges = test_block_ranges(&chars, &ls);
    let out = blank_ranges(&chars, &ranges);
    string_from_chars(&out)
}


/// Lowest line of the run of attribute lines (`#...`) directly above line `lj`.
pub open spec fn attr_top(s: Seq<char>, ls: Seq<int>, lj: int) -> int
    decreases lj,
{
    if 0 < lj < ls.len() + 1 && starts_with(trim(line_text(s, ls, lj - 1)), "#"@) {
        attr_top(s, ls, lj - 1)
    } else {
        lj
    }
}

/// The contiguous `///` lines directly above line `lj`, in source order,
/// each with the `///` and surrounding whitespace removed.
pub open spec fn doc_run(s: Seq<char>, ls: Seq<int>, lj: int) -> Seq<Seq<char>>
    decreases lj,
{
    if 0 < lj < ls.len() + 1 && starts_with(trim(line_text(s, ls, lj - 1)), "///"@) {
        doc_run(s, ls, lj - 1).push(trim(trim(line_text(s, ls, lj - 1)).skip(3)))
    } else {
        seq![]
    }
}

/// The `///` doc comment of the item whose attribute sits on line `li`:
/// skip other attribute lines above, then join the doc lines with spaces.
pub open spec fn item_doc(s: Seq<char>, ls: Seq<int>, li: int) -> Option<Seq<char>> {
    let d = doc_run(s, ls, attr_top(s, ls, li));
    if d.len() == 0 {
        None
    } else {
        Some(join(d, " "@))
    }
}

/// The item's own `///` doc comment, scanning backward from the line
/// carrying the matched `#[derive(...)]` attribute.
fn item_doc_comment(chars: &[char], ls: &Vec<usize>, derive_line: usize) -> (r: Option<String>)
    requires
        ls@.map_values(|x: usize| x as int) == line_starts(chars@),
        line_starts_ok(chars@, line_starts(chars@)),
        derive_line < ls@.len(),
    ensures
        opt_chars(r) == item_doc(chars@, line_starts(chars@), derive_line as int),
{
    let ghost s = chars@;
    let ghost lsp = line_starts(s);
    let nl = ls.len();
    let hash = chars_of("#");
    let triple = chars_of("///");
    let mut lj = derive_line;
    while lj > 0
        invariant
            lj <= derive_line < nl,
            nl == lsp.len(),
            nl == ls@.len(),
            s == chars@,
            lsp == line_starts(s),
            ls@.map_values(|x: usize| x as int) == lsp,
            line_starts_ok(s, lsp),
            hash@ == "#"@,
            attr_top(s, lsp, derive_line as int) == attr_top(s, lsp, lj as int),
        ensures
            lj <= derive_line,
            attr_top(s, lsp, derive_line as int) == lj,
        decreases lj,
    {
        assert(ls@.map_values(|x: usize| x as int)[lj - 1] == lsp[lj - 1]);
        assert(ls@.map_values(|x: usize| x as int)[lj as int] == lsp[lj as int]);
        let (a, b) = trim_range(chars, ls[lj - 1], ls[lj]);
        assert(line_text(s, lsp, lj - 1) == chars@.subrange(ls@[lj - 1] as int, ls@[lj as int] as int));
        if !range_starts_with(chars, a, b, &hash) {
            break;
        }
        lj = lj - 1;
    }
    let top = lj;
    let mut k = top;
    while k > 0
        invariant
            k <= top <= derive_line < nl,
            nl == lsp.len(),
            nl == ls@.len(),
            s == chars@,
            lsp == line_starts(s),
            ls@.map_values(|x: usize| x as int) == lsp,
            line_starts_ok(s, lsp),
            triple@ == "///"@,
            forall|t: int| k <= t < top ==> starts_with(#[trigger] trim(line_text(s, lsp, t)), "///"@),
            forall|t: int| k <= t < top ==> #[trigger] doc_run(s, lsp, t + 1) == doc_run(s, lsp, t).push(
                trim(trim(line_text(s, lsp, t)).skip(3))),
        ensures
            k <= top,
            forall|t: int| k <= t < top ==> starts_with(#[trigger] trim(line_text(s, lsp, t)), "///"@),
            forall|t: int| k <= t < top ==> #[trigger] doc_run(s, lsp, t + 1) == doc_run(s, lsp, t).push(
                trim(trim(line_text(s, lsp, t)).skip(3))),
            doc_run(s, lsp, k as int) == Seq::<Seq<char>>::empty(),
        decreases k,
    {
        assert(ls@.map_values(|x: usize| x as int)[k - 1] == lsp[k - 1]);
        assert(ls@.map_values(|x: usize| x as int)[k as int] == lsp[k as int]);
        let (a, b) = trim_range(chars, ls[k - 1], ls[k]);
        if !range_starts_with(chars, a, b, &triple) {
            assert(line_text(s, lsp, k - 1) == chars@.subrange(ls@[k - 1] as int, ls@[k as int] as int));
            break;
        }
        assert(line_text(s, lsp, k - 1) == chars@.subrange(ls@[k - 1] as int, ls@[k as int] as int));
        k = k - 1;
    }
    if k == top {
        return None;
    }
    let mut acc: Vec<char> = Vec::new();
    let mut t = k;
    while t < top
        invariant
            k <= t <= top <= derive_line < nl,
            k < top,
            nl == lsp.len(),
            nl == ls@.len(),
            s == chars@,
            lsp == line_starts(s),
            ls@.map_values(|x: usize| x as int) == lsp,
            line_starts_ok(s, lsp),
            doc_run(s, lsp, k as int) == Seq::<Seq<char>>::empty(),
            forall|u: int| k <= u < top ==> starts_with(#[trigger] trim(line_text(s, lsp, u)), "///"@),
            forall|u: int| k <= u < top ==> #[trigger] doc_run(s, lsp, u + 1) == doc_run(s, lsp, u).push(
                trim(trim(line_text(s, lsp, u)).skip(3))),
            acc@ == join(doc_run(s, lsp, t as int), " "@),
        decreases top - t,
    {
        assert(ls@.map_values(|x: usize| x as int)[t as int] == lsp[t as int]);
        assert(ls@.map_values(|x: usize| x as int)[t + 1] == lsp[t + 1]);
        let (a, b) = trim_range(chars, ls[t], ls[t + 1]);
        assert(line_text(s, lsp, t as int) == chars@.subrange(ls@[t as int] as int, ls@[t + 1] as int));
        assert(starts_with(trim(line_text(s, lsp, t as int)), "///"@));
        proof {
            reveal_strlit("///");
            assert(b - a >= 3);
        }
        let (c, d) = trim_range(chars, a + 3, b);
        proof {
            let tl = trim(line_text(s, lsp, t as int));
            assert(tl == chars@.subrange(a as int, b as int));
            assert(tl.skip(3) == chars@.subrange(a + 3, b as int));
            lemma_join_push(doc_run(s, lsp, t as int), trim(tl.skip(3)), " "@);
            assert(doc_run(s, lsp, t + 1) == doc_run(s, lsp, t as int).push(trim(tl.skip(3))));
            if t == k {
                assert(doc_run(s, lsp, t as int).len() == 0);
            } else {
                assert(doc_run(s, lsp, t as int).len() > 0);
            }
        }
        if t > k {
            let sp = chars_of(" ");
            extend_all(&mut acc, &sp);
        }
        extend_range(&mut acc, chars, c, d);
        t = t + 1;
    }
    Some(string_from_chars(&acc))
}


/// An item found under a matching `#[derive(...)]` attribute.
pub struct AnnotatedBlock {
    pub name: String,
    /// The item's own `///` doc comment, if any.
    pub doc: Option<String>,
    pub body: String,
}

impl AnnotatedBlock {
    pub open spec fn view(&self) -> (Seq<char>, Option<Seq<char>>, Seq<char>) {
        (self.name@, opt_chars(self.doc), self.body@)
    }
}

/// The attribute line mentions one of the markers.
pub open spec fn derive_marked(line: Seq<char>, markers: Seq<Seq<char>>) -> bool {
    exists|m: int| 0 <= m < markers.len() && contains(line, #[trigger] markers[m])
}

/// The text after `pub <kw> ` or `<kw> ` at the start of a trimmed line.
pub open spec fn item_rest(t: Seq<char>, kw: Seq<char>) -> Option<Seq<char>> {
    let pp = "pub "@ + kw + " "@;
    let p = kw + " "@;
    if starts_with(t, pp) {
        Some(t.skip(pp.len() as int))
    } else if starts_with(t, p) {
        Some(t.skip(p.len() as int))
    } else {
        None
    }
}

/// Looking at lines `lj` up to `li + 10` (passing blank, comment and
/// attribute lines) for `<kw> Name` or `pub <kw> Name`: the name and the
/// start of its line.
pub open spec fn item_after(s: Seq<char>, ls: Seq<int>, kw: Seq<char>, li: int, lj: int) -> Option<
    (Seq<char>, int),
>
    decreases li + 11 - lj,
{
    if lj < 0 || lj >= ls.len() || lj >= li + 11 {
        None
    } else {
        let t = trim(line_text(s, ls, lj));
        if passable(t) {
            item_after(s, ls, kw, li, lj + 1)
        } else {
            match item_rest(t, kw) {
                Some(r) => if ident_prefix(r).len() > 0 {
                    Some((ident_prefix(r), ls[lj]))
                } else {
                    None
                },
                None => None,
            }
        }
    }
}

/// The block whose derive attribute sits on line `li`, if any: its name,
/// doc comment, and the text strictly inside its braces.
pub open spec fn block_at(
    s: Seq<char>,
    ls: Seq<int>,
    kw: Seq<char>,
    markers: Seq<Seq<char>>,
    li: int,
) -> Option<(Seq<char>, Option<Seq<char>>, Seq<char>)> {
    let line = line_text(s, ls, li);
    if contains(line, "derive("@) && derive_marked(line, markers) {
        match item_after(s, ls, kw, li, li + 1) {
            Some(found) => match first_from(s, found.1, '{') {
                Some(o) => match matching_brace(s, o) {
                    Some(c) => Some((found.0, item_doc(s, ls, li), s.subrange(o + 1, c))),
                    None => None,
                },
                None => None,
            },
            None => None,
        }
    } else {
        None
    }
}

pub open spec fn blocks_from(
    s: Seq<char>,
    ls: Seq<int>,
    kw: Seq<char>,
    markers: Seq<Seq<char>>,
    li: int,
) -> Seq<(Seq<char>, Option<Seq<char>>, Seq<char>)>
    decreases ls.len() - li,
{
    if li < 0 || li >= ls.len() {
        seq![]
    } else {
        (match block_at(s, ls, kw, markers, li) {
            Some(b) => seq![b],
            None => seq![],
        }) + blocks_from(s, ls, kw, markers, li + 1)
    }
}

/// All blocks of `content` annotated with a matching derive, in source order.
pub open spec fn annotated_blocks(s: Seq<char>, kw: Seq<char>, markers: Seq<Seq<char>>) -> Seq<
    (Seq<char>, Option<Seq<char>>, Seq<char>),
> {
    blocks_from(s, line_starts(s), kw, markers, 0)
}

fn item_after_exec(chars: &[char], ls: &Vec<usize>, pub_prefix: &Vec<char>, prefix: &Vec<char>, kw: Ghost<Seq<char>>, li: usize) -> (r: Option<(Vec<char>, usize)>)
    requires
        ls@.map_values(|x: usize| x as int) == line_starts(chars@),
        line_starts_ok(chars@, line_starts(chars@)),
        li < ls@.len(),
        pub_prefix@ == "pub "@ + kw@ + " "@,
        prefix@ == kw@ + " "@,
    ensures
        r matches Some(f) ==> item_after(chars@, line_starts(chars@), kw@, li as int, li + 1) == Some(
            (f.0@, f.1 as int),
        ) && f.1 <= chars@.len(),
        r is None ==> item_after(chars@, line_starts(chars@), kw@, li as int, li + 1) is None,
{
    let ghost s = chars@;
    let ghost lsp = line_starts(s);
    let slashes = chars_of("//");
    let hash = chars_of("#");
    let nl = ls.len();
    let mut lj = li + 1;
    while lj < nl && lj - li < 11
        invariant
            li < lj <= nl,
            nl == ls@.len(),
            nl == lsp.len(),
            lsp == line_starts(s),
            s == chars@,
            ls@.map_values(|x: usize| x as int) == lsp,
            line_starts_ok(s, lsp),
            lj - li <= 11,
            slashes@ == "//"@,
            hash@ == "#"@,
            pub_prefix@ == "pub "@ + kw@ + " "@,
            prefix@ == kw@ + " "@,
            item_after(s, lsp, kw@, li as int, li + 1) == item_after(s, lsp, kw@, li as int, lj as int),
        decreases nl - lj,
    {
        assert(ls@.map_values(|x: usize| x as int)[lj as int] == lsp[lj as int]);
        let start = ls[lj];
        let end = if lj + 1 < nl {
            assert(ls@.map_values(|x: usize| x as int)[lj + 1] == lsp[lj + 1]);
            ls[lj + 1]
        } else {
            chars.len()
        };
        let (a, b) = trim_range(chars, start, end);
        assert(line_text(s, lsp, lj as int) == chars@.subrange(start as int, end as int));
        if a == b || range_starts_with(chars, a, b, &slashes) || range_starts_with(chars, a, b, &hash) {
            lj = lj + 1;
        } else {
            let ghost t = chars@.subrange(a as int, b as int);
            assert(t == trim(line_text(s, lsp, lj as int)));
            assert(!passable(t));
            let is_pub = range_starts_with(chars, a, b, pub_prefix.as_slice());
            let is_plain = range_starts_with(chars, a, b, prefix.as_slice());
            assert(is_pub == starts_with(t, pub_prefix@));
            let rest_start = if is_pub {
                assert(chars@.subrange(a + pub_prefix@.len(), b as int) =~= t.skip(pub_prefix@.len() as int));
                a + pub_prefix.len()
            } else if is_plain {
                assert(chars@.subrange(a + prefix@.len(), b as int) =~= t.skip(prefix@.len() as int));
                a + prefix.len()
            } else {
                let ghost pp = "pub "@ + kw@ + " "@;
                assert(!starts_with(t, pp));
                assert(!starts_with(t, kw@ + " "@));
                assert(item_rest(t, kw@) is None);
                return None;
            };
            assert(chars@.subrange(rest_start as int, b as int) == item_rest(t, kw@)->0);
            let e = ident_end(chars, rest_start, b);
            if e > rest_start {
                let mut name: Vec<char> = Vec::new();
                extend_range(&mut name, chars, rest_start, e);
                assert(name@ == chars@.subrange(rest_start as int, e as int));
                return Some((name, start));
            }
            return None;
        }
    }
    None
}

/// Scan `content` line by line for a `#[derive(...)]` attribute line that
/// mentions one of `derive_markers`, then look up to 10 lines ahead
/// (skipping blank/comment/attribute lines) for the `<keyword> Name {` it
/// applies to (`keyword` is `"enum"` or `"struct"`), and extract the
/// balanced-brace body.
pub fn find_annotated_blocks(content: &str, keyword: &str, derive_markers: &[&str]) -> (r: Vec<
    AnnotatedBlock,
>)
    ensures
        r@.len() == annotated_blocks(content@, keyword@, derive_markers@.map_values(|m: &str| m@)).len(),
        forall|k: int|
            0 <= k < r@.len() ==> #[trigger] r@[k].view() == annotated_blocks(
                content@,
                keyword@,
                derive_markers@.map_values(|m: &str| m@),
            )[k],
{
    let chars = chars_of(content);
    let ghost s = chars@;
    let ghost kw = keyword@;
    let ghost markers = derive_markers@.map_values(|m: &str| m@);
    let ls = line_starts_of(&chars);
    let ghost lsp = line_starts(s);
    let nl = ls.len();
    let derive_pat = chars_of("derive(");
    let kw_chars = chars_of(keyword);
    let mut prefix: Vec<char> = Vec::new();
    extend_all(&mut prefix, &kw_chars);
    let sp = chars_of(" ");
    extend_all(&mut prefix, &sp);
    let mut pub_prefix: Vec<char> = chars_of("pub ");
    extend_all(&mut pub_prefix, &prefix);
    assert(pub_prefix@ == "pub "@ + kw + " "@);
    let mut marker_chars: Vec<Vec<char>> = Vec::new();
    let mut m: usize = 0;
    while m < derive_markers.len()
        invariant
            m <= derive_markers@.len(),
            markers == derive_markers@.map_values(|m: &str| m@),
            marker_chars@.len() == m,
            forall|t: int| 0 <= t < m ==> #[trigger] marker_chars@[t]@ == markers[t],
        decreases derive_markers@.len() - m,
    {
        marker_chars.push(chars_of(derive_markers[m]));
        m = m + 1;
    }
    let mut result: Vec<AnnotatedBlock> = Vec::new();
    let mut li: usize = 0;
    while li < nl
        invariant
            li <= nl,
            nl == ls@.len(),
            nl == lsp.len(),
            lsp == line_starts(s),
            s == chars@,
            s == content@,
            kw == keyword@,
            ls@.map_values(|x: usize| x as int) == lsp,
            line_starts_ok(s, lsp),
            derive_pat@ == "derive("@,
            pub_prefix@ == "pub "@ + kw + " "@,
            prefix@ == kw + " "@,
            markers == derive_markers@.map_values(|m: &str| m@),
            marker_chars@.len() == markers.len(),
            forall|t: int| 0 <= t < markers.len() ==> #[trigger] marker_chars@[t]@ == markers[t],
            annotated_blocks(s, kw, markers) == result@.map_values(|b: AnnotatedBlock| b.view())
                + blocks_from(s, lsp, kw, markers, li as int),
        decreases nl - li,
    {
        assert(ls@.map_values(|x: usize| x as int)[li as int] == lsp[li as int]);
        let start = ls[li];
        let end = if li + 1 < nl {
            assert(ls@.map_values(|x: usize| x as int)[li + 1] == lsp[li + 1]);
            ls[li + 1]
        } else {
            chars.len()
        };
        assert(line_text(s, lsp, li as int) == chars@.subrange(start as int, end as int));
        let ghost line = chars@.subrange(start as int, end as int);
        let ghost before = result@.map_values(|b: AnnotatedBlock| b.view());
        let mut marked = false;
        if range_contains(&chars, start, end, &derive_pat) {
            let mut t: usize = 0;
            while t < marker_chars.len()
                invariant
                    t <= marker_chars@.len(),
                    marker_chars@.len() == markers.len(),
                    start <= end <= chars@.len(),
                    line == chars@.subrange(start as int, end as int),
                    forall|u: int| 0 <= u < markers.len() ==> #[trigger] marker_chars@[u]@ == markers[u],
                    marked == exists|u: int| 0 <= u < t && contains(line, #[trigger] markers[u]),
                decreases marker_chars@.len() - t,
            {
                if range_contains(&chars, start, end, &marker_chars[t]) {
                    marked = true;
                }
                t = t + 1;
            }
        }
        let mut pushed = false;
        if marked {
            if let Some((name, from)) = item_after_exec(&chars, &ls, &pub_prefix, &prefix, Ghost(kw), li) {
                if let Some(o) = find_char_from(&chars, from, '{') {
                    if let Some(c) = find_matching_brace(&chars, o) {
                        let doc = item_doc_comment(&chars, &ls, li);
                        let body = string_from_range(&chars, o + 1, c);
                        let name_s = string_from_chars(&name);
                        let block = AnnotatedBlock { name: name_s, doc, body };
                        assert(block_at(s, lsp, kw, markers, li as int) == Some(block.view()));
                        result.push(block);
                        pushed = true;
                    }
                }
            }
        }
        proof {
            if pushed {
                assert(result@.map_values(|b: AnnotatedBlock| b.view()) == before.push(
                    block_at(s, lsp, kw, markers, li as int)->0,
                ));
            } else {
                assert(block_at(s, lsp, kw, markers, li as int) is None);
                assert(result@.map_values(|b: AnnotatedBlock| b.view()) == before);
            }
        }
        li = li + 1;
    }
    result
}


/// The text strictly between the `{` at `open_idx` and its matching `}`
/// (`find_matching_brace`).
pub fn extract_balanced_block(chars: &[char], open_idx: usize) -> (r: Option<String>)
    ensures
        opt_chars(r) == match matching_brace(chars@, open_idx as int) {
            Some(c) => Some(chars@.subrange(open_idx + 1, c)),
            None => None,
        },
{
    match find_matching_brace(chars, open_idx) {
        Some(c) => Some(string_from_range(chars, open_idx + 1, c)),
        None => None,
    }
}

/// Walking the lines of a chunk from line `k`, with the doc lines `docs`
/// gathered so far: the doc lines and the identifier of the first line
/// that is neither blank, a comment, nor an attribute.
pub open spec fn doc_and_ident_from(s: Seq<char>, ls: Seq<int>, k: int, docs: Seq<Seq<char>>) -> (
    Seq<Seq<char>>,
    Option<Seq<char>>,
)
    decreases ls.len() - k,
{
    if k < 0 || k >= ls.len() {
        (docs, None)
    } else {
        let t = trim(line_text(s, ls, k));
        if t.len() == 0 {
            doc_and_ident_from(s, ls, k + 1, docs)
        } else if starts_with(t, "///"@) {
            doc_and_ident_from(s, ls, k + 1, docs.push(trim(t.skip(3))))
        } else if starts_with(t, "//"@) || starts_with(t, "#"@) {
            doc_and_ident_from(s, ls, k + 1, docs)
        } else {
            (
                docs,
                if ident_prefix(t).len() > 0 {
                    Some(ident_prefix(t))
                } else {
                    None
                },
            )
        }
    }
}

/// The leading doc comment (its lines joined by spaces) and identifier of a chunk.
pub open spec fn doc_and_ident(s: Seq<char>) -> (Option<Seq<char>>, Option<Seq<char>>) {
    let r = doc_and_ident_from(s, line_starts(s), 0, seq![]);
    (
        if r.0.len() == 0 {
            None
        } else {
            Some(join(r.0, " "@))
        },
        r.1,
    )
}

/// Pull a leading run of `///` doc-comment lines and the following bare
/// identifier (stopping at the first non-alphanumeric/underscore char) out
/// of a chunk produced by [`split_top_level`], skipping blank lines,
/// plain `//` comments, and `#[...]` attribute lines in between.
pub fn leading_doc_and_identifier(chunk: &str) -> (r: (Option<String>, Option<String>))
    ensures
        opt_chars(r.0) == doc_and_ident(chunk@).0,
        opt_chars(r.1) == doc_and_ident(chunk@).1,
{
    let chars = chars_of(chunk);
    let ghost s = chars@;
    let ls = line_starts_of(&chars);
    let ghost lsp = line_starts(s);
    let nl = ls.len();
    let triple = chars_of("///");
    let slashes = chars_of("//");
    let hash = chars_of("#");
    let mut acc: Vec<char> = Vec::new();
    let mut ndocs: usize = 0;
    let ghost mut docs: Seq<Seq<char>> = seq![];
    let mut k: usize = 0;
    while k < nl
        invariant
            k <= nl,
            nl == ls@.len(),
            nl == lsp.len(),
            lsp == line_starts(s),
            s == chars@,
            s == chunk@,
            ls@.map_values(|x: usize| x as int) == lsp,
            line_starts_ok(s, lsp),
            triple@ == "///"@,
            slashes@ == "//"@,
            hash@ == "#"@,
            ndocs == docs.len(),
            ndocs <= k,
            acc@ == join(docs, " "@),
            doc_and_ident_from(s, lsp, 0, seq![]) == doc_and_ident_from(s, lsp, k as int, docs),
        decreases nl - k,
    {
        assert(ls@.map_values(|x: usize| x as int)[k as int] == lsp[k as int]);
        let start = ls[k];
        let end = if k + 1 < nl {
            assert(ls@.map_values(|x: usize| x as int)[k + 1] == lsp[k + 1]);
            ls[k + 1]
        } else {
            chars.len()
        };
        assert(line_text(s, lsp, k as int) == chars@.subrange(start as int, end as int));
        let (a, b) = trim_range(&chars, start, end);
        let ghost t = chars@.subrange(a as int, b as int);
        if a == b {
            k = k + 1;
        } else if range_starts_with(&chars, a, b, &triple) {
            proof {
                reveal_strlit("///");
                assert(t.skip(3) == chars@.subrange(a + 3, b as int));
            }
            let (c, d) = trim_range(&chars, a + 3, b);
            proof {
                lemma_join_push(docs, trim(t.skip(3)), " "@);
            }
            if ndocs > 0 {
                let sp = chars_of(" ");
                extend_all(&mut acc, &sp);
            }
            extend_range(&mut acc, &chars, c, d);
            proof {
                docs = docs.push(trim(t.skip(3)));
            }
            ndocs = ndocs + 1;
            k = k + 1;
        } else if range_starts_with(&chars, a, b, &slashes) || range_starts_with(&chars, a, b, &hash) {
            k = k + 1;
        } else {
            let e = ident_end(&chars, a, b);
            let ident = if e > a {
                Some(string_from_range(&chars, a, e))
            } else {
                None
            };
            let doc = if ndocs == 0 {
                None
            } else {
                Some(string_from_chars(&acc))
            };
            return (doc, ident);
        }
    }
    let doc = if ndocs == 0 {
        None
    } else {
        Some(string_from_chars(&acc))
    };
    (doc, None)
}

/// The text as `strip_test_modules` leaves it.
pub open spec fn stripped(s: Seq<char>) -> Seq<char> {
    Seq::new(
        s.len(),
        |k: int|
            if in_test_block(s, k) && s[k] != '\n' {
                ' '
            } else {
                s[k]
            },
    )
}

/// Whether a raw string closing at the end of `body` claims `#`s it lacks
/// (where `split_top_level` would read past the end of the text).
pub fn has_raw_overrun(body: &str) -> (r: bool)
    ensures
        r == raw_overrun(body@),
{
    let chars = chars_of(body);
    let ghost s = chars@;
    let len = chars.len();
    let mut mode = LexMode::Code;
    let mut i: usize = 0;
    while i < len
        invariant
            len == s.len(),
            s == chars@,
            s == body@,
            i <= len,
            mode_ok(s, mode),
            raw_overrun(s) == raw_overrun_from(s, i as int, mode),
        decreases len - i,
    {
        let (next, m2, _, over) = lex_step_exec(&chars, i, mode);
        if over {
            return true;
        }
        i = next;
        mode = m2;
    }
    false
}

/// Every block body can be split at top-level commas without reading past
/// its end, and is small enough for the depth counter.
pub open spec fn bodies_splittable(blocks: Seq<(Seq<char>, Option<Seq<char>>, Seq<char>)>) -> bool {
    forall|k: int|
        0 <= k < blocks.len() ==> !raw_overrun(#[trigger] blocks[k].2) && blocks[k].2.len() < i64::MAX
}

/// Whether every block of `content` annotated with one of `markers`, once
/// test modules are stripped, can be split.
pub open spec fn source_splittable(content: Seq<char>, kw: Seq<char>, markers: Seq<Seq<char>>) -> bool {
    bodies_splittable(annotated_blocks(stripped(content), kw, markers))
}

/// Checks `source_splittable` for one source file.
pub fn source_is_splittable(content: &str, keyword: &str, derive_markers: &[&str]) -> (r: bool)
    ensures
        r == source_splittable(content@, keyword@, derive_markers@.map_values(|m: &str| m@)),
{
    let clean = strip_test_modules(content);
    assert(clean@ =~= stripped(content@));
    let blocks = find_annotated_blocks(clean.as_str(), keyword, derive_markers);
    let ghost bs = annotated_blocks(clean@, keyword@, derive_markers@.map_values(|m: &str| m@));
    let mut k: usize = 0;
    while k < blocks.len()
        invariant
            k <= blocks@.len(),
            bs == annotated_blocks(stripped(content@), keyword@, derive_markers@.map_values(|m: &str| m@)),
            blocks@.len() == bs.len(),
            forall|t: int| 0 <= t < blocks@.len() ==> #[trigger] blocks@[t].view() == bs[t],
            forall|t: int| 0 <= t < k ==> !raw_overrun(#[trigger] bs[t].2) && bs[t].2.len() < i64::MAX,
        decreases blocks@.len() - k,
    {
        assert(blocks@[k as int].view() == bs[k as int]);
        let body = blocks[k].body.as_str();
        assert(body@ == bs[k as int].2);
        if has_raw_overrun(body) {
            assert(!bodies_splittable(bs));
            return false;
        }
        let n = chars_of(body).len();
        if n as u64 >= 0x7fff_ffff_ffff_ffffu64 {
            assert(!bodies_splittable(bs));
            return false;
        }
        k = k + 1;
    }
    true
}

} // verus!
