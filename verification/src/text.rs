//! Character and string primitives shared by every scanner in the crate.

use vstd::prelude::*;

verus! {

/// Unicode `White_Space`, the property that `char::is_whitespace` and `str::trim` use.
pub open spec fn is_ws(c: char) -> bool {
    ||| ('\u{9}' <= c && c <= '\u{d}')
    ||| c == ' '
    ||| c == '\u{85}'
    ||| c == '\u{a0}'
    ||| c == '\u{1680}'
    ||| ('\u{2000}' <= c && c <= '\u{200a}')
    ||| c == '\u{2028}'
    ||| c == '\u{2029}'
    ||| c == '\u{202f}'
    ||| c == '\u{205f}'
    ||| c == '\u{3000}'
}

pub fn is_whitespace(c: char) -> (r: bool)
    ensures
        r == is_ws(c),
{
    ('\u{9}' <= c && c <= '\u{d}') || c == ' ' || c == '\u{85}' || c == '\u{a0}' || c == '\u{1680}'
        || ('\u{2000}' <= c && c <= '\u{200a}') || c == '\u{2028}' || c == '\u{2029}'
        || c == '\u{202f}' || c == '\u{205f}' || c == '\u{3000}'
}

/// The characters of `s`, in order.
pub fn chars_of(s: &str) -> (v: Vec<char>)
    ensures
        v@ == s@,
{
    let mut v: Vec<char> = Vec::new();
    for c in it: s.chars()
        invariant
            v@ == it.seq().take(it.index() as int),
    {
        v.push(c);
    }
    v
}

} // verus!

verus! {

/// Appends one character (`String::push`).
#[verifier::external_body]
pub(crate) fn push_char(s: &mut String, c: char)
    ensures
        final(s)@ == old(s)@.push(c),
{
    s.push(c);
}

/// The string made of `chars[a..b]`.
pub fn string_from_range(chars: &[char], a: usize, b: usize) -> (r: String)
    requires
        a <= b <= chars@.len(),
    ensures
        r@ == chars@.subrange(a as int, b as int),
{
    let mut r = String::new();
    let mut k = a;
    while k < b
        invariant
            a <= k <= b,
            b <= chars@.len(),
            r@ == chars@.subrange(a as int, k as int),
        decreases b - k,
    {
        push_char(&mut r, chars[k]);
        assert(chars@.subrange(a as int, k + 1) == chars@.subrange(a as int, k as int).push(chars@[k as int]));
        k = k + 1;
    }
    r
}

/// The string made of all of `chars`.
pub fn string_from_chars(chars: &[char]) -> (r: String)
    ensures
        r@ == chars@,
{
    let r = string_from_range(chars, 0, chars.len());
    assert(chars@.subrange(0, chars@.len() as int) == chars@);
    r
}

/// Every character is whitespace (so `trim()` would leave nothing).
pub open spec fn is_blank(x: Seq<char>) -> bool {
    forall|k: int| 0 <= k < x.len() ==> is_ws(#[trigger] x[k])
}

/// `chars[a..b]` is blank.
pub fn range_is_blank(chars: &[char], a: usize, b: usize) -> (r: bool)
    requires
        a <= b <= chars@.len(),
    ensures
        r == is_blank(chars@.subrange(a as int, b as int)),
{
    let mut k = a;
    while k < b
        invariant
            a <= k <= b,
            b <= chars@.len(),
            is_blank(chars@.subrange(a as int, k as int)),
        decreases b - k,
    {
        if !is_whitespace(chars[k]) {
            assert(chars@.subrange(a as int, b as int)[k - a] == chars@[k as int]);
            return false;
        }
        assert forall|t: int| 0 <= t < k + 1 - a implies is_ws(#[trigger] chars@.subrange(a as int, k + 1)[t]) by {
            if t < k - a {
                assert(chars@.subrange(a as int, k + 1)[t] == chars@.subrange(a as int, k as int)[t]);
            }
        }
        k = k + 1;
    }
    true
}

} // verus!

verus! {

/// `x` with leading whitespace removed (`str::trim_start`).
pub open spec fn trim_start(x: Seq<char>) -> Seq<char>
    decreases x.len(),
{
    if x.len() > 0 && is_ws(x[0]) {
        trim_start(x.drop_first())
    } else {
        x
    }
}

/// `x` with trailing whitespace removed (`str::trim_end`).
pub open spec fn trim_end(x: Seq<char>) -> Seq<char>
    decreases x.len(),
{
    if x.len() > 0 && is_ws(x.last()) {
        trim_end(x.drop_last())
    } else {
        x
    }
}

/// `str::trim`.
pub open spec fn trim(x: Seq<char>) -> Seq<char> {
    trim_end(trim_start(x))
}

/// `str::starts_with` for a string pattern.
pub open spec fn starts_with(x: Seq<char>, p: Seq<char>) -> bool {
    p.len() <= x.len() && x.subrange(0, p.len() as int) == p
}

/// `str::ends_with` for a string pattern.
pub open spec fn ends_with(x: Seq<char>, p: Seq<char>) -> bool {
    p.len() <= x.len() && x.subrange(x.len() - p.len(), x.len() as int) == p
}

/// `p` occurs in `x` starting at `k`.
pub open spec fn occurs_at(x: Seq<char>, p: Seq<char>, k: int) -> bool {
    0 <= k && k + p.len() <= x.len() && x.subrange(k, k + p.len()) == p
}

/// `str::contains` for a string pattern.
pub open spec fn contains(x: Seq<char>, p: Seq<char>) -> bool {
    exists|k: int| occurs_at(x, p, k)
}

/// The trimmed range of `chars[a..b]`.
pub fn trim_range(chars: &[char], a: usize, b: usize) -> (r: (usize, usize))
    requires
        a <= b <= chars@.len(),
    ensures
        a <= r.0 <= r.1 <= b,
        chars@.subrange(r.0 as int, r.1 as int) == trim(chars@.subrange(a as int, b as int)),
{
    let mut lo = a;
    while lo < b && is_whitespace(chars[lo])
        invariant
            a <= lo <= b,
            b <= chars@.len(),
            trim_start(chars@.subrange(a as int, b as int)) == trim_start(chars@.subrange(lo as int, b as int)),
        decreases b - lo,
    {
        assert(chars@.subrange(lo as int, b as int).drop_first() == chars@.subrange(lo + 1, b as int));
        lo = lo + 1;
    }
    assert(trim_start(chars@.subrange(lo as int, b as int)) == chars@.subrange(lo as int, b as int));
    let mut hi = b;
    while hi > lo && is_whitespace(chars[hi - 1])
        invariant
            lo <= hi <= b,
            b <= chars@.len(),
            trim_end(chars@.subrange(lo as int, b as int)) == trim_end(chars@.subrange(lo as int, hi as int)),
        decreases hi - lo,
    {
        assert(chars@.subrange(lo as int, hi as int).drop_last() == chars@.subrange(lo as int, hi - 1));
        hi = hi - 1;
    }
    assert(trim_end(chars@.subrange(lo as int, hi as int)) == chars@.subrange(lo as int, hi as int));
    (lo, hi)
}

/// `chars[a..b]` starts with `p`.
pub fn range_starts_with(chars: &[char], a: usize, b: usize, p: &[char]) -> (r: bool)
    requires
        a <= b <= chars@.len(),
    ensures
        r == starts_with(chars@.subrange(a as int, b as int), p@),
{
    if p.len() > b - a {
        return false;
    }
    let mut k: usize = 0;
    while k < p.len()
        invariant
            k <= p@.len() <= b - a,
            b <= chars@.len(),
            forall|t: int| 0 <= t < k ==> chars@[a + t] == p@[t],
        decreases p@.len() - k,
    {
        if chars[a + k] != p[k] {
            assert(chars@.subrange(a as int, b as int).subrange(0, p@.len() as int)[k as int] != p@[k as int]);
            return false;
        }
        k = k + 1;
    }
    assert(chars@.subrange(a as int, b as int).subrange(0, p@.len() as int) =~= p@);
    true
}

/// `chars[a..b]` ends with `p`.
pub fn range_ends_with(chars: &[char], a: usize, b: usize, p: &[char]) -> (r: bool)
    requires
        a <= b <= chars@.len(),
    ensures
        r == ends_with(chars@.subrange(a as int, b as int), p@),
{
    if p.len() > b - a {
        return false;
    }
    let off = b - p.len();
    let mut k: usize = 0;
    while k < p.len()
        invariant
            k <= p@.len() <= b - a,
            off == b - p@.len(),
            b <= chars@.len(),
            forall|t: int| 0 <= t < k ==> chars@[off + t] == p@[t],
        decreases p@.len() - k,
    {
        if chars[off + k] != p[k] {
            let ghost x = chars@.subrange(a as int, b as int);
            assert(x.subrange(x.len() - p@.len(), x.len() as int)[k as int] != p@[k as int]);
            return false;
        }
        k = k + 1;
    }
    let ghost x = chars@.subrange(a as int, b as int);
    assert(x.subrange(x.len() - p@.len(), x.len() as int) =~= p@);
    true
}

/// `chars[a..b]` contains `p`.
pub fn range_contains(chars: &[char], a: usize, b: usize, p: &[char]) -> (r: bool)
    requires
        a <= b <= chars@.len(),
    ensures
        r == contains(chars@.subrange(a as int, b as int), p@),
{
    let ghost x = chars@.subrange(a as int, b as int);
    if p.len() > b - a {
        assert forall|k: int| !occurs_at(x, p@, k) by {}
        return false;
    }
    if p.len() == 0 {
        assert(x.subrange(0, 0) =~= p@);
        assert(occurs_at(x, p@, 0));
        return true;
    }
    let mut k = a;
    while k <= b - p.len()
        invariant
            a <= k <= b - p@.len() + 1,
            1 <= p@.len() <= b - a,
            b <= chars@.len(),
            x == chars@.subrange(a as int, b as int),
            forall|t: int| 0 <= t < k - a ==> !occurs_at(x, p@, t),
        decreases b - p@.len() + 1 - k,
    {
        if range_starts_with(chars, k, b, p) {
            assert(chars@.subrange(k as int, b as int).subrange(0, p@.len() as int) =~= x.subrange(
                k - a,
                k - a + p@.len(),
            ));
            assert(occurs_at(x, p@, k - a));
            return true;
        }
        assert(chars@.subrange(k as int, b as int).subrange(0, p@.len() as int) =~= x.subrange(
            k - a,
            k - a + p@.len(),
        ));
        k = k + 1;
    }
    assert forall|t: int| !occurs_at(x, p@, t) by {
        if 0 <= t < k - a {
        }
    }
    false
}

} // verus!

verus! {

/// What `char::is_alphanumeric` answers (Unicode `Alphabetic` or `Numeric`).
pub uninterp spec fn unicode_alphanumeric(c: char) -> bool;

/// `char::is_alphanumeric`: among ASCII characters, exactly the letters
/// and digits.
#[verifier::external_body]
pub(crate) fn is_alphanumeric(c: char) -> (r: bool)
    ensures
        r == unicode_alphanumeric(c),
        (c as u32) < 128 ==> (r <==> ('a' <= c && c <= 'z') || ('A' <= c && c <= 'Z') || ('0' <= c && c <= '9')),
{
    c.is_alphanumeric()
}

/// A character that may continue an identifier here: alphanumeric or `_`.
pub open spec fn is_ident_char(c: char) -> bool {
    unicode_alphanumeric(c) || c == '_'
}

/// Length of the longest prefix of `x` made of identifier characters.
pub open spec fn ident_len(x: Seq<char>) -> nat
    decreases x.len(),
{
    if x.len() > 0 && is_ident_char(x[0]) {
        1 + ident_len(x.drop_first())
    } else {
        0
    }
}

/// `x.chars().take_while(|c| c.is_alphanumeric() || *c == '_')`.
pub open spec fn ident_prefix(x: Seq<char>) -> Seq<char> {
    x.subrange(0, ident_len(x) as int)
}

proof fn lemma_ident_len_bound(x: Seq<char>)
    ensures
        ident_len(x) <= x.len(),
    decreases x.len(),
{
    if x.len() > 0 && is_ident_char(x[0]) {
        lemma_ident_len_bound(x.drop_first());
    }
}

/// End of the identifier prefix of `chars[a..b]`.
pub fn ident_end(chars: &[char], a: usize, b: usize) -> (e: usize)
    requires
        a <= b <= chars@.len(),
    ensures
        a <= e <= b,
        e - a == ident_len(chars@.subrange(a as int, b as int)),
        chars@.subrange(a as int, e as int) == ident_prefix(chars@.subrange(a as int, b as int)),
{
    let mut e = a;
    while e < b && (is_alphanumeric(chars[e]) || chars[e] == '_')
        invariant
            a <= e <= b <= chars@.len(),
            ident_len(chars@.subrange(a as int, b as int)) == (e - a) + ident_len(chars@.subrange(e as int, b as int)),
        decreases b - e,
    {
        assert(chars@.subrange(e as int, b as int).drop_first() == chars@.subrange(e + 1, b as int));
        e = e + 1;
    }
    proof {
        lemma_ident_len_bound(chars@.subrange(a as int, b as int));
    }
    e
}

/// The elements of `xs` joined with `sep` between them (`[..].join(sep)`).
pub open spec fn join(xs: Seq<Seq<char>>, sep: Seq<char>) -> Seq<char>
    decreases xs.len(),
{
    if xs.len() == 0 {
        seq![]
    } else if xs.len() == 1 {
        xs[0]
    } else {
        join(xs.drop_last(), sep) + sep + xs.last()
    }
}

pub proof fn lemma_join_push(xs: Seq<Seq<char>>, x: Seq<char>, sep: Seq<char>)
    ensures
        join(xs.push(x), sep) == if xs.len() == 0 {
            x
        } else {
            join(xs, sep) + sep + x
        },
{
    assert(xs.push(x).drop_last() == xs);
}

/// Appends `chars[a..b]` to `v`.
pub fn extend_range(v: &mut Vec<char>, chars: &[char], a: usize, b: usize)
    requires
        a <= b <= chars@.len(),
    ensures
        final(v)@ == old(v)@ + chars@.subrange(a as int, b as int),
{
    let ghost v0 = v@;
    let mut k = a;
    while k < b
        invariant
            a <= k <= b <= chars@.len(),
            v@ == v0 + chars@.subrange(a as int, k as int),
        decreases b - k,
    {
        v.push(chars[k]);
        assert(chars@.subrange(a as int, k + 1) == chars@.subrange(a as int, k as int).push(chars@[k as int]));
        k = k + 1;
    }
}

/// Appends all of `p` to `v`.
pub fn extend_all(v: &mut Vec<char>, p: &[char])
    ensures
        final(v)@ == old(v)@ + p@,
{
    extend_range(v, p, 0, p.len());
    assert(p@.subrange(0, p@.len() as int) == p@);
}

/// The optional string's characters.
pub open spec fn opt_chars(o: Option<String>) -> Option<Seq<char>> {
    match o {
        Some(s) => Some(s@),
        None => None,
    }
}

/// Every character of `chars[a..b]` is an identifier character.
pub fn range_all_ident(chars: &[char], a: usize, b: usize) -> (r: bool)
    requires
        a <= b <= chars@.len(),
    ensures
        r == (forall|t: int| 0 <= t < b - a ==> is_ident_char(#[trigger] chars@.subrange(a as int, b as int)[t])),
{
    let mut k = a;
    while k < b
        invariant
            a <= k <= b <= chars@.len(),
            forall|t: int| a <= t < k ==> is_ident_char(#[trigger] chars@[t]),
        decreases b - k,
    {
        if !(is_alphanumeric(chars[k]) || chars[k] == '_') {
            assert(chars@.subrange(a as int, b as int)[k - a] == chars@[k as int]);
            return false;
        }
        k = k + 1;
    }
    assert forall|t: int| 0 <= t < b - a implies is_ident_char(#[trigger] chars@.subrange(a as int, b as int)[t]) by {
        assert(chars@.subrange(a as int, b as int)[t] == chars@[a + t]);
    }
    true
}

/// What `char::is_uppercase` answers (Unicode `Uppercase`).
pub uninterp spec fn unicode_uppercase(c: char) -> bool;

/// What `char::is_lowercase` answers (Unicode `Lowercase`).
pub uninterp spec fn unicode_lowercase(c: char) -> bool;

/// The characters `char::to_lowercase` yields for `c` (one or more).
pub uninterp spec fn lowercase_of(c: char) -> Seq<char>;

/// What `str::to_lowercase` yields for a string (Unicode lowercase
/// mapping, with the final-sigma rule, so not always the characters'
/// lowercase forms side by side).
pub uninterp spec fn str_lowercase(s: Seq<char>) -> Seq<char>;

/// `c` with an ASCII capital letter made small.
pub open spec fn ascii_lower(c: char) -> char {
    if 'A' <= c && c <= 'Z' {
        ((c as u32) + 32) as char
    } else {
        c
    }
}

/// `str::to_lowercase`: a string of ASCII characters has its capitals made
/// small, one for one.
#[verifier::external_body]
pub(crate) fn lowercase(s: &str) -> (r: String)
    ensures
        r@ == str_lowercase(s@),
        (forall|i: int| 0 <= i < s@.len() ==> (#[trigger] s@[i] as u32) < 128) ==> r@ == s@.map_values(
            |c: char| ascii_lower(c),
        ),
{
    s.to_lowercase()
}

/// `char::is_uppercase`: among ASCII characters, exactly `A` to `Z`.
#[verifier::external_body]
pub(crate) fn is_uppercase(c: char) -> (r: bool)
    ensures
        r == unicode_uppercase(c),
        (c as u32) < 128 ==> r == ('A' <= c && c <= 'Z'),
{
    c.is_uppercase()
}

/// `char::is_lowercase`: among ASCII characters, exactly `a` to `z`.
#[verifier::external_body]
pub(crate) fn is_lowercase(c: char) -> (r: bool)
    ensures
        r == unicode_lowercase(c),
        (c as u32) < 128 ==> r == ('a' <= c && c <= 'z'),
{
    c.is_lowercase()
}

/// `char::to_lowercase`, collected: for an ASCII character, the one
/// character `ascii_lower(c)`.
#[verifier::external_body]
pub(crate) fn to_lowercase_chars(c: char) -> (r: Vec<char>)
    ensures
        r@ == lowercase_of(c),
        (c as u32) < 128 ==> r@ == seq![ascii_lower(c)],
{
    c.to_lowercase().collect()
}

pub open spec fn is_ascii_digit(c: char) -> bool {
    '0' <= c && c <= '9'
}

pub open spec fn is_ascii_alpha(c: char) -> bool {
    ('a' <= c && c <= 'z') || ('A' <= c && c <= 'Z')
}

/// Bytes in the UTF-8 encoding of `c` (`char::len_utf8`).
pub open spec fn utf8_width(c: char) -> nat {
    if (c as u32) < 0x80 {
        1
    } else if (c as u32) < 0x800 {
        2
    } else if (c as u32) < 0x10000 {
        3
    } else {
        4
    }
}

/// Bytes in the UTF-8 encoding of `x` (`str::len`).
pub open spec fn utf8_len(x: Seq<char>) -> nat
    decreases x.len(),
{
    if x.len() == 0 {
        0
    } else {
        utf8_width(x.last()) + utf8_len(x.drop_last())
    }
}

pub fn char_utf8_width(c: char) -> (w: usize)
    ensures
        w == utf8_width(c),
{
    let u = c as u32;
    if u < 0x80 {
        1
    } else if u < 0x800 {
        2
    } else if u < 0x10000 {
        3
    } else {
        4
    }
}

pub proof fn lemma_utf8_len_drop_first(x: Seq<char>)
    requires
        x.len() > 0,
    ensures
        utf8_len(x) == utf8_width(x[0]) + utf8_len(x.drop_first()),
    decreases x.len(),
{
    if x.len() > 1 {
        lemma_utf8_len_drop_first(x.drop_last());
        assert(x.drop_last().drop_first() == x.drop_first().drop_last());
        assert(x.drop_first().last() == x.last());
        assert(x.drop_last()[0] == x[0]);
    } else {
        assert(x.last() == x[0]);
        assert(x.drop_last().len() == 0);
        assert(utf8_len(x.drop_last()) == 0);
        assert(x.drop_first().len() == 0);
        assert(utf8_len(x.drop_first()) == 0);
    }
}

/// UTF-8 length of `chars[a..b]`.
pub fn range_utf8_len(chars: &[char], a: usize, b: usize) -> (n: u128)
    requires
        a <= b <= chars@.len(),
    ensures
        n == utf8_len(chars@.subrange(a as int, b as int)),
{
    let mut total: u128 = 0;
    let mut k: usize = b;
    while k > a
        invariant
            a <= k <= b <= chars@.len(),
            total == utf8_len(chars@.subrange(k as int, b as int)),
            total <= 4 * (b - k),
        decreases k,
    {
        let w = char_utf8_width(chars[k - 1]);
        proof {
            lemma_utf8_len_drop_first(chars@.subrange(k - 1, b as int));
            assert(chars@.subrange(k - 1, b as int).drop_first() == chars@.subrange(k as int, b as int));
        }
        total = total + w as u128;
        k = k - 1;
    }
    total
}

/// The decimal digits of `n` (`n.to_string()`).
pub open spec fn decimal(n: nat) -> Seq<char>
    decreases n,
{
    if n < 10 {
        seq![digit_char(n)]
    } else {
        decimal(n / 10).push(digit_char(n % 10))
    }
}

pub open spec fn digit_char(d: nat) -> char {
    if d == 0 {
        '0'
    } else if d == 1 {
        '1'
    } else if d == 2 {
        '2'
    } else if d == 3 {
        '3'
    } else if d == 4 {
        '4'
    } else if d == 5 {
        '5'
    } else if d == 6 {
        '6'
    } else if d == 7 {
        '7'
    } else if d == 8 {
        '8'
    } else {
        '9'
    }
}

fn digit(d: u64) -> (c: char)
    requires
        d < 10,
    ensures
        c == digit_char(d as nat),
{
    if d == 0 {
        '0'
    } else if d == 1 {
        '1'
    } else if d == 2 {
        '2'
    } else if d == 3 {
        '3'
    } else if d == 4 {
        '4'
    } else if d == 5 {
        '5'
    } else if d == 6 {
        '6'
    } else if d == 7 {
        '7'
    } else if d == 8 {
        '8'
    } else {
        '9'
    }
}

/// Appends the decimal digits of `n`.
pub fn push_decimal(v: &mut Vec<char>, n: u64)
    ensures
        final(v)@ == old(v)@ + decimal(n as nat),
    decreases n,
{
    if n < 10 {
        v.push(digit(n));
    } else {
        push_decimal(v, n / 10);
        v.push(digit(n % 10));
    }
}

/// Appends the characters of `s`.
pub fn push_str_chars(v: &mut Vec<char>, s: &str)
    ensures
        final(v)@ == old(v)@ + s@,
{
    let c = chars_of(s);
    extend_all(v, &c);
}

/// `a == b` on strings.
pub fn str_eq(a: &str, b: &str) -> (r: bool)
    ensures
        r == (a@ == b@),
{
    let x = chars_of(a);
    let y = chars_of(b);
    if x.len() != y.len() {
        return false;
    }
    let mut k: usize = 0;
    while k < x.len()
        invariant
            k <= x@.len(),
            x@.len() == y@.len(),
            x@ == a@,
            y@ == b@,
            forall|t: int| 0 <= t < k ==> x@[t] == y@[t],
        decreases x@.len() - k,
    {
        if x[k] != y[k] {
            return false;
        }
        k = k + 1;
    }
    assert(x@ =~= y@);
    true
}

/// `Path::join` on Unix paths held as text: an absolute `rel` replaces
/// `base`; otherwise a `/` separates them unless `base` is empty or
/// already ends with one.
pub open spec fn path_join(base: Seq<char>, rel: Seq<char>) -> Seq<char> {
    if starts_with(rel, "/"@) {
        rel
    } else if base.len() == 0 || ends_with(base, "/"@) {
        base + rel
    } else {
        base + "/"@ + rel
    }
}

/// Joins two paths held as text.
pub fn join_path(base: &str, rel: &str) -> (r: String)
    ensures
        r@ == path_join(base@, rel@),
{
    let b = chars_of(base);
    let r = chars_of(rel);
    let slash = chars_of("/");
    let blen = b.len();
    let rlen = r.len();
    assert(b@.subrange(0, blen as int) == b@);
    assert(r@.subrange(0, rlen as int) == r@);
    if range_starts_with(&r, 0, rlen, &slash) {
        return string_from_chars(&r);
    }
    let mut out = b;
    if blen != 0 && !range_ends_with(&out, 0, blen, &slash) {
        extend_all(&mut out, &slash);
    }
    extend_all(&mut out, &r);
    string_from_chars(&out)
}

pub open spec fn strings_view(v: Seq<String>) -> Seq<Seq<char>> {
    v.map_values(|x: String| x@)
}

/// Whether `name` is one of `names`.
pub fn contains_string(names: &Vec<String>, name: &str) -> (r: bool)
    ensures
        r == strings_view(names@).contains(name@),
{
    let mut i: usize = 0;
    while i < names.len()
        invariant
            i <= names@.len(),
            forall|j: int| 0 <= j < i ==> #[trigger] names@[j]@ != name@,
        decreases names@.len() - i,
    {
        if str_eq(names[i].as_str(), name) {
            assert(strings_view(names@)[i as int] == name@);
            return true;
        }
        i = i + 1;
    }
    assert forall|j: int| 0 <= j < strings_view(names@).len() implies strings_view(names@)[j] != name@ by {
        assert(strings_view(names@)[j] == names@[j]@);
    }
    false
}

/// A copy of `s`.
pub fn copy_string(s: &String) -> (r: String)
    ensures
        r@ == s@,
{
    s.clone()
}

} // verus!
