//! A small Rust-source lexer that tells code characters apart from the
//! insides of comments, string literals, raw strings and char literals.
//! It is the shared ground under brace matching and top-level splitting.

use vstd::prelude::*;

verus! {

/// Where the scanner stands between two characters.
#[derive(PartialEq, Eq, Structural, Clone, Copy, Debug)]
pub enum LexMode {
    Code,
    LineComment,
    /// Inside `r#..#"..."#..#`, with that many `#`s.
    RawString(usize),
    Str,
    StrEscape,
    Chr,
    ChrEscape,
}

/// Number of consecutive `#` starting at `j`.
pub open spec fn hash_run(s: Seq<char>, j: int) -> nat
    decreases s.len() - j,
{
    if 0 <= j < s.len() && s[j] == '#' {
        1 + hash_run(s, j + 1)
    } else {
        0
    }
}

/// `s[i]` is `r` and starts a raw string literal: `r`, some `#`s, then `"`.
pub open spec fn raw_open(s: Seq<char>, i: int) -> bool {
    &&& s[i] == 'r'
    &&& i + 1 + hash_run(s, i + 1) < s.len()
    &&& s[i + 1 + hash_run(s, i + 1)] == '"'
}

/// The (at most) `n` characters after `i` are all `#`.
pub open spec fn raw_close(s: Seq<char>, i: int, n: int) -> bool {
    forall|k: int| 1 <= k <= n && i + k < s.len() ==> #[trigger] s[i + k] == '#'
}

/// A `'` at `i` opens a char literal rather than a lifetime.
pub open spec fn char_lit(s: Seq<char>, i: int) -> bool {
    if i + 1 < s.len() && s[i + 1] == '\\' {
        ||| (i + 2 < s.len() && s[i + 2] == '\'')
        ||| (i + 3 < s.len() && s[i + 3] == '\'')
        ||| (i + 4 < s.len() && s[i + 4] == '\'')
    } else {
        i + 2 < s.len() && s[i + 2] == '\''
    }
}

/// One step of the scanner at position `i` in mode `m`: the next position,
/// the next mode, and whether `s[i]` was read as an ordinary code character.
pub open spec fn lex_step(s: Seq<char>, i: int, m: LexMode) -> (int, LexMode, bool) {
    let c = s[i];
    match m {
        LexMode::LineComment => (
            i + 1,
            if c == '\n' {
                LexMode::Code
            } else {
                LexMode::LineComment
            },
            false,
        ),
        LexMode::RawString(n) => if c == '"' && raw_close(s, i, n as int) {
            (i + 1 + n, LexMode::Code, false)
        } else {
            (i + 1, m, false)
        },
        LexMode::StrEscape => (i + 1, LexMode::Str, false),
        LexMode::ChrEscape => (i + 1, LexMode::Chr, false),
        LexMode::Str => (
            i + 1,
            if c == '\\' {
                LexMode::StrEscape
            } else if c == '"' {
                LexMode::Code
            } else {
                LexMode::Str
            },
            false,
        ),
        LexMode::Chr => (
            i + 1,
            if c == '\\' {
                LexMode::ChrEscape
            } else if c == '\'' {
                LexMode::Code
            } else {
                LexMode::Chr
            },
            false,
        ),
        LexMode::Code => if c == '/' && i + 1 < s.len() && s[i + 1] == '/' {
            (i + 2, LexMode::LineComment, false)
        } else if raw_open(s, i) {
            (i + 2 + hash_run(s, i + 1), LexMode::RawString(hash_run(s, i + 1) as usize), false)
        } else if c == '\'' {
            (
                i + 1,
                if char_lit(s, i) {
                    LexMode::Chr
                } else {
                    LexMode::Code
                },
                false,
            )
        } else if c == '"' {
            (i + 1, LexMode::Str, false)
        } else {
            (i + 1, LexMode::Code, true)
        },
    }
}

/// The scanner's next position, never past the end of the text (a raw
/// string closed right at the end may claim `#`s that are not there).
pub open spec fn capped_next(s: Seq<char>, i: int, m: LexMode) -> int {
    let n = lex_step(s, i, m).0;
    if n > s.len() {
        s.len() as int
    } else if n <= i {
        i + 1
    } else {
        n
    }
}

/// A raw-string mode never claims more `#`s than the text has characters.
pub open spec fn mode_ok(s: Seq<char>, m: LexMode) -> bool {
    m is RawString ==> (m->0 as int) < s.len()
}

proof fn lemma_hash_run_bound(s: Seq<char>, j: int)
    requires
        0 <= j,
    ensures
        j + hash_run(s, j) <= s.len() || hash_run(s, j) == 0,
        forall|k: int| j <= k < j + hash_run(s, j) ==> s[k] == '#',
    decreases s.len() - j,
{
    if 0 <= j < s.len() && s[j] == '#' {
        lemma_hash_run_bound(s, j + 1);
    }
}

pub proof fn lemma_lex_step_advances(s: Seq<char>, i: int, m: LexMode)
    requires
        0 <= i < s.len(),
    ensures
        lex_step(s, i, m).0 > i,
        mode_ok(s, lex_step(s, i, m).1) || (m is RawString && lex_step(s, i, m).1 == m),
{
}

/// Count of `#` starting at `j`, computed.
fn count_hashes(s: &[char], j: usize) -> (n: usize)
    requires
        j <= s@.len(),
    ensures
        n == hash_run(s@, j as int),
        j + n <= s@.len(),
{
    let mut k = j;
    while k < s.len() && s[k] == '#'
        invariant
            j <= k <= s@.len(),
            hash_run(s@, j as int) == (k - j) + hash_run(s@, k as int),
        decreases s@.len() - k,
    {
        k = k + 1;
    }
    k - j
}

/// Exact scanner step, with the next position capped at the text's length.
pub fn lex_step_exec(s: &[char], i: usize, m: LexMode) -> (r: (usize, LexMode, bool, bool))
    requires
        i < s@.len(),
        mode_ok(s@, m),
    ensures
        ({
            let sp = lex_step(s@, i as int, m);
            &&& r.1 == sp.1
            &&& r.2 == sp.2
            &&& sp.0 > i
            &&& r.0 == capped_next(s@, i as int, m)
            &&& r.3 == (sp.0 > s@.len())
        }),
        r.0 > i,
        r.0 <= s@.len(),
        mode_ok(s@, r.1),
{
    let c = s[i];
    let len = s.len();
    match m {
        LexMode::LineComment => {
            if c == '\n' {
                (i + 1, LexMode::Code, false, false)
            } else {
                (i + 1, LexMode::LineComment, false, false)
            }
        },
        LexMode::RawString(n) => {
            if c == '"' {
                let mut k: usize = 1;
                let mut closes = true;
                while k <= n && k < len - i
                    invariant
                        1 <= k <= n + 1,
                        i < len,
                        len == s@.len(),
                        n < len,
                        closes <==> (forall|t: int| 1 <= t < k && i + t < s@.len() ==> #[trigger] s@[i + t] == '#'),
                    decreases n + 1 - k,
                {
                    if s[i + k] != '#' {
                        closes = false;
                    }
                    k = k + 1;
                }
                proof {
                    if closes {
                        assert forall|t: int| 1 <= t <= n && i + t < s@.len() implies #[trigger] s@[i + t] == '#' by {
                            assert(t < k);
                        }
                    } else {
                        let t = choose|t: int| !(1 <= t < k && i + t < s@.len() ==> #[trigger] s@[i + t] == '#');
                        assert(1 <= t <= n && i + t < s@.len() && s@[i + t] != '#');
                    }
                }
                if closes {
                    if n <= len - i - 1 {
                        (i + 1 + n, LexMode::Code, false, false)
                    } else {
                        (len, LexMode::Code, false, true)
                    }
                } else {
                    (i + 1, m, false, false)
                }
            } else {
                (i + 1, m, false, false)
            }
        },
        LexMode::StrEscape => (i + 1, LexMode::Str, false, false),
        LexMode::ChrEscape => (i + 1, LexMode::Chr, false, false),
        LexMode::Str => {
            if c == '\\' {
                (i + 1, LexMode::StrEscape, false, false)
            } else if c == '"' {
                (i + 1, LexMode::Code, false, false)
            } else {
                (i + 1, LexMode::Str, false, false)
            }
        },
        LexMode::Chr => {
            if c == '\\' {
                (i + 1, LexMode::ChrEscape, false, false)
            } else if c == '\'' {
                (i + 1, LexMode::Code, false, false)
            } else {
                (i + 1, LexMode::Chr, false, false)
            }
        },
        LexMode::Code => {
            if c == '/' && 1 < len - i && s[i + 1] == '/' {
                return (i + 2, LexMode::LineComment, false, false);
            }
            if c == 'r' {
                let h = count_hashes(s, i + 1);
                if h < len - i - 1 && s[i + 1 + h] == '"' {
                    return (i + 2 + h, LexMode::RawString(h), false, false);
                }
            }
            if c == '\'' {
                let rest = len - i;
                let lit = if 1 < rest && s[i + 1] == '\\' {
                    (2 < rest && s[i + 2] == '\'') || (3 < rest && s[i + 3] == '\'') || (4 < rest
                        && s[i + 4] == '\'')
                } else {
                    2 < rest && s[i + 2] == '\''
                };
                if lit {
                    (i + 1, LexMode::Chr, false, false)
                } else {
                    (i + 1, LexMode::Code, false, false)
                }
            } else if c == '"' {
                (i + 1, LexMode::Str, false, false)
            } else {
                (i + 1, LexMode::Code, true, false)
            }
        },
    }
}

} // verus!
