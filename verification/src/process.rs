//! What a finished subprocess reported, and the bounded tail of a log.

use vstd::prelude::*;
use crate::text::{chars_of, string_from_range};

verus! {

/// The outcome of a subprocess run with a timeout.
#[derive(Debug, Clone)]
pub struct ProcessOutput {
    /// Whether the process exited with status 0. A tool that does not
    /// recognise a flag exits nonzero and prints an error, which must never
    /// be mistaken for real output.
    pub success: bool,
    pub text: String,
}

/// The last `n` characters of `x` (all of it when it is shorter).
pub open spec fn tail_chars(x: Seq<char>, n: nat) -> Seq<char> {
    if x.len() <= n {
        x
    } else {
        x.subrange(x.len() - n, x.len() as int)
    }
}

/// The last `n` characters of `text`: a usable amount of a captured log to
/// put in an error message.
pub fn tail(text: &str, n: usize) -> (r: String)
    ensures
        r@ == tail_chars(text@, n as nat),
{
    let chars = chars_of(text);
    let len = chars.len();
    if len <= n {
        assert(chars@.subrange(0, len as int) =~= chars@);
        string_from_range(&chars, 0, len)
    } else {
        string_from_range(&chars, len - n, len)
    }
}

} // verus!
