//! The page counter's parsing half: reading the external tool's page-count
//! output. The tool is expected to print a single number; anything else —
//! a failed invocation, empty output, stray text — falls back to a count of
//! zero, which downstream turns into an empty plan and a no-op pipeline.

use crate::digits::{all_digits, dec_val, parse_digits};
use vstd::prelude::*;
use vstd::string::*;

verus! {

/// The whitespace characters stripped from around the tool's output.
pub open spec fn is_space(c: char) -> bool {
    c == ' ' || c == '\t' || c == '\n' || c == '\r' || c == '\u{000B}' || c == '\u{000C}'
}

/// The sequence with its leading whitespace removed.
pub open spec fn trim_front(s: Seq<char>) -> Seq<char>
    decreases s.len(),
{
    if s.len() > 0 && is_space(s[0]) {
        trim_front(s.drop_first())
    } else {
        s
    }
}

/// The sequence with its trailing whitespace removed.
pub open spec fn trim_back(s: Seq<char>) -> Seq<char>
    decreases s.len(),
{
    if s.len() > 0 && is_space(s.last()) {
        trim_back(s.drop_last())
    } else {
        s
    }
}

/// The sequence with whitespace removed from both ends.
pub open spec fn trimmed(s: Seq<char>) -> Seq<char> {
    trim_back(trim_front(s))
}

/// What the tool's output denotes as a page count: the number it spells out
/// once surrounding whitespace is stripped, or zero when what remains is
/// empty, is not all digits, or does not fit a `usize`.
pub open spec fn spec_page_count(s: Seq<char>) -> int {
    let t = trimmed(s);
    if t.len() > 0 && all_digits(t) && dec_val(t) <= usize::MAX {
        dec_val(t)
    } else {
        0
    }
}

/// Whether the character counts as whitespace around the tool's output.
fn is_space_char(c: char) -> (b: bool)
    ensures
        b == is_space(c),
{
    c == ' ' || c == '\t' || c == '\n' || c == '\r' || c == '\u{000B}' || c == '\u{000C}'
}

/// Reads the page count from the tool's output: the single number the output
/// spells out, or zero when there is no such number.
pub fn parse_page_count(out: &str) -> (n: usize)
    ensures
        n as int == spec_page_count(out@),
{
    let len = out.unicode_len();
    proof {
        assert(out@.skip(0) =~= out@);
    }
    let mut lo: usize = 0;
    while lo < len && is_space_char(out.get_char(lo))
        invariant
            lo <= len,
            len == out@.len(),
            trim_front(out@) == trim_front(out@.skip(lo as int)),
        decreases len - lo,
    {
        proof {
            assert(out@.skip(lo as int).drop_first() =~= out@.skip(lo as int + 1));
            assert(out@.skip(lo as int)[0] == out@[lo as int]);
        }
        lo = lo + 1;
    }
    proof {
        if lo < len {
            assert(out@.skip(lo as int)[0] == out@[lo as int]);
        }
        assert(trim_front(out@.skip(lo as int)) == out@.skip(lo as int));
        assert(out@.skip(lo as int) =~= out@.subrange(lo as int, len as int));
    }
    let mut hi: usize = len;
    while hi > lo && is_space_char(out.get_char(hi - 1))
        invariant
            lo <= hi <= len,
            len == out@.len(),
            trim_front(out@) == out@.subrange(lo as int, len as int),
            trim_back(out@.subrange(lo as int, len as int)) == trim_back(
                out@.subrange(lo as int, hi as int),
            ),
        decreases hi,
    {
        proof {
            assert(out@.subrange(lo as int, hi as int).drop_last() =~= out@.subrange(
                lo as int,
                hi as int - 1,
            ));
            assert(out@.subrange(lo as int, hi as int).last() == out@[hi as int - 1]);
        }
        hi = hi - 1;
    }
    proof {
        if hi > lo {
            assert(out@.subrange(lo as int, hi as int).last() == out@[hi as int - 1]);
        }
        assert(trim_back(out@.subrange(lo as int, hi as int)) == out@.subrange(
            lo as int,
            hi as int,
        ));
        assert(trimmed(out@) == out@.subrange(lo as int, hi as int));
    }
    match parse_digits(out, lo, hi) {
        Some(v) => v,
        None => 0,
    }
}

} // verus!
