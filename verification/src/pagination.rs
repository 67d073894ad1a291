//! The pagination resolver: raw query-parameter values in, a validated
//! window out.
//!
//! Resolution is pure: it neither looks at the collection nor clamps. The
//! bounds check against the collection size happens at slice time, in the
//! store, and fails with `OutOfRange` rather than clamping.

use vstd::prelude::*;

use crate::errors::Error;

verus! {

/// A resolved listing window. `end` of `None` means "unbounded": the window
/// reaches to the end of the collection, and the default window
/// `{ start: 0, end: None }` means the entire collection.
#[derive(Debug, Clone, Copy, PartialEq, Eq)]
pub struct Pagination {
    pub start: usize,
    pub end: Option<usize>,
}

impl Default for Pagination {
    /// The window meaning "no pagination": the entire collection.
    fn default() -> (r: Self)
        ensures
            r.start == 0,
            r.end is None,
    {
        Pagination { start: 0, end: None }
    }
}

/// Whether a character is a decimal digit.
pub open spec fn is_dec_digit(c: char) -> bool {
    '0' <= c && c <= '9'
}

/// The numeric value of a decimal digit.
pub open spec fn dec_digit_val(c: char) -> nat {
    (c as nat - '0' as nat) as nat
}

/// Whether a string is a well-formed decimal numeral: non-empty and made of
/// digits only.
pub open spec fn is_dec_numeral(s: Seq<char>) -> bool {
    s.len() > 0 && forall|i: int| 0 <= i < s.len() ==> is_dec_digit(#[trigger] s[i])
}

/// The value of a digit string, most significant digit first.
pub open spec fn dec_val(s: Seq<char>) -> nat
    decreases s.len(),
{
    if s.len() == 0 {
        0
    } else {
        dec_val(s.drop_last()) * 10 + dec_digit_val(s.last())
    }
}

/// Whether a string parses as a `usize`: a numeral whose value fits.
pub open spec fn parses_as_usize(s: Seq<char>) -> bool {
    is_dec_numeral(s) && dec_val(s) <= usize::MAX
}

/// Dropping trailing digits never increases the value of a digit string.
proof fn lemma_dec_val_prefix_le(s: Seq<char>, i: int)
    requires
        0 <= i <= s.len(),
    ensures
        dec_val(s.take(i)) <= dec_val(s),
    decreases s.len() - i,
{
    if i < s.len() {
        lemma_dec_val_prefix_le(s, i + 1);
        assert(s.take(i + 1).drop_last() =~= s.take(i));
        assert(dec_val(s.take(i + 1)) == dec_val(s.take(i)) * 10 + dec_digit_val(s.take(i + 1).last()));
    } else {
        assert(s.take(i) =~= s);
    }
}

/// Parses a non-negative decimal integer. Returns `None` on an empty input,
/// a non-digit character, or a value that does not fit in `usize`.
pub fn parse_usize(s: &str) -> (r: Option<usize>)
    ensures
        r is Some <==> parses_as_usize(s@),
        r is Some ==> r.unwrap() == dec_val(s@),
{
    let n = s.unicode_len();
    if n == 0 {
        return None;
    }
    let mut acc: usize = 0;
    let mut i: usize = 0;
    while i < n
        invariant
            0 <= i <= n,
            n == s@.len(),
            forall|j: int| 0 <= j < i ==> is_dec_digit(#[trigger] s@[j]),
            acc == dec_val(s@.take(i as int)),
        decreases n - i,
    {
        let c = s.get_char(i);
        if c < '0' || c > '9' {
            return None;
        }
        let d: usize = (c as u32 as usize) - ('0' as u32 as usize);
        proof {
            assert(s@.take(i + 1).drop_last() =~= s@.take(i as int));
            assert(dec_val(s@.take(i + 1)) == dec_val(s@.take(i as int)) * 10 + dec_digit_val(c));
        }
        if acc > (usize::MAX - d) / 10 {
            proof {
                lemma_dec_val_prefix_le(s@, i + 1);
            }
            return None;
        }
        acc = acc * 10 + d;
        i = i + 1;
    }
    proof {
        assert(s@.take(n as int) =~= s@);
    }
    Some(acc)
}

/// Resolves the raw `start` and `end` query parameters into a window.
///
/// With neither parameter present the default window (the entire
/// collection) is returned; with only one of the pair the resolution fails
/// with `MissingParameter`; with both present, each must parse as a
/// non-negative integer or the resolution fails with `NotParsable`.
pub fn extract_pagination(start: Option<&String>, end: Option<&String>) -> (r: Result<
    Pagination,
    Error,
>)
    ensures
        start is None && end is None ==> r == Ok::<Pagination, Error>(
            Pagination { start: 0, end: None },
        ),
        (start is Some) != (end is Some) ==> r == Err::<Pagination, Error>(
            Error::MissingParameter,
        ),
        start is Some && end is Some ==> {
            if parses_as_usize(start.unwrap()@) && parses_as_usize(end.unwrap()@) {
                r == Ok::<Pagination, Error>(
                    Pagination {
                        start: dec_val(start.unwrap()@) as usize,
                        end: Some(dec_val(end.unwrap()@) as usize),
                    },
                )
            } else {
                r == Err::<Pagination, Error>(Error::NotParsable)
            }
        },
{
    match (start, end) {
        (None, None) => Ok(Pagination { start: 0, end: None }),
        (Some(s), Some(e)) => {
            let s_val = parse_usize(s.as_str());
            let e_val = parse_usize(e.as_str());
            match (s_val, e_val) {
                (Some(sv), Some(ev)) => Ok(Pagination { start: sv, end: Some(ev) }),
                _ => Err(Error::NotParsable),
            }
        },
        _ => Err(Error::MissingParameter),
    }
}

} // verus!
