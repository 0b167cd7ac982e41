//! Scanning bytes of text: whitespace, decimal digits and their value.
use vstd::prelude::*;

verus! {

/// An ASCII whitespace byte: space, tab, newline or carriage return.
pub open spec fn is_space(b: u8) -> bool {
    b == (' ' as u8) || b == ('\t' as u8) || b == ('\n' as u8) || b == ('\r' as u8)
}

/// An ASCII decimal digit.
pub open spec fn is_digit(b: u8) -> bool {
    ('0' as u8) <= b <= ('9' as u8)
}

/// The end of the run of whitespace that starts at `i`.
pub open spec fn spaces_end(s: Seq<u8>, i: int) -> int
    decreases s.len() - i,
{
    if 0 <= i < s.len() && is_space(s[i]) {
        spaces_end(s, i + 1)
    } else {
        i
    }
}

/// The end of the run of decimal digits that starts at `i`.
pub open spec fn digits_end(s: Seq<u8>, i: int) -> int
    decreases s.len() - i,
{
    if 0 <= i < s.len() && is_digit(s[i]) {
        digits_end(s, i + 1)
    } else {
        i
    }
}

/// The number that the decimal digits `s[i..j]` write.
pub open spec fn digits_value(s: Seq<u8>, i: int, j: int) -> nat
    decreases j - i,
{
    if j <= i {
        0
    } else {
        digits_value(s, i, j - 1) * 10 + (s[j - 1] - ('0' as u8)) as nat
    }
}

pub fn is_space_byte(b: u8) -> (r: bool)
    ensures
        r == is_space(b),
{
    b == (' ' as u8) || b == ('\t' as u8) || b == ('\n' as u8) || b == ('\r' as u8)
}

/// The end of the run of whitespace that starts at `i`.
pub fn skip_spaces(s: &[u8], i: usize) -> (r: usize)
    requires
        i <= s.len(),
    ensures
        r == spaces_end(s@, i as int),
        i <= r <= s.len(),
{
    let mut k = i;
    while k < s.len() && is_space_byte(s[k])
        invariant
            i <= k <= s.len(),
            spaces_end(s@, i as int) == spaces_end(s@, k as int),
        decreases s.len() - k,
    {
        k = k + 1;
    }
    k
}

/// Bound above which the value of a run of digits is not tracked exactly.
pub const NUMBER_CAP: u32 = 65536;

/// The end of the run of digits that starts at `i`, with the number it
/// writes, or `NUMBER_CAP` when that is larger.
pub fn scan_number(s: &[u8], i: usize) -> (r: (usize, u32))
    requires
        i <= s.len(),
    ensures
        r.0 == digits_end(s@, i as int),
        i <= r.0 <= s.len(),
        r.1 == if digits_value(s@, i as int, r.0 as int) < NUMBER_CAP {
            digits_value(s@, i as int, r.0 as int)
        } else {
            NUMBER_CAP as nat
        },
{
    let mut k = i;
    let mut v: u32 = 0;
    while k < s.len() && ('0' as u8) <= s[k] && s[k] <= ('9' as u8)
        invariant
            i <= k <= s.len(),
            digits_end(s@, i as int) == digits_end(s@, k as int),
            v == if digits_value(s@, i as int, k as int) < NUMBER_CAP {
                digits_value(s@, i as int, k as int)
            } else {
                NUMBER_CAP as nat
            },
        decreases s.len() - k,
    {
        let d = (s[k] - ('0' as u8)) as u32;
        assert(digits_value(s@, i as int, k + 1) == digits_value(s@, i as int, k as int) * 10 + d);
        if v < NUMBER_CAP {
            v = v * 10 + d;
            if v > NUMBER_CAP {
                v = NUMBER_CAP;
            }
        }
        k = k + 1;
    }
    (k, v)
}

} // verus!
