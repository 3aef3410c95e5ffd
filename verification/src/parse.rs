//! Verified decoding of the remote document's scalar fields: the decimal
//! ordinal and the `dd.mm.yyyy` publication date.
//!
//! Both are fatal to a synchronization cycle when malformed: the functions
//! say exactly which strings are accepted and what value they denote.

use vstd::prelude::*;

use crate::date::{days_in_month_of, ChartDate};
use crate::ChartError;

verus! {

broadcast use vstd::string::group_string_axioms;

/// A decimal digit.
pub open spec fn is_digit_char(c: char) -> bool {
    '0' <= c && c <= '9'
}

/// The value of a decimal digit.
pub open spec fn digit_val(c: char) -> int {
    c as int - 48
}

/// A non-empty run of decimal digits.
pub open spec fn is_dec_digits(s: Seq<char>) -> bool {
    s.len() > 0 && forall|k: int| 0 <= k < s.len() ==> is_digit_char(#[trigger] s[k])
}

/// The number a run of digits denotes, most significant first.
pub open spec fn dec_value(s: Seq<char>) -> int
    decreases s.len(),
{
    if s.len() == 0 {
        0
    } else {
        10 * dec_value(s.drop_last()) + digit_val(s.last())
    }
}

/// A run of digits denotes a number that is not negative.
proof fn lemma_dec_value_nonneg(s: Seq<char>)
    requires
        forall|k: int| 0 <= k < s.len() ==> is_digit_char(#[trigger] s[k]),
    ensures
        dec_value(s) >= 0,
    decreases s.len(),
{
    if s.len() > 0 {
        lemma_dec_value_nonneg(s.drop_last());
    }
}

/// Digits appended on the right never shrink the denoted number.
proof fn lemma_dec_value_prefix_le(s: Seq<char>, j: int)
    requires
        0 <= j <= s.len(),
        forall|k: int| 0 <= k < s.len() ==> is_digit_char(#[trigger] s[k]),
    ensures
        dec_value(s.take(j)) <= dec_value(s),
    decreases s.len() - j,
{
    if j == s.len() {
        assert(s.take(j) =~= s);
    } else {
        assert(s.take(j + 1).drop_last() =~= s.take(j));
        assert(s.take(j + 1).last() == s[j]);
        lemma_dec_value_nonneg(s.take(j));
        assert(dec_value(s.take(j + 1)) == 10 * dec_value(s.take(j)) + digit_val(s[j]));
        lemma_dec_value_prefix_le(s, j + 1);
    }
}

/// Parses a remote ordinal: a non-empty run of decimal digits whose value
/// fits the ordinal type. Anything else is a fatal decode error.
pub fn parse_ordinal(s: &str) -> (r: Result<u16, ChartError>)
    ensures
        match r {
            Ok(n) => is_dec_digits(s@) && dec_value(s@) == n as int,
            Err(e) => e == ChartError::InvalidOrdinal && !(is_dec_digits(s@) && dec_value(s@)
                <= u16::MAX as int),
        },
{
    if !s.is_ascii() {
        proof {
            let k = choose|k: int| 0 <= k < s@.len() && !('\0' <= #[trigger] s@[k] <= '\u{7f}');
            assert(!is_digit_char(s@[k]));
        }
        return Err(ChartError::InvalidOrdinal);
    }
    let b = s.as_bytes();
    if b.len() == 0 {
        return Err(ChartError::InvalidOrdinal);
    }
    let mut k: usize = 0;
    while k < b.len()
        invariant
            0 <= k <= b@.len(),
            b@.len() == s@.len(),
            forall|t: int| 0 <= t < b@.len() ==> b@[t] == s@[t] as u8,
            forall|t: int| 0 <= t < s@.len() ==> '\0' <= #[trigger] s@[t] <= '\u{7f}',
            forall|t: int| 0 <= t < k ==> is_digit_char(#[trigger] s@[t]),
        decreases b@.len() - k,
    {
        if b[k] < 48 || b[k] > 57 {
            proof {
                assert(!is_digit_char(s@[k as int]));
            }
            return Err(ChartError::InvalidOrdinal);
        }
        k += 1;
    }
    let mut n: u32 = 0;
    k = 0;
    while k < b.len()
        invariant
            0 <= k <= b@.len(),
            b@.len() == s@.len(),
            s@.len() > 0,
            forall|t: int| 0 <= t < b@.len() ==> b@[t] == s@[t] as u8,
            forall|t: int| 0 <= t < s@.len() ==> is_digit_char(#[trigger] s@[t]),
            n as int == dec_value(s@.take(k as int)),
            n <= 0xFFFF,
        decreases b@.len() - k,
    {
        proof {
            assert(s@.take(k + 1).drop_last() =~= s@.take(k as int));
            assert(s@.take(k + 1).last() == s@[k as int]);
        }
        n = n * 10 + ((b[k] - 48) as u32);
        if n > 0xFFFF {
            proof {
                lemma_dec_value_prefix_le(s@, k + 1);
            }
            return Err(ChartError::InvalidOrdinal);
        }
        k += 1;
    }
    proof {
        assert(s@.take(s@.len() as int) =~= s@);
    }
    Ok(n as u16)
}

/// `s` is the `dd.mm.yyyy` rendering of `d`: two digits for the day and the
/// month, four for the year, separated by dots.
pub open spec fn renders_date(s: Seq<char>, d: ChartDate) -> bool {
    &&& s.len() == 10
    &&& s[2] == '.'
    &&& s[5] == '.'
    &&& is_digit_char(s[0]) && is_digit_char(s[1]) && is_digit_char(s[3]) && is_digit_char(s[4])
        && is_digit_char(s[6]) && is_digit_char(s[7]) && is_digit_char(s[8]) && is_digit_char(
        s[9],
    )
    &&& d.day as int == 10 * digit_val(s[0]) + digit_val(s[1])
    &&& d.month as int == 10 * digit_val(s[3]) + digit_val(s[4])
    &&& d.year as int == 1000 * digit_val(s[6]) + 100 * digit_val(s[7]) + 10 * digit_val(s[8])
        + digit_val(s[9])
}

/// Parses a `dd.mm.yyyy` publication date into a real calendar date.
/// Anything else — wrong shape or an impossible date — is a fatal decode
/// error.
pub fn parse_chart_date(s: &str) -> (r: Result<ChartDate, ChartError>)
    ensures
        match r {
            Ok(d) => d.valid() && renders_date(s@, d),
            Err(e) => e == ChartError::InvalidDate && forall|d: ChartDate|
                d.valid() ==> !renders_date(s@, d),
        },
{
    if !s.is_ascii() {
        proof {
            let k = choose|k: int| 0 <= k < s@.len() && !('\0' <= #[trigger] s@[k] <= '\u{7f}');
            assert forall|d: ChartDate| !renders_date(s@, d) by {
                if s@.len() == 10 {
                    assert(!is_digit_char(s@[k]) && s@[k] != '.');
                }
            }
        }
        return Err(ChartError::InvalidDate);
    }
    let b = s.as_bytes();
    if b.len() != 10 {
        return Err(ChartError::InvalidDate);
    }
    if b[2] != 46 || b[5] != 46 {
        proof {
            assert(s@[2] != '.' || s@[5] != '.');
        }
        return Err(ChartError::InvalidDate);
    }
    let digits_ok = 48 <= b[0] && b[0] <= 57 && 48 <= b[1] && b[1] <= 57 && 48 <= b[3] && b[3]
        <= 57 && 48 <= b[4] && b[4] <= 57 && 48 <= b[6] && b[6] <= 57 && 48 <= b[7] && b[7] <= 57
        && 48 <= b[8] && b[8] <= 57 && 48 <= b[9] && b[9] <= 57;
    if !digits_ok {
        return Err(ChartError::InvalidDate);
    }
    let day: u8 = (b[0] - 48) * 10 + (b[1] - 48);
    let month: u8 = (b[3] - 48) * 10 + (b[4] - 48);
    let year: u16 = ((b[6] - 48) as u16) * 1000 + ((b[7] - 48) as u16) * 100 + ((b[8] - 48)
        as u16) * 10 + ((b[9] - 48) as u16);
    let d = ChartDate { year, month, day };
    proof {
        assert(renders_date(s@, d));
    }
    if month < 1 || month > 12 || day < 1 || day > days_in_month_of(year, month) {
        proof {
            assert forall|d2: ChartDate| d2.valid() implies !renders_date(s@, d2) by {
                if renders_date(s@, d2) {
                    assert(d2.day == d.day && d2.month == d.month && d2.year == d.year);
                    assert(d2 == d);
                }
            }
        }
        return Err(ChartError::InvalidDate);
    }
    Ok(d)
}

} // verus!
