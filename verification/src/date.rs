//! Calendar dates as plain values: the publication date of a snapshot.
//!
//! The remote feed publishes dates as `dd.mm.yyyy` strings; the store keeps
//! them as year, month and day with a validity invariant, and the query side
//! orders and formats them.

use vstd::prelude::*;

verus! {

/// A calendar date, held as plain fields.
#[derive(Clone, Copy, Debug, PartialEq, Eq, Structural)]
pub struct ChartDate {
    pub year: u16,
    pub month: u8,
    pub day: u8,
}

/// Whether `year` is a leap year in the proleptic Gregorian calendar.
pub open spec fn is_leap_year(year: u16) -> bool {
    (year % 4 == 0 && year % 100 != 0) || year % 400 == 0
}

/// The number of days in `month` of `year`.
pub open spec fn days_in_month(year: u16, month: u8) -> int {
    if month == 2 {
        if is_leap_year(year) {
            29
        } else {
            28
        }
    } else if month == 4 || month == 6 || month == 9 || month == 11 {
        30
    } else {
        31
    }
}

impl ChartDate {
    /// A real calendar date with a four-digit year.
    pub open spec fn valid(self) -> bool {
        self.year <= 9999 && 1 <= self.month <= 12 && 1 <= self.day
            && self.day <= days_in_month(self.year, self.month)
    }
}

/// Computes the number of days in `month` of `year`.
pub fn days_in_month_of(year: u16, month: u8) -> (r: u8)
    ensures
        r as int == days_in_month(year, month),
{
    if month == 2 {
        if (year % 4 == 0 && year % 100 != 0) || year % 400 == 0 {
            29
        } else {
            28
        }
    } else if month == 4 || month == 6 || month == 9 || month == 11 {
        30
    } else {
        31
    }
}

/// Strict chronological order on dates: year, then month, then day.
pub open spec fn date_lt(a: ChartDate, b: ChartDate) -> bool {
    a.year < b.year || (a.year == b.year && (a.month < b.month || (a.month == b.month
        && a.day < b.day)))
}

/// Compares two dates chronologically.
pub fn date_before(a: &ChartDate, b: &ChartDate) -> (r: bool)
    ensures
        r == date_lt(*a, *b),
{
    a.year < b.year || (a.year == b.year && (a.month < b.month || (a.month == b.month
        && a.day < b.day)))
}

} // verus!
