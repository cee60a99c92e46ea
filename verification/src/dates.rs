//! Calendar dates, modelled as plain year/month/day values.
//!
//! A job's start date is held as a [`StartDate`]; the weekday index that the
//! availability rule needs is computed by the calendar library behind a
//! trusted wrapper.

use vstd::prelude::*;

verus! {

/// Proleptic Gregorian leap-year rule.
pub open spec fn is_leap_year(y: int) -> bool {
    (y % 4 == 0 && y % 100 != 0) || y % 400 == 0
}

pub open spec fn days_in_month(y: int, m: int) -> int {
    if m == 2 {
        if is_leap_year(y) {
            29
        } else {
            28
        }
    } else if m == 4 || m == 6 || m == 9 || m == 11 {
        30
    } else {
        31
    }
}

/// A calendar date this crate accepts: a real Gregorian day in years 1-9999.
pub open spec fn valid_date(y: int, m: int, d: int) -> bool {
    &&& 1 <= y <= 9999
    &&& 1 <= m <= 12
    &&& 1 <= d <= days_in_month(y, m)
}

/// The ISO weekday number of a calendar date: Monday is 1, Sunday is 7.
pub uninterp spec fn weekday_of(year: int, month: int, day: int) -> int;

/// A calendar date (proleptic Gregorian), already resolved from whatever
/// timestamp or time zone the caller started with.
#[derive(Debug, Clone, Copy, PartialEq, Eq)]
pub struct StartDate {
    pub year: i32,
    pub month: u32,
    pub day: u32,
}

impl StartDate {
    pub open spec fn valid(self) -> bool {
        valid_date(self.year as int, self.month as int, self.day as int)
    }

    /// Whether this is a real calendar day in the accepted year range.
    pub fn is_valid(&self) -> (r: bool)
        ensures
            r == self.valid(),
    {
        let dim: u32 = if self.month == 2 {
            let leap = (self.year % 4 == 0 && self.year % 100 != 0) || self.year % 400 == 0;
            if leap {
                29
            } else {
                28
            }
        } else if self.month == 4 || self.month == 6 || self.month == 9 || self.month == 11 {
            30
        } else {
            31
        };
        1 <= self.year && self.year <= 9999 && 1 <= self.month && self.month <= 12 && 1 <= self.day
            && self.day <= dim
    }

    /// Relies on `chrono::NaiveDate::from_ymd_opt` and
    /// `chrono::Weekday::number_from_monday`: a valid calendar date in this
    /// range maps to its ISO weekday number, Monday 1 through Sunday 7,
    /// a function of the date alone.
    #[verifier::external_body]
    pub fn weekday_number(&self) -> (r: u32)
        requires
            self.valid(),
        ensures
            1 <= r <= 7,
            r as int == weekday_of(self.year as int, self.month as int, self.day as int),
    {
        match chrono::NaiveDate::from_ymd_opt(self.year, self.month, self.day) {
            Some(d) => chrono::Datelike::weekday(&d).number_from_monday(),
            None => 1,
        }
    }
}

} // verus!
