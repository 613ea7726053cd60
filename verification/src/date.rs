//! Calendar dates and day-number arithmetic.
//!
//! A date is a plain year/month/day triple in the proleptic Gregorian
//! calendar. Every computation the library needs — comparing dates,
//! counting the days between two dates, finding a weekday — goes through
//! the date's *day number*, the count of days since the start of year 0.

use vstd::prelude::*;

verus! {

/// A calendar date. Years run from 0 through 9999, the range that the
/// bundle's eight-digit date text can express.
#[derive(Debug, Copy, Clone, PartialEq, Eq, Structural)]
pub struct Date {
    pub year: u16,
    pub month: u8,
    pub day: u8,
}

pub open spec fn is_leap_year(y: int) -> bool {
    (y % 4 == 0 && y % 100 != 0) || y % 400 == 0
}

pub open spec fn spec_days_in_month(y: int, m: int) -> int {
    if m == 2 {
        if is_leap_year(y) {
            29
        } else {
            28
        }
    } else if m == 4 || m == 6 || m == 9 || m == 11 {
        30
    } else {
        31
    }
}

/// The number of days in the months of year `y` that precede month `m`.
pub open spec fn spec_days_before_month(y: int, m: int) -> int {
    let base: int = if m == 1 {
        0
    } else if m == 2 {
        31
    } else if m == 3 {
        59
    } else if m == 4 {
        90
    } else if m == 5 {
        120
    } else if m == 6 {
        151
    } else if m == 7 {
        181
    } else if m == 8 {
        212
    } else if m == 9 {
        243
    } else if m == 10 {
        273
    } else if m == 11 {
        304
    } else {
        334
    };
    if m >= 3 && is_leap_year(y) {
        base + 1
    } else {
        base
    }
}

/// The number of leap years among 0, 1, ..., y - 1. Year 0 is a leap year.
pub open spec fn spec_leap_years_before(y: int) -> int {
    (y + 3) / 4 - (y + 99) / 100 + (y + 399) / 400
}

/// Days since the first day of year 0, so that consecutive valid dates get
/// consecutive numbers and the order of day numbers is the calendar order.
pub open spec fn spec_day_number(d: Date) -> int {
    365 * d.year + spec_leap_years_before(d.year as int) + spec_days_before_month(
        d.year as int,
        d.month as int,
    ) + d.day - 1
}

/// The weekday of the date with day number `n`, as an index:
/// 0 is Monday, ..., 5 is Saturday, 6 is Sunday.
pub open spec fn spec_weekday_index(n: int) -> int {
    (n + 5) % 7
}

impl Date {
    pub open spec fn valid(self) -> bool {
        self.year <= 9999 && 1 <= self.month <= 12 && 1 <= self.day
            && self.day <= spec_days_in_month(self.year as int, self.month as int)
    }

    /// Builds the date with the given calendar fields.
    pub fn from_ymd(year: u16, month: u8, day: u8) -> (d: Date)
        requires
            ({
                let d = Date { year, month, day };
                d.valid()
            }),
        ensures
            d == (Date { year, month, day }),
            d.valid(),
    {
        Date { year, month, day }
    }

    pub fn days_in_month(year: u16, month: u8) -> (n: u8)
        requires
            1 <= month <= 12,
        ensures
            n == spec_days_in_month(year as int, month as int),
    {
        if month == 2 {
            if (year % 4 == 0 && year % 100 != 0) || year % 400 == 0 {
                29
            } else {
                28
            }
        } else if month == 4 || month == 6 || month == 9 || month == 11 {
            30
        } else {
            31
        }
    }

    /// The date's day number: days since the first day of year 0.
    pub fn day_number(self) -> (n: u32)
        requires
            self.valid(),
        ensures
            n == spec_day_number(self),
            n <= 3652424,
    {
        let y = self.year as u32;
        let leaps = (y + 3) / 4 - (y + 99) / 100 + (y + 399) / 400;
        let before_month: u32 = {
            let base: u32 = match self.month {
                1u8 => 0,
                2u8 => 31,
                3u8 => 59,
                4u8 => 90,
                5u8 => 120,
                6u8 => 151,
                7u8 => 181,
                8u8 => 212,
                9u8 => 243,
                10u8 => 273,
                11u8 => 304,
                _ => 334,
            };
            if self.month >= 3 && ((y % 4 == 0 && y % 100 != 0) || y % 400 == 0) {
                base + 1
            } else {
                base
            }
        };
        assert(spec_leap_years_before(self.year as int) <= 2425);
        365 * y + leaps + before_month + (self.day as u32) - 1
    }

    /// The date's weekday, as an index: 0 is Monday, ..., 6 is Sunday.
    pub fn weekday_index(self) -> (w: u8)
        requires
            self.valid(),
        ensures
            w == spec_weekday_index(spec_day_number(self)),
            w < 7,
    {
        let n = self.day_number();
        ((n + 5) % 7) as u8
    }
}

} // verus!
