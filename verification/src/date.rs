//! A calendar date as plain year, month and day values, with the proleptic
//! Gregorian validity rule. The resolver and the filter take dates in this
//! form; reading a date from text or from the clock is the caller's job.
use vstd::prelude::*;

verus! {

/// Smallest year a date may carry; the bound the date formatter supports.
pub const MIN_YEAR: i32 = -262143;

/// Largest year a date may carry; the bound the date formatter supports.
pub const MAX_YEAR: i32 = 262142;

pub open spec fn is_leap_year(y: int) -> bool {
    y % 4 == 0 && (y % 100 != 0 || y % 400 == 0)
}

pub open spec fn days_in_month(y: int, m: int) -> int {
    if m == 2 {
        if is_leap_year(y) {
            29
        } else {
            28
        }
    } else if m == 4 || m == 6 || m == 9 || m == 11 {
        30
    } else {
        31
    }
}

pub open spec fn valid_date(y: int, m: int, d: int) -> bool {
    &&& MIN_YEAR <= y <= MAX_YEAR
    &&& 1 <= m <= 12
    &&& 1 <= d <= days_in_month(y, m)
}

/// A calendar date, valid by construction when made through `Date::new`.
#[derive(Clone, Copy, Debug, PartialEq, Eq, Structural)]
pub struct Date {
    pub year: i32,
    pub month: u8,
    pub day: u8,
}

impl Date {
    pub open spec fn wf(self) -> bool {
        valid_date(self.year as int, self.month as int, self.day as int)
    }

    /// Builds a date, accepting exactly the valid calendar dates.
    pub fn new(year: i32, month: u8, day: u8) -> (r: Option<Date>)
        ensures
            match r {
                Some(d) => valid_date(year as int, month as int, day as int) && d == (Date {
                    year,
                    month,
                    day,
                }),
                None => !valid_date(year as int, month as int, day as int),
            },
    {
        if year < MIN_YEAR || year > MAX_YEAR || month < 1 || month > 12 || day < 1 {
            return None;
        }
        // shift by a multiple of 400 years so the remainders are taken of a
        // nonnegative number
        let z: u32 = (year + 262400) as u32;
        let leap = z % 4 == 0 && (z % 100 != 0 || z % 400 == 0);
        proof {
            vstd::arithmetic::div_mod::lemma_mod_multiples_vanish(65600, year as int, 4);
            vstd::arithmetic::div_mod::lemma_mod_multiples_vanish(2624, year as int, 100);
            vstd::arithmetic::div_mod::lemma_mod_multiples_vanish(656, year as int, 400);
            assert(leap == is_leap_year(year as int));
        }
        let max_day: u8 = if month == 2 {
            if leap {
                29
            } else {
                28
            }
        } else if month == 4 || month == 6 || month == 9 || month == 11 {
            30
        } else {
            31
        };
        if day > max_day {
            return None;
        }
        Some(Date { year, month, day })
    }
}

} // verus!
