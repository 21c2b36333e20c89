//! Calendar dates of the proleptic Gregorian calendar with four-digit years.
use vstd::prelude::*;

verus! {

/// A calendar date. `year` may be negative; its magnitude has at most four
/// digits.
#[derive(Debug, Clone, Copy, PartialEq, Eq, PartialOrd, Ord, Hash, Structural)]
pub struct Date {
    pub year: i32,
    pub month: u32,
    pub day: u32,
}

pub open spec fn is_leap_year(y: int) -> bool {
    y % 4 == 0 && (y % 100 != 0 || y % 400 == 0)
}

pub open spec fn days_in_month(y: int, m: int) -> int {
    if m == 2 {
        if is_leap_year(y) {
            29
        } else {
            28
        }
    } else if m == 4 || m == 6 || m == 9 || m == 11 {
        30
    } else {
        31
    }
}

/// A month of the year and a day of that month.
pub open spec fn is_calendar_date(y: int, m: int, d: int) -> bool {
    1 <= m <= 12 && 1 <= d <= days_in_month(y, m)
}

pub open spec fn four_digit_year(y: int) -> bool {
    -9999 <= y <= 9999
}

pub open spec fn valid_date(d: Date) -> bool {
    four_digit_year(d.year as int) && is_calendar_date(d.year as int, d.month as int, d.day as int)
}

/// Relies on `chrono::NaiveDate::from_ymd_opt`: it gives a date exactly for a
/// month 1 to 12 and a day within that month, leap years as in the
/// proleptic Gregorian calendar, for years well beyond four digits.
#[verifier::external_body]
fn calendar_date_exists(year: i32, month: u32, day: u32) -> (r: bool)
    requires
        four_digit_year(year as int),
    ensures
        r == is_calendar_date(year as int, month as int, day as int),
{
    chrono::NaiveDate::from_ymd_opt(year, month, day).is_some()
}

impl Date {
    /// The date `year-month-day`, if there is such a day and the year has at
    /// most four digits.
    pub fn new(year: i32, month: u32, day: u32) -> (r: Option<Date>)
        ensures
            r is Some <==> valid_date(Date { year, month, day }),
            r is Some ==> r->Some_0 == (Date { year, month, day }),
    {
        if year < -9999 || year > 9999 {
            return None;
        }
        if calendar_date_exists(year, month, day) {
            Some(Date { year, month, day })
        } else {
            None
        }
    }
}

} // verus!
