//! Calendar dates as plain day numbers.

use vstd::prelude::*;

verus! {

/// A calendar date, held as its day number: the count of days since the
/// civil epoch, as chrono counts them for `num_days_from_ce`.  Adding `n`
/// to the day number moves the date `n` days forward.
#[derive(Clone, Copy, PartialEq, Eq, Structural, Debug)]
pub struct Day {
    pub num: i64,
}

/// Day number of the proleptic Gregorian date year-month-day, if the
/// calendar has that date; `None` where it does not (a 30th of February,
/// a month outside 1..=12, a year outside chrono's range).
pub uninterp spec fn civil_day_number(year: int, month: int, day: int) -> Option<int>;

/// Relies on chrono's `NaiveDate::from_ymd_opt` and
/// `Datelike::num_days_from_ce`: whether a year-month-day triple names a
/// calendar date, and that date's day number, depend on the triple alone.
#[verifier::external_body]
fn ymd_day_number(year: i32, month: u32, day: u32) -> (r: Option<i64>)
    ensures
        r is Some <==> civil_day_number(year as int, month as int, day as int) is Some,
        r matches Some(n) ==> civil_day_number(year as int, month as int, day as int)
            == Some(n as int),
{
    match chrono::NaiveDate::from_ymd_opt(year, month, day) {
        Some(date) => Some(chrono::Datelike::num_days_from_ce(&date) as i64),
        None => None,
    }
}

impl Day {
    /// The date year-month-day, if the proleptic Gregorian calendar has it.
    pub fn from_ymd(year: i32, month: u32, day: u32) -> (r: Option<Day>)
        ensures
            r is Some <==> civil_day_number(year as int, month as int, day as int) is Some,
            r matches Some(d) ==> civil_day_number(year as int, month as int, day as int)
                == Some(d.num as int),
    {
        match ymd_day_number(year, month, day) {
            Some(n) => Some(Day { num: n }),
            None => None,
        }
    }
}

} // verus!
