//! Calendar dates as day numbers of the proleptic Gregorian calendar.
//!
//! A date is held as the number of its day, with January 1 of year 1 as day 1.
//! Turning a year, month and day into that number, and stepping back by whole
//! days, is done by `chrono`.

use chrono::{Datelike, Days, NaiveDate};
use vstd::prelude::*;

verus! {

/// Day number of the earliest date that `chrono::NaiveDate` can hold
/// (January 1 of year -262143).
pub const MIN_DAY_NUMBER: i32 = -95_746_129;

/// Day number of the latest date that `chrono::NaiveDate` can hold
/// (December 31 of year 262142).
pub const MAX_DAY_NUMBER: i32 = 95_745_399;

/// Whether `n` is the day number of a date that the calendar can hold.
pub open spec fn in_calendar(n: int) -> bool {
    MIN_DAY_NUMBER <= n <= MAX_DAY_NUMBER
}

/// The day number that `chrono` gives to the calendar date `year`-`month`-`day`,
/// or `None` where it knows no such date.
pub uninterp spec fn civil_day_number(year: i32, month: u32, day: u32) -> Option<i32>;

/// Calls `chrono::NaiveDate::from_ymd_opt` and reads the day number of the date
/// it returns with `Datelike::num_days_from_ce`.
///
/// Trusted: the result depends on the three arguments alone.
#[verifier::external_body]
fn chrono_day_number(year: i32, month: u32, day: u32) -> (r: Option<i32>)
    ensures
        r == civil_day_number(year, month, day),
{
    match NaiveDate::from_ymd_opt(year, month, day) {
        Some(date) => Some(date.num_days_from_ce()),
        None => None,
    }
}

/// Calls `chrono::NaiveDate::from_num_days_from_ce_opt` on `day_number`, then
/// `NaiveDate::checked_sub_days` with `back` days, and reads the day number of the
/// outcome with `Datelike::num_days_from_ce`.
///
/// Trusted: `chrono` answers exactly when both the starting day and the day
/// `back` days before it lie in its range, and the answer is that earlier day.
#[verifier::external_body]
fn chrono_days_before(day_number: i32, back: u64) -> (r: Option<i32>)
    ensures
        r == (if in_calendar(day_number as int) && in_calendar(day_number - back) {
            Some((day_number - back) as i32)
        } else {
            None
        }),
{
    match NaiveDate::from_num_days_from_ce_opt(day_number) {
        Some(date) => match date.checked_sub_days(Days::new(back)) {
            Some(earlier) => Some(earlier.num_days_from_ce()),
            None => None,
        },
        None => None,
    }
}

/// A calendar date without time or time zone.
#[derive(Clone, Copy, Debug, PartialEq, Eq, Structural)]
pub struct CalendarDate {
    /// Day number, with January 1 of year 1 as day 1.
    pub day_number: i32,
}

impl CalendarDate {
    /// The day number as a mathematical integer.
    pub open spec fn day(self) -> int {
        self.day_number as int
    }

    /// Whether the date lies in the range that the calendar can hold.
    pub open spec fn in_range(self) -> bool {
        in_calendar(self.day())
    }

    /// What `from_day_number_result` returns for a day number reported by the
    /// calendar: the date with that number, if it is in range.
    pub open spec fn of_day_number(n: Option<i32>) -> Option<CalendarDate> {
        match n {
            Some(d) if in_calendar(d as int) => Some(CalendarDate { day_number: d }),
            _ => None,
        }
    }

    /// The date with the given day number, or `None` outside the calendar's range.
    pub fn from_day_number(day_number: i32) -> (r: Option<CalendarDate>)
        ensures
            r == Self::of_day_number(Some(day_number)),
    {
        Self::from_day_number_result(Some(day_number))
    }

    /// Turns what the calendar reported for a year, month and day into a date.
    pub fn from_day_number_result(n: Option<i32>) -> (r: Option<CalendarDate>)
        ensures
            r == Self::of_day_number(n),
    {
        match n {
            Some(d) => {
                if MIN_DAY_NUMBER <= d && d <= MAX_DAY_NUMBER {
                    Some(CalendarDate { day_number: d })
                } else {
                    None
                }
            },
            None => None,
        }
    }

    /// The date `year`-`month`-`day`, or `None` where the calendar has no such
    /// date.
    pub fn from_ymd(year: i32, month: u32, day: u32) -> (r: Option<CalendarDate>)
        ensures
            r == Self::of_day_number(civil_day_number(year, month, day)),
            r matches Some(d) ==> d.in_range(),
    {
        Self::from_day_number_result(chrono_day_number(year, month, day))
    }

    /// The day number.
    pub fn day_number(&self) -> (r: i32)
        ensures
            r == self.day(),
    {
        self.day_number
    }

    /// The date `back` days before this one, or `None` where this date or that
    /// one lies outside the calendar's range.
    pub fn days_before(&self, back: u64) -> (r: Option<CalendarDate>)
        ensures
            r is Some <==> self.in_range() && in_calendar(self.day() - back),
            r matches Some(d) ==> d.day() == self.day() - back,
    {
        match chrono_days_before(self.day_number, back) {
            Some(d) => Some(CalendarDate { day_number: d }),
            None => None,
        }
    }

    /// Whether this date comes strictly before `other`.
    pub fn is_before(&self, other: &CalendarDate) -> (r: bool)
        ensures
            r == (self.day() < other.day()),
    {
        self.day_number < other.day_number
    }
}

} // verus!
