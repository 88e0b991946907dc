//! Calendar dates and local date-times, decoded from fixed-width digit
//! tokens.

use crate::charset::is_digit;
use chrono::{Datelike, Timelike};
use vstd::prelude::*;

verus! {

/// A day of the proleptic Gregorian calendar.
#[derive(Clone, Copy, Debug, PartialEq, Eq, Structural)]
pub struct Date {
    pub year: i32,
    pub month: u32,
    pub day: u32,
}

/// A date with a time of day, without a time zone.
///
/// A leap second is held the way chrono holds it: `second` is 59 and
/// `nanosecond` is 1 000 000 000.
#[derive(Clone, Copy, Debug, PartialEq, Eq, Structural)]
pub struct DateTime {
    pub date: Date,
    pub hour: u32,
    pub minute: u32,
    pub second: u32,
    pub nanosecond: u32,
}

/// Whether every byte of `s` is a decimal digit.
pub open spec fn all_digits(s: Seq<u8>) -> bool {
    forall|i: int| 0 <= i < s.len() ==> is_digit(#[trigger] s[i])
}

/// The number that the `n` digits of `s` from index `i` on write in base ten.
pub open spec fn digits_value(s: Seq<u8>, i: int, n: nat) -> int
    decreases n,
{
    if n == 0 {
        0
    } else {
        digits_value(s, i, (n - 1) as nat) * 10 + (s[i + n - 1] - 48)
    }
}

/// Whether `year` has a 29th of February.
pub open spec fn is_leap_year(year: int) -> bool {
    year % 4 == 0 && (year % 100 != 0 || year % 400 == 0)
}

/// The number of days of `month` in `year`.
pub open spec fn days_in_month(year: int, month: int) -> int {
    if month == 2 {
        if is_leap_year(year) {
            29
        } else {
            28
        }
    } else if month == 4 || month == 6 || month == 9 || month == 11 {
        30
    } else {
        31
    }
}

/// Whether the calendar has a day `day` of month `month` in `year`.
pub open spec fn date_exists(year: int, month: int, day: int) -> bool {
    1 <= month <= 12 && 1 <= day <= days_in_month(year, month)
}

/// The date that eight digits `YYYYMMDD` name, if the calendar has it.
pub open spec fn date_of_digits(s: Seq<u8>) -> Option<Date> {
    let year = digits_value(s, 0, 4);
    let month = digits_value(s, 4, 2);
    let day = digits_value(s, 6, 2);
    if date_exists(year, month, day) {
        Some(Date { year: year as i32, month: month as u32, day: day as u32 })
    } else {
        None
    }
}

/// The date-time that twelve digits `YYYYMMDDHHMM` or fourteen digits
/// `YYYYMMDDHHMMSS` name, if there is such a day and such a time of day.
/// Without seconds the second is zero; a second of 60 is a leap second.
pub open spec fn datetime_of_digits(s: Seq<u8>) -> Option<DateTime> {
    let hour = digits_value(s, 8, 2);
    let minute = digits_value(s, 10, 2);
    let second = if s.len() >= 14 {
        digits_value(s, 12, 2)
    } else {
        0
    };
    match date_of_digits(s) {
        Some(date) => if hour <= 23 && minute <= 59 && second <= 60 {
            Some(
                DateTime {
                    date,
                    hour: hour as u32,
                    minute: minute as u32,
                    second: if second == 60 {
                        59
                    } else {
                        second as u32
                    },
                    nanosecond: if second == 60 {
                        1_000_000_000
                    } else {
                        0
                    },
                },
            )
        } else {
            None
        },
        None => None,
    }
}

impl Date {
    /// Whether the calendar has this day, in a year of at most four digits.
    pub open spec fn is_valid(self) -> bool {
        0 <= self.year <= 9999 && date_exists(self.year as int, self.month as int, self.day as int)
    }

    /// Tells whether the calendar has this day, in a year of at most four
    /// digits.
    pub fn validate(&self) -> (r: bool)
        ensures
            r == self.is_valid(),
    {
        if self.year < 0 || self.year > 9999 || self.month < 1 || self.month > 12 || self.day < 1 {
            return false;
        }
        let leap = self.year % 4 == 0 && (self.year % 100 != 0 || self.year % 400 == 0);
        let days: u32 = if self.month == 2 {
            if leap {
                29
            } else {
                28
            }
        } else if self.month == 4 || self.month == 6 || self.month == 9 || self.month == 11 {
            30
        } else {
            31
        };
        self.day <= days
    }
}

impl DateTime {
    /// Whether this is a day of the calendar with a time of day, in the form
    /// that decoding gives.
    pub open spec fn is_valid(self) -> bool {
        &&& self.date.is_valid()
        &&& self.hour <= 23
        &&& self.minute <= 59
        &&& self.second <= 59
        &&& (self.nanosecond == 0 || (self.second == 59 && self.nanosecond == 1_000_000_000))
    }

    /// Tells whether this is a day of the calendar with a time of day, in
    /// the form that decoding gives.
    pub fn validate(&self) -> (r: bool)
        ensures
            r == self.is_valid(),
    {
        self.date.validate() && self.hour <= 23 && self.minute <= 59 && self.second <= 59 && (
        self.nanosecond == 0 || (self.second == 59 && self.nanosecond == 1_000_000_000))
    }
}

/// Decodes eight digits with chrono's `NaiveDate::parse_from_str` and the
/// format `%Y%m%d`.
///
/// On digits alone chrono reads the fields by position, four digits of year,
/// two of month and two of day, and answers with the date exactly when the
/// calendar has that day.
#[verifier::external_body]
pub(crate) fn chrono_date(token: &[u8]) -> (r: Option<Date>)
    requires
        token@.len() == 8,
        all_digits(token@),
    ensures
        r == date_of_digits(token@),
{
    let text = std::str::from_utf8(token).unwrap_or("");
    let d = chrono::NaiveDate::parse_from_str(text, "%Y%m%d").ok()?;
    Some(Date { year: d.year(), month: d.month(), day: d.day() })
}

/// Decodes twelve or fourteen digits with chrono's
/// `NaiveDateTime::parse_from_str` and the format `%Y%m%d%H%M` or
/// `%Y%m%d%H%M%S`.
///
/// On digits alone chrono reads the fields by position and answers with the
/// date-time exactly when the calendar has that day, the hour is below 24,
/// the minute below 60 and the second at most 60. A missing second counts as
/// zero. A second of 60 comes back as second 59 with one full second of
/// nanoseconds.
#[verifier::external_body]
pub(crate) fn chrono_datetime(token: &[u8], format: &str) -> (r: Option<DateTime>)
    requires
        all_digits(token@),
        (token@.len() == 12 && format@ == "%Y%m%d%H%M"@) || (token@.len() == 14 && format@
            == "%Y%m%d%H%M%S"@),
    ensures
        r == datetime_of_digits(token@),
{
    let text = std::str::from_utf8(token).unwrap_or("");
    let t = chrono::NaiveDateTime::parse_from_str(text, format).ok()?;
    let date = Date { year: t.year(), month: t.month(), day: t.day() };
    let (hour, minute, second, nanosecond) = (t.hour(), t.minute(), t.second(), t.nanosecond());
    Some(DateTime { date, hour, minute, second, nanosecond })
}

} // verus!
