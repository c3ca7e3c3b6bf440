//! Calendar fields of a timestamp, and the trusted bridge to the
//! calendar library that parses and prints them.

use vstd::prelude::*;
use core::fmt::Write;
use chrono::Datelike;
use chrono::Timelike;

verus! {

/// The calendar fields a timestamp carries: enough to order samples and
/// to pack a datetime into bits.
#[derive(Clone, Copy, Debug, PartialEq, Eq, Structural)]
pub struct DateTimeParts {
    /// Calendar year
    pub year: i32,
    /// Month of the year, 1 to 12
    pub month: u8,
    /// Day of the month, 1 to 31
    pub day: u8,
    /// Hour of the day, 0 to 23
    pub hour: u8,
    /// Minute of the hour, 0 to 59
    pub minute: u8,
    /// Second of the minute, 0 to 59
    pub second: u8,
}

/// Every field lies in its calendar range.
pub open spec fn parts_in_range(p: DateTimeParts) -> bool {
    &&& 1 <= p.month <= 12
    &&& 1 <= p.day <= 31
    &&& p.hour <= 23
    &&& p.minute <= 59
    &&& p.second <= 59
}

/// `a` comes strictly before `b` in time: the calendar fields compare
/// lexicographically from the year down to the second.
pub open spec fn spec_parts_lt(a: DateTimeParts, b: DateTimeParts) -> bool {
    ||| a.year < b.year
    ||| (a.year == b.year && a.month < b.month)
    ||| (a.year == b.year && a.month == b.month && a.day < b.day)
    ||| (a.year == b.year && a.month == b.month && a.day == b.day && a.hour < b.hour)
    ||| (a.year == b.year && a.month == b.month && a.day == b.day && a.hour == b.hour && a.minute
        < b.minute)
    ||| (a.year == b.year && a.month == b.month && a.day == b.day && a.hour == b.hour && a.minute
        == b.minute && a.second < b.second)
}

/// Whether `a` comes strictly before `b` in time.
pub fn parts_lt(a: &DateTimeParts, b: &DateTimeParts) -> (r: bool)
    ensures
        r == spec_parts_lt(*a, *b),
{
    if a.year != b.year {
        a.year < b.year
    } else if a.month != b.month {
        a.month < b.month
    } else if a.day != b.day {
        a.day < b.day
    } else if a.hour != b.hour {
        a.hour < b.hour
    } else if a.minute != b.minute {
        a.minute < b.minute
    } else {
        a.second < b.second
    }
}

/// What the calendar library reads out of a text under a format: a
/// function of the text and the format alone.
pub uninterp spec fn parsed_datetime(text: Seq<char>, format: Seq<char>) -> Option<DateTimeParts>;

/// Relies on chrono's `NaiveDateTime::parse_from_str` and the `Datelike`
/// and `Timelike` accessors: the outcome depends on the text and the
/// format alone, and the calendar fields of a parsed date lie in their
/// documented ranges.
#[verifier::external_body]
pub(crate) fn parse_datetime(text: &str, format: &str) -> (r: Option<DateTimeParts>)
    ensures
        r == parsed_datetime(text@, format@),
        r matches Some(p) ==> parts_in_range(p),
{
    match chrono::NaiveDateTime::parse_from_str(text, format) {
        Ok(d) => Some(
            DateTimeParts {
                year: d.year(),
                month: d.month() as u8,
                day: d.day() as u8,
                hour: d.hour() as u8,
                minute: d.minute() as u8,
                second: d.second() as u8,
            },
        ),
        Err(_) => None,
    }
}

/// What the calendar library prints for given fields under a format: a
/// function of the fields and the format alone, absent when no valid
/// date can be built from the fields or the format cannot be rendered.
pub uninterp spec fn formatted_datetime(p: DateTimeParts, format: Seq<char>) -> Option<Seq<char>>;

/// Relies on chrono's `NaiveDate::from_ymd_opt`, `and_hms_opt` and
/// `format`: the text depends on the fields and the format alone, and no
/// date is built when the month or the day is zero or beyond its bound.
#[verifier::external_body]
pub(crate) fn format_datetime(p: &DateTimeParts, format: &str) -> (r: Option<String>)
    ensures
        r matches Some(s) ==> formatted_datetime(*p, format@) == Some(s@),
        r is Some <==> formatted_datetime(*p, format@) is Some,
        p.month == 0 || p.day == 0 || p.month > 12 || p.day > 31 ==> r is None,
{
    let date = chrono::NaiveDate::from_ymd_opt(p.year, p.month as u32, p.day as u32)?;
    let moment = date.and_hms_opt(p.hour as u32, p.minute as u32, p.second as u32)?;
    let mut out = String::new();
    match write!(out, "{}", moment.format(format)) {
        Ok(()) => Some(out),
        Err(_) => None,
    }
}

} // verus!
