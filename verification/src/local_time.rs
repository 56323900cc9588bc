//! Calendar time as plain numbers, and the three places where the calendar
//! and the machine's time zone are asked: reading a time stamp from text,
//! writing it back, and finding the offset of a local time.

use chrono::{Datelike, Local, LocalResult, NaiveDate, NaiveDateTime, TimeZone, Timelike};
use vstd::prelude::*;

verus! {

/// A date and a time of day on the proleptic Gregorian calendar, not tied to
/// any time zone.
#[derive(Clone, Copy, Debug, PartialEq, Eq)]
pub struct CivilDateTime {
    pub year: i32,
    pub month: u32,
    pub day: u32,
    pub hour: u32,
    pub minute: u32,
    pub second: u32,
    /// Nanoseconds past the second; a leap second is second 59 with a
    /// thousand million or more.
    pub nanosecond: u32,
}

/// A local time together with its distance from UTC.
#[derive(Clone, Copy, Debug, PartialEq, Eq)]
pub struct LocalDateTime {
    /// What the wall clock shows.
    pub civil: CivilDateTime,
    /// Seconds to add to UTC to get the wall clock time.
    pub utc_offset_seconds: i32,
}

/// What a time zone makes of a wall clock time.
#[derive(Clone, Copy, Debug, PartialEq, Eq)]
pub enum LocalResolution {
    /// The wall clock never shows this time (or the date does not exist).
    Nonexistent,
    /// The time occurs once, at this offset from UTC.
    Single(i32),
    /// The time occurs twice, at these two offsets; their order says
    /// nothing.
    Ambiguous(i32, i32),
}

/// The error `chrono` reports for text that is no time stamp.
#[verifier::external_type_specification]
#[verifier::external_body]
pub struct ExParseError(chrono::ParseError);

/// Whether `year` is a leap year.
pub open spec fn is_leap_year(year: int) -> bool {
    year % 4 == 0 && (year % 100 != 0 || year % 400 == 0)
}

/// The number of days of `month` in `year`; 0 for a month that is none.
pub open spec fn days_in_month(year: int, month: int) -> int {
    if month == 2 {
        if is_leap_year(year) {
            29
        } else {
            28
        }
    } else if month == 4 || month == 6 || month == 9 || month == 11 {
        30
    } else if 1 <= month <= 12 {
        31
    } else {
        0
    }
}

/// Whether an offset from UTC is less than a day either way.
pub open spec fn offset_within_a_day(seconds: i32) -> bool {
    -86_400 < seconds < 86_400
}

impl CivilDateTime {
    /// Whether the fields name a date of the calendar, in the years the
    /// calendar library covers, and a time of day.
    pub open spec fn valid(self) -> bool {
        &&& -262_143 <= self.year <= 262_142
        &&& 1 <= self.month <= 12
        &&& 1 <= self.day <= days_in_month(self.year as int, self.month as int)
        &&& self.hour < 24
        &&& self.minute < 60
        &&& self.second < 60
        &&& self.nanosecond < 2_000_000_000
        &&& (self.nanosecond >= 1_000_000_000 ==> self.second == 59)
    }

    /// Whether the fields name a date of the calendar and a time of day.
    pub fn is_valid(&self) -> (r: bool)
        ensures
            r == self.valid(),
    {
        if self.year < -262_143 || self.year > 262_142 {
            return false;
        }
        if self.month < 1 || self.month > 12 {
            return false;
        }
        let leap = self.year % 4 == 0 && (self.year % 100 != 0 || self.year % 400 == 0);
        let days: u32 = if self.month == 2 {
            if leap {
                29
            } else {
                28
            }
        } else if self.month == 4 || self.month == 6 || self.month == 9 || self.month == 11 {
            30
        } else {
            31
        };
        self.day >= 1 && self.day <= days && self.hour < 24 && self.minute < 60 && self.second < 60
            && self.nanosecond < 2_000_000_000 && (self.nanosecond < 1_000_000_000 || self.second
            == 59)
    }
}

impl LocalDateTime {
    /// Whether the wall clock time is valid and the offset less than a day.
    pub open spec fn valid(self) -> bool {
        self.civil.valid() && offset_within_a_day(self.utc_offset_seconds)
    }

    /// Whether the wall clock time is valid and the offset less than a day.
    pub fn is_valid(&self) -> (r: bool)
        ensures
            r == self.valid(),
    {
        self.civil.is_valid() && -86_400 < self.utc_offset_seconds && self.utc_offset_seconds
            < 86_400
    }
}

impl LocalResolution {
    /// Whether every offset in the answer is less than a day.
    pub open spec fn valid(self) -> bool {
        match self {
            LocalResolution::Nonexistent => true,
            LocalResolution::Single(a) => offset_within_a_day(a),
            LocalResolution::Ambiguous(a, b) => offset_within_a_day(a) && offset_within_a_day(b),
        }
    }
}

/// The civil time that `text` writes in the `strftime` layout `format`, as
/// the calendar library reads it; `None` where it reads none.
pub uninterp spec fn naive_reading(text: Seq<char>, format: Seq<char>) -> Option<CivilDateTime>;

/// The text that the calendar library writes for the civil time `value` in
/// the `strftime` layout `format`.
pub uninterp spec fn naive_text(value: CivilDateTime, format: Seq<char>) -> Seq<char>;

/// Reads a civil time from `text` in the layout `format`.
///
/// Trusted: stands for `chrono::NaiveDateTime::parse_from_str`. The result
/// depends on the two texts alone, so it is given the name `naive_reading`;
/// what `chrono` hands back is a date of its calendar and a time of day.
#[verifier::external_body]
pub(crate) fn read_naive(text: &str, format: &str) -> (r: Result<CivilDateTime, chrono::ParseError>)
    ensures
        r is Ok <==> naive_reading(text@, format@) is Some,
        r is Ok ==> naive_reading(text@, format@) == Some(r->Ok_0) && r->Ok_0.valid(),
{
    NaiveDateTime::parse_from_str(text, format).map(
        |n| CivilDateTime {
            year: n.year(),
            month: n.month(),
            day: n.day(),
            hour: n.hour(),
            minute: n.minute(),
            second: n.second(),
            nanosecond: n.nanosecond(),
        },
    )
}

/// Writes the civil time `value` in the layout `format`.
///
/// Trusted: stands for `chrono::NaiveDateTime::format`, which panics on a
/// layout it does not know; the one layout this library uses is asked for.
/// The result depends on the arguments alone and has the name `naive_text`.
#[verifier::external_body]
pub(crate) fn write_naive(value: &CivilDateTime, format: &str) -> (r: String)
    requires
        value.valid(),
        format@ == crate::robocopy::robocopy_start_datetime::ROBOCOPY_START_DATETIME_FMT@,
    ensures
        r@ == naive_text(*value, format@),
{
    let date = NaiveDate::from_ymd_opt(value.year, value.month, value.day);
    let naive = date.and_then(
        |d| d.and_hms_nano_opt(value.hour, value.minute, value.second, value.nanosecond),
    );
    match naive {
        Some(n) => n.format(format).to_string(),
        None => String::new(),
    }
}

/// Asks the machine's time zone for the offset of the wall clock time
/// `value`.
///
/// Trusted: stands for `chrono::Local`'s `from_local_datetime`. The answer
/// depends on the time zone of the machine, so nothing is said of it but
/// that every offset it holds is less than a day.
#[verifier::external_body]
pub(crate) fn local_from_civil(value: &CivilDateTime) -> (r: LocalResolution)
    requires
        value.valid(),
    ensures
        r.valid(),
{
    let date = NaiveDate::from_ymd_opt(value.year, value.month, value.day);
    let naive = date.and_then(
        |d| d.and_hms_nano_opt(value.hour, value.minute, value.second, value.nanosecond),
    );
    match naive.map(|n| Local.from_local_datetime(&n)) {
        Some(LocalResult::Single(a)) => LocalResolution::Single(a.offset().local_minus_utc()),
        Some(LocalResult::Ambiguous(a, b)) => LocalResolution::Ambiguous(
            a.offset().local_minus_utc(),
            b.offset().local_minus_utc(),
        ),
        Some(LocalResult::None) | None => LocalResolution::Nonexistent,
    }
}

/// Asks the machine's time zone for the offset of the wall clock time with
/// the given fields.
///
/// Trusted: stands for `chrono::Local`'s `with_ymd_and_hms`, which answers
/// "no such time" for fields that name no date or no time of day. The answer
/// depends on the time zone of the machine; every offset it holds is less
/// than a day.
#[verifier::external_body]
pub(crate) fn local_from_fields(
    year: i32,
    month: u32,
    day: u32,
    hour: u32,
    minute: u32,
    second: u32,
) -> (r: LocalResolution)
    ensures
        r.valid(),
        !(r is Nonexistent) ==> (CivilDateTime {
            year,
            month,
            day,
            hour,
            minute,
            second,
            nanosecond: 0,
        }).valid(),
{
    match Local.with_ymd_and_hms(year, month, day, hour, minute, second) {
        LocalResult::Single(a) => LocalResolution::Single(a.offset().local_minus_utc()),
        LocalResult::Ambiguous(a, b) => LocalResolution::Ambiguous(
            a.offset().local_minus_utc(),
            b.offset().local_minus_utc(),
        ),
        LocalResult::None => LocalResolution::Nonexistent,
    }
}

} // verus!
