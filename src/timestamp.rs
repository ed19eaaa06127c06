//! Dates and times without time zone, as their calendar fields.
use chrono::Datelike;
use chrono::Timelike;
use vstd::prelude::*;

verus! {

/// Smallest year of the proleptic Gregorian calendar that a timestamp may carry.
pub const MIN_YEAR: i32 = -262143;

/// Largest year of the proleptic Gregorian calendar that a timestamp may carry.
pub const MAX_YEAR: i32 = 262142;

pub open spec fn is_leap_year(year: int) -> bool {
    (year % 4 == 0 && year % 100 != 0) || year % 400 == 0
}

pub open spec fn days_in_month(year: int, month: int) -> int {
    if month == 2 {
        if is_leap_year(year) { 29 } else { 28 }
    } else if month == 4 || month == 6 || month == 9 || month == 11 {
        30
    } else {
        31
    }
}

/// A calendar date and time of day that exists: a nanosecond count of a
/// second or more stands for a leap second and is only allowed on second 59.
pub open spec fn valid_datetime(
    year: i32,
    month: u32,
    day: u32,
    hour: u32,
    minute: u32,
    second: u32,
    nanosecond: u32,
) -> bool {
    &&& MIN_YEAR <= year <= MAX_YEAR
    &&& 1 <= month <= 12
    &&& 1 <= day <= days_in_month(year as int, month as int)
    &&& hour < 24 && minute < 60 && second < 60
    &&& nanosecond < 2_000_000_000
    &&& (nanosecond >= 1_000_000_000 ==> second == 59)
}

/// A date and time without time zone, kept as its calendar fields.
#[derive(Debug, Clone, Copy, PartialEq, Eq, Structural)]
pub struct Timestamp {
    year: i32,
    month: u32,
    day: u32,
    hour: u32,
    minute: u32,
    second: u32,
    nanosecond: u32,
}

/// The text that chrono writes for a timestamp in the form
/// `%Y-%m-%d %H:%M:%S%.f`: a fraction of a second only when there is one.
pub uninterp spec fn datetime_text(t: Timestamp) -> Seq<char>;

/// What chrono's `NaiveDateTime::parse_from_str` reads from a text in a format.
pub uninterp spec fn datetime_parsed(s: Seq<char>, fmt: Seq<char>) -> Option<Timestamp>;

impl Timestamp {
    pub open spec fn valid(self) -> bool {
        valid_datetime(
            self.spec_year(),
            self.spec_month(),
            self.spec_day(),
            self.spec_hour(),
            self.spec_minute(),
            self.spec_second(),
            self.spec_nanosecond(),
        )
    }

    #[verifier::type_invariant]
    pub open spec fn inv(self) -> bool {
        self.valid()
    }

    pub closed spec fn spec_year(self) -> i32 {
        self.year
    }

    pub closed spec fn spec_month(self) -> u32 {
        self.month
    }

    pub closed spec fn spec_day(self) -> u32 {
        self.day
    }

    pub closed spec fn spec_hour(self) -> u32 {
        self.hour
    }

    pub closed spec fn spec_minute(self) -> u32 {
        self.minute
    }

    pub closed spec fn spec_second(self) -> u32 {
        self.second
    }

    pub closed spec fn spec_nanosecond(self) -> u32 {
        self.nanosecond
    }

    /// The timestamp of the given fields, or `None` when that date or time
    /// does not exist.
    pub fn from_ymd_hms_nano_opt(
        year: i32,
        month: u32,
        day: u32,
        hour: u32,
        minute: u32,
        second: u32,
        nanosecond: u32,
    ) -> (r: Option<Timestamp>)
        ensures
            r is Some <==> valid_datetime(year, month, day, hour, minute, second, nanosecond),
            r matches Some(t) ==> t.spec_year() == year && t.spec_month() == month && t.spec_day() == day
                && t.spec_hour() == hour && t.spec_minute() == minute && t.spec_second() == second
                && t.spec_nanosecond() == nanosecond,
    {
        if chrono_accepts(year, month, day, hour, minute, second, nanosecond) {
            Some(Timestamp { year, month, day, hour, minute, second, nanosecond })
        } else {
            None
        }
    }

    /// The timestamp of the given fields at a whole second, or `None` when
    /// that date or time does not exist.
    pub fn from_ymd_hms_opt(year: i32, month: u32, day: u32, hour: u32, minute: u32, second: u32) -> (r:
        Option<Timestamp>)
        ensures
            r is Some <==> valid_datetime(year, month, day, hour, minute, second, 0),
            r matches Some(t) ==> t.spec_year() == year && t.spec_month() == month && t.spec_day() == day
                && t.spec_hour() == hour && t.spec_minute() == minute && t.spec_second() == second
                && t.spec_nanosecond() == 0,
    {
        Self::from_ymd_hms_nano_opt(year, month, day, hour, minute, second, 0)
    }

    pub fn year(&self) -> (r: i32)
        ensures
            r == self.spec_year(),
    {
        self.year
    }

    pub fn month(&self) -> (r: u32)
        ensures
            r == self.spec_month(),
    {
        self.month
    }

    pub fn day(&self) -> (r: u32)
        ensures
            r == self.spec_day(),
    {
        self.day
    }

    pub fn hour(&self) -> (r: u32)
        ensures
            r == self.spec_hour(),
    {
        self.hour
    }

    pub fn minute(&self) -> (r: u32)
        ensures
            r == self.spec_minute(),
    {
        self.minute
    }

    pub fn second(&self) -> (r: u32)
        ensures
            r == self.spec_second(),
    {
        self.second
    }

    pub fn nanosecond(&self) -> (r: u32)
        ensures
            r == self.spec_nanosecond(),
    {
        self.nanosecond
    }
}

/// Relies on chrono's `NaiveDate::from_ymd_opt` and `NaiveDate::and_hms_nano_opt`:
/// both succeed exactly on the dates and times that exist.
#[verifier::external_body]
fn chrono_accepts(
    year: i32,
    month: u32,
    day: u32,
    hour: u32,
    minute: u32,
    second: u32,
    nanosecond: u32,
) -> (r: bool)
    ensures
        r == valid_datetime(year, month, day, hour, minute, second, nanosecond),
{
    chrono::NaiveDate::from_ymd_opt(year, month, day)
        .and_then(|date| date.and_hms_nano_opt(hour, minute, second, nanosecond))
        .is_some()
}

/// Relies on chrono's `NaiveDateTime::format` with `%Y-%m-%d %H:%M:%S%.f`;
/// building the value succeeds on a timestamp that exists.
#[verifier::external_body]
pub(crate) fn format_datetime(t: &Timestamp) -> (r: String)
    requires
        t.valid(),
    ensures
        r@ == datetime_text(*t),
{
    let date = chrono::NaiveDate::from_ymd_opt(t.year, t.month, t.day);
    let time = date.and_then(|d| d.and_hms_nano_opt(t.hour, t.minute, t.second, t.nanosecond));
    time.map(|dt| dt.format("%Y-%m-%d %H:%M:%S%.f").to_string()).unwrap_or_default()
}

/// Relies on chrono's `NaiveDateTime::parse_from_str`: what it reads is a
/// date and time that exists, and in the form `%Y-%m-%d %H:%M:%S%.f` it
/// reads back what `format_datetime` writes (a signed year, second 60 of a
/// leap second and the optional fraction included).
#[verifier::external_body]
fn parse_with_format(s: &str, fmt: &str) -> (r: Option<Timestamp>)
    ensures
        r == datetime_parsed(s@, fmt@),
        r matches Some(t) ==> t.valid(),
        forall|t: Timestamp|
            t.valid() && #[trigger] datetime_text(t) == s@ && fmt@ == "%Y-%m-%d %H:%M:%S%.f"@ ==> r
                == Some(t),
{
    chrono::NaiveDateTime::parse_from_str(s, fmt).ok().map(|dt| Timestamp {
        year: dt.year(),
        month: dt.month(),
        day: dt.day(),
        hour: dt.hour(),
        minute: dt.minute(),
        second: dt.second(),
        nanosecond: dt.nanosecond(),
    })
}

/// Reads a date and time in the form that `format_datetime` writes;
/// `None` when the text is not one.
pub fn parse_datetime(s: &str) -> (r: Option<Timestamp>)
    ensures
        r == datetime_parsed(s@, "%Y-%m-%d %H:%M:%S%.f"@),
        r matches Some(t) ==> t.valid(),
        forall|t: Timestamp| t.valid() && #[trigger] datetime_text(t) == s@ ==> r == Some(t),
{
    parse_with_format(s, "%Y-%m-%d %H:%M:%S%.f")
}

/// Reads an end date written as `%Y-%m-%d %H:%M:%S`; `None` when the text
/// is not a date and time in that form.
pub fn parse_end_date(s: &str) -> (r: Option<Timestamp>)
    ensures
        r == datetime_parsed(s@, "%Y-%m-%d %H:%M:%S"@),
{
    parse_with_format(s, "%Y-%m-%d %H:%M:%S")
}

} // verus!
