//! Points in time as the catalogue orders them: a calendar date in UTC and the
//! seconds since its midnight.

use vstd::prelude::*;
use crate::error::OrganizerError;

verus! {

/// A point in time, in UTC, to the second.
#[derive(Debug, Clone, Copy, PartialEq, Eq, Structural)]
pub struct EntryDate {
    /// Calendar year.
    pub year: i32,
    /// Month of the year, from 1.
    pub month: u32,
    /// Day of the month, from 1.
    pub day: u32,
    /// Seconds since midnight.
    pub second: u32,
}

impl EntryDate {
    /// Whether `self` is strictly earlier than `other`: dates are ordered by
    /// year, then month, then day, then second.
    pub open spec fn lt(self, other: EntryDate) -> bool {
        ||| self.year < other.year
        ||| self.year == other.year && self.month < other.month
        ||| self.year == other.year && self.month == other.month && self.day < other.day
        ||| self.year == other.year && self.month == other.month && self.day == other.day
            && self.second < other.second
    }

    /// Whether `self` is not later than `other`.
    pub open spec fn le(self, other: EntryDate) -> bool {
        !other.lt(self)
    }

    /// Whether `self` is strictly earlier than `other`.
    pub fn before(&self, other: &EntryDate) -> (r: bool)
        ensures
            r == self.lt(*other),
    {
        if self.year != other.year {
            self.year < other.year
        } else if self.month != other.month {
            self.month < other.month
        } else if self.day != other.day {
            self.day < other.day
        } else {
            self.second < other.second
        }
    }

    /// The time of day as hour, minute and second, for a date whose seconds
    /// since midnight lie within a day.
    pub fn clock(&self) -> (r: (u32, u32, u32))
        ensures
            r.0 == self.second / 3600,
            r.1 == (self.second / 60) % 60,
            r.2 == self.second % 60,
    {
        (self.second / 3600, (self.second / 60) % 60, self.second % 60)
    }

    /// The date that a timestamp stands for, given the calendar fields
    /// `civil` computed for it: `None` there means that the timestamp is out
    /// of range.
    pub fn from_timestamp_fields(secs: i64, civil: Option<(i32, u32, u32, u32)>) -> (r: Result<
        EntryDate,
        OrganizerError,
    >)
        ensures
            r == timestamp_date(secs, civil),
    {
        match civil {
            Some(f) => Ok(EntryDate { year: f.0, month: f.1, day: f.2, second: f.3 }),
            None => Err(OrganizerError::TimestampOutOfRange(secs)),
        }
    }

    /// The date that the upload date `text` stands for, given the calendar
    /// day `day` that was read from it: midnight of that day, or an error
    /// that holds the text where it denotes no day.
    pub fn from_upload_day(text: &str, day: Option<(i32, u32, u32)>) -> (r: Result<
        EntryDate,
        OrganizerError,
    >)
        ensures
            match r {
                Ok(d) => day is Some && d == midnight_of(day->0),
                Err(e) => day is None && is_upload_date_error(text@, e),
            },
    {
        match day {
            Some(day) => Ok(EntryDate::midnight(day)),
            None => Err(OrganizerError::WrongUploadDate(text.to_owned())),
        }
    }

    /// Midnight of the calendar day `day`.
    pub fn midnight(day: (i32, u32, u32)) -> (r: EntryDate)
        ensures
            r == midnight_of(day),
    {
        EntryDate { year: day.0, month: day.1, day: day.2, second: 0 }
    }
}

/// The outcome of resolving the timestamp `secs`, whose calendar fields are
/// `civil`.
pub open spec fn timestamp_date(secs: i64, civil: Option<(i32, u32, u32, u32)>) -> Result<
    EntryDate,
    OrganizerError,
> {
    match civil {
        Some(f) => Ok(EntryDate { year: f.0, month: f.1, day: f.2, second: f.3 }),
        None => Err(OrganizerError::TimestampOutOfRange(secs)),
    }
}

/// Whether `e` is the error for the upload date `text`.
pub open spec fn is_upload_date_error(text: Seq<char>, e: OrganizerError) -> bool {
    e matches OrganizerError::WrongUploadDate(t) && t@ == text
}

/// Midnight of the calendar day given as year, month and day.
pub open spec fn midnight_of(day: (i32, u32, u32)) -> EntryDate {
    EntryDate { year: day.0, month: day.1, day: day.2, second: 0 }
}

/// The calendar fields (year, month, day, seconds since midnight) of the UTC
/// instant that lies `secs` seconds after the Unix epoch, or `None` where that
/// instant is outside the range of representable dates.
pub uninterp spec fn utc_fields(secs: i64) -> Option<(i32, u32, u32, u32)>;

/// The calendar day (year, month, day) that `text` denotes when read as a
/// year, a two-digit month and a two-digit day written one after the other,
/// or `None` where it denotes no day.
pub uninterp spec fn compact_day(text: Seq<char>) -> Option<(i32, u32, u32)>;

/// chrono's `ParseError`, the error with which it refuses a text. Nothing is
/// read off it.
#[verifier::external_type_specification]
#[verifier::external_body]
pub struct ExParseError(chrono::ParseError);

/// Calls chrono's `DateTime::from_timestamp` with no nanoseconds and reads the
/// year, month, day and seconds since midnight off its result. The contract
/// names that result `utc_fields`; it states nothing else of it.
#[verifier::external_body]
pub(crate) fn civil_from_timestamp(secs: i64) -> (r: Option<(i32, u32, u32, u32)>)
    ensures
        r == utc_fields(secs),
{
    match chrono::DateTime::from_timestamp(secs, 0) {
        Some(t) => Some(
            (
                chrono::Datelike::year(&t),
                chrono::Datelike::month(&t),
                chrono::Datelike::day(&t),
                chrono::Timelike::num_seconds_from_midnight(&t),
            ),
        ),
        None => None,
    }
}

/// Calls chrono's `NaiveDate::parse_from_str` with the format `%Y%m%d` and
/// reads year, month and day off the date it returns. The contract names the
/// day `compact_day`, and says that the call fails exactly where there is none.
#[verifier::external_body]
pub(crate) fn day_from_compact(text: &str) -> (r: Result<(i32, u32, u32), chrono::ParseError>)
    ensures
        match r {
            Ok(day) => compact_day(text@) == Some(day),
            Err(_) => compact_day(text@) is None,
        },
{
    match chrono::NaiveDate::parse_from_str(text, "%Y%m%d") {
        Ok(d) => Ok((chrono::Datelike::year(&d), chrono::Datelike::month(&d), chrono::Datelike::day(&d))),
        Err(e) => Err(e),
    }
}

/// The order on dates is total: of two different dates one is earlier, and
/// never both.
pub proof fn lemma_date_order_total(a: EntryDate, b: EntryDate)
    ensures
        a.lt(b) || b.lt(a) || a == b,
        !(a.lt(b) && b.lt(a)),
{
}

/// The order on dates is transitive.
pub proof fn lemma_date_order_transitive(a: EntryDate, b: EntryDate, c: EntryDate)
    ensures
        a.lt(b) && b.lt(c) ==> a.lt(c),
        a.le(b) && b.le(c) ==> a.le(c),
        a.le(b) && b.lt(c) ==> a.lt(c),
        a.lt(b) && b.le(c) ==> a.lt(c),
{
}

/// A later date never lies in an earlier year.
pub proof fn lemma_year_follows_date(a: EntryDate, b: EntryDate)
    requires
        a.le(b),
    ensures
        a.year <= b.year,
{
}

} // verus!
