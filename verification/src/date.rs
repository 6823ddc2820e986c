//! Calendar dates and instants as plain numbers, and their ISO text.

use vstd::prelude::*;
use vstd::string::StrSliceExecFns;
use vstd::string::StringExecFns;
use crate::text::is_ascii_digit;
use crate::text::is_digit;
use crate::text::to_chars;

verus! {

/// Milliseconds in one day.
pub const MILLIS_PER_DAY: i64 = 86_400_000;

/// A calendar date: the number of days since 1970-01-01, which is day 0.
#[derive(Debug, Clone, Copy, PartialEq, Eq, Structural, Hash)]
pub struct Date {
    pub days: i64,
}

/// An instant: milliseconds since 1970-01-01T00:00:00 UTC.
#[derive(Debug, Clone, Copy, PartialEq, Eq, Structural, Hash)]
pub struct Timestamp {
    pub millis: i64,
}

/// The text `chrono` writes for a day with the format `%Y-%m-%d`, where it
/// can represent the day.
pub uninterp spec fn iso_date_text(days: int) -> Option<Seq<char>>;

/// The day that `chrono` reads from a text with the format `%Y-%m-%d`, where
/// it accepts the text.
pub uninterp spec fn parsed_iso_date(text: Seq<char>) -> Option<int>;

/// The UTC day of the instant that `chrono` reads from a text written after
/// RFC 3339, with date, time and offset, where it accepts the text.
pub uninterp spec fn rfc3339_utc_day(text: Seq<char>) -> Option<int>;

/// Calls `chrono::NaiveDate::from_epoch_days` and, on the date it gives,
/// `format("%Y-%m-%d")`. The contract only names the outcome: `None` where
/// `chrono` has no such date, else the text it wrote.
#[verifier::external_body]
fn chrono_format_date(days: i32) -> (r: Option<String>)
    ensures
        r is Some <==> iso_date_text(days as int) is Some,
        r matches Some(s) ==> iso_date_text(days as int) == Some(s@),
{
    match chrono::NaiveDate::from_epoch_days(days) {
        Some(date) => Some(date.format("%Y-%m-%d").to_string()),
        None => None,
    }
}

/// Calls `chrono::NaiveDate::parse_from_str` with the format `%Y-%m-%d` and
/// gives the day number of the date read, `None` where `chrono` refuses the
/// text. The contract only names the outcome.
#[verifier::external_body]
fn chrono_parse_date(text: &str) -> (r: Option<i32>)
    ensures
        r is Some <==> parsed_iso_date(text@) is Some,
        r matches Some(d) ==> parsed_iso_date(text@) == Some(d as int),
{
    match chrono::NaiveDate::parse_from_str(text, "%Y-%m-%d") {
        Ok(date) => Some(date.to_epoch_days()),
        Err(_) => None,
    }
}

/// Calls `chrono::DateTime::parse_from_rfc3339` and gives two days of the
/// instant read: the day on which it falls in UTC, and the day on which it
/// falls in the machine's own time zone. The contract names the first. Of the
/// second, which depends on the machine, it claims only what holds in every
/// time zone: an offset is less than a day, so the local day is the UTC day,
/// the day before or the day after.
#[verifier::external_body]
fn chrono_parse_rfc3339_local(text: &str) -> (r: Option<(i32, i32)>)
    ensures
        r is Some <==> rfc3339_utc_day(text@) is Some,
        r matches Some(days) ==> rfc3339_utc_day(text@) == Some(days.0 as int) && days.0 - 1
            <= days.1 <= days.0 + 1,
{
    match chrono::DateTime::parse_from_rfc3339(text) {
        Ok(instant) => Some(
            (
                instant.naive_utc().date().to_epoch_days(),
                instant.with_timezone(&chrono::Local).date_naive().to_epoch_days(),
            ),
        ),
        Err(_) => None,
    }
}

impl Date {
    /// What `format` returns for a day number.
    pub open spec fn text_of(days: int) -> Option<Seq<char>> {
        if i32::MIN <= days <= i32::MAX {
            iso_date_text(days)
        } else {
            None
        }
    }

    /// What `parse` returns for a text.
    pub open spec fn parsed(text: Seq<char>) -> Option<Date> {
        match parsed_iso_date(text) {
            Some(d) => Some(Date { days: d as i64 }),
            None => None,
        }
    }

    /// The date as `YYYY-MM-DD`, or `None` for a day that has no such text.
    pub fn format(&self) -> (r: Option<String>)
        ensures
            r is Some <==> Date::text_of(self.days as int) is Some,
            r matches Some(s) ==> Date::text_of(self.days as int) == Some(s@),
    {
        if self.days < -2147483648 || self.days > 2147483647 {
            None
        } else {
            chrono_format_date(self.days as i32)
        }
    }

    /// Reads a date written as `YYYY-MM-DD`.
    pub fn parse(text: &str) -> (r: Option<Date>)
        ensures
            r is Some <==> Date::parsed(text@) is Some,
            r matches Some(d) ==> parsed_iso_date(text@) == Some(d.days as int),
    {
        match chrono_parse_date(text) {
            Some(d) => Some(Date { days: d as i64 }),
            None => None,
        }
    }

    /// The day after this one.
    pub fn succ(self) -> (r: Date)
        requires
            self.days < i64::MAX,
        ensures
            r.days == self.days + 1,
    {
        Date { days: self.days + 1 }
    }

    /// The date `n` days before this one.
    pub fn minus_days(self, n: i64) -> (r: Date)
        requires
            i64::MIN <= self.days - n <= i64::MAX,
        ensures
            r.days == self.days - n,
    {
        Date { days: self.days - n }
    }

    /// The earlier of two dates.
    pub fn min(self, other: Date) -> (r: Date)
        ensures
            r == (if self.days <= other.days { self } else { other }),
    {
        if self.days <= other.days {
            self
        } else {
            other
        }
    }
}

impl Timestamp {
    /// The UTC calendar day, as a day number, in which an instant falls.
    pub open spec fn day_of(millis: int) -> int {
        millis / 86_400_000
    }

    /// The UTC calendar date in which the instant falls.
    pub fn date(self) -> (r: Date)
        ensures
            r.days == Timestamp::day_of(self.millis as int),
    {
        let q: i64 = self.millis / MILLIS_PER_DAY;
        let rem: i64 = self.millis % MILLIS_PER_DAY;
        if rem < 0 {
            Date { days: q - 1 }
        } else {
            Date { days: q }
        }
    }

    /// Milliseconds from `earlier` to this instant.
    pub fn millis_since(self, earlier: Timestamp) -> (r: i128)
        ensures
            r == self.millis - earlier.millis,
    {
        self.millis as i128 - earlier.millis as i128
    }
}

/// Why a text was not taken as a date.
#[derive(Debug, Clone, Copy, PartialEq, Eq, Structural)]
pub enum DateError {
    /// The text does not begin with four digits, a hyphen, two digits, a
    /// hyphen and two digits.
    InvalidFormat,
    /// The text has that shape but names no day of the calendar.
    InvalidDate,
}

impl DateError {
    /// The message of the refusal.
    pub fn to_string(&self) -> (r: String)
        ensures
            r@ == (match *self {
                DateError::InvalidFormat => "invalid date format"@,
                DateError::InvalidDate => "invalid date"@,
            }),
    {
        match self {
            DateError::InvalidFormat => String::from_str("invalid date format"),
            DateError::InvalidDate => String::from_str("invalid date"),
        }
    }
}

/// Whether a text begins like `2024-04-10`: four digits, a hyphen, two
/// digits, a hyphen, two digits.
pub open spec fn has_date_shape(s: Seq<char>) -> bool {
    &&& s.len() >= 10
    &&& s[4] == '-'
    &&& s[7] == '-'
    &&& is_digit(s[0]) && is_digit(s[1]) && is_digit(s[2]) && is_digit(s[3])
    &&& is_digit(s[5]) && is_digit(s[6])
    &&& is_digit(s[8]) && is_digit(s[9])
}

/// What a non-empty date text stands for, given the day that it names as a
/// full instant with an offset, if it is written as one.
pub open spec fn date_of_text(s: Seq<char>, as_instant: Option<Date>) -> Result<
    Option<Date>,
    DateError,
> {
    match as_instant {
        Some(d) => Ok(Some(d)),
        None => if has_date_shape(s) {
            match Date::parsed(s.take(10)) {
                Some(d) => Ok(Some(d)),
                None => Err(DateError::InvalidDate),
            }
        } else {
            Err(DateError::InvalidFormat)
        },
    }
}

/// Decides what a non-empty date text stands for. `as_instant` is the day
/// that the text names where it is a full instant with an offset; such a text
/// stands for that day. Any other text must begin with a calendar date, and
/// what follows the date is ignored.
pub fn date_from_text(s: &str, as_instant: Option<Date>) -> (r: Result<Option<Date>, DateError>)
    ensures
        r == date_of_text(s@, as_instant),
{
    if let Some(d) = as_instant {
        return Ok(Some(d));
    }
    let chars = to_chars(s);
    let shaped = chars.len() >= 10 && chars[4] == '-' && chars[7] == '-' && is_ascii_digit(
        chars[0],
    ) && is_ascii_digit(chars[1]) && is_ascii_digit(chars[2]) && is_ascii_digit(chars[3])
        && is_ascii_digit(chars[5]) && is_ascii_digit(chars[6]) && is_ascii_digit(chars[8])
        && is_ascii_digit(chars[9]);
    if !shaped {
        return Err(DateError::InvalidFormat);
    }
    let head = s.substring_char(0, 10);
    assert(head@ =~= s@.take(10));
    match Date::parse(head) {
        Some(d) => Ok(Some(d)),
        None => Err(DateError::InvalidDate),
    }
}

/// Reads a date field that may be missing or empty. A missing or empty field
/// is no date. A full instant with an offset stands for the day on which it
/// falls in the time zone of the machine, which is its UTC day or a day next
/// to it; any other text must begin with a calendar date.
pub fn parse_optional_date(text: Option<&str>) -> (r: Result<Option<Date>, DateError>)
    ensures
        (text is None || text->Some_0@.len() == 0) ==> r == Ok::<Option<Date>, DateError>(None),
        (text matches Some(s) && s@.len() > 0) ==> match rfc3339_utc_day(text->Some_0@) {
            Some(utc_day) => r matches Ok(Some(day)) && utc_day - 1 <= day.days <= utc_day + 1,
            None => r == date_of_text(text->Some_0@, None),
        },
{
    match text {
        None => Ok(None),
        Some(s) => {
            if s.unicode_len() == 0 {
                Ok(None)
            } else {
                let as_instant = match chrono_parse_rfc3339_local(s) {
                    Some(days) => Some(Date { days: days.1 as i64 }),
                    None => None,
                };
                date_from_text(s, as_instant)
            }
        },
    }
}

/// Reads the days of a map from date text to amount. Every key must be a
/// calendar date; the amounts are kept beside the dates, in the order given.
pub fn parse_date_map(entries: &Vec<(String, u32)>) -> (r: Result<Vec<(Date, u32)>, DateError>)
    ensures
        r is Ok <==> (forall|i: int|
            0 <= i < entries@.len() ==> Date::parsed(#[trigger] entries@[i].0@) is Some),
        r matches Ok(days) ==> {
            &&& days@.len() == entries@.len()
            &&& forall|i: int|
                0 <= i < entries@.len() ==> Some((#[trigger] days@[i]).0) == Date::parsed(
                    entries@[i].0@,
                ) && days@[i].1 == entries@[i].1
        },
        r matches Err(e) ==> e == DateError::InvalidDate,
{
    let mut days: Vec<(Date, u32)> = Vec::new();
    let n = entries.len();
    let mut i: usize = 0;
    while i < n
        invariant
            n == entries@.len(),
            i <= n,
            days@.len() == i,
            forall|k: int|
                0 <= k < i ==> Some((#[trigger] days@[k]).0) == Date::parsed(entries@[k].0@)
                    && days@[k].1 == entries@[k].1,
            forall|k: int| 0 <= k < i ==> Date::parsed(#[trigger] entries@[k].0@) is Some,
        decreases n - i,
    {
        match Date::parse(entries[i].0.as_str()) {
            Some(d) => {
                days.push((d, entries[i].1));
            },
            None => {
                return Err(DateError::InvalidDate);
            },
        }
        i += 1;
    }
    Ok(days)
}

} // verus!
