//! UTC instants and the calendar days they fall on.

use vstd::prelude::*;

verus! {

/// The earliest and the latest millisecond, counted from the Unix epoch, that a UTC date-time can
/// hold.
pub const MINIMUM_UNIX_MILLISECONDS: i64 = -8_334_601_228_800_000;

pub const MAXIMUM_UNIX_MILLISECONDS: i64 = 8_210_266_876_799_999;

pub const MILLISECONDS_PER_DAY: i64 = 86_400_000;

/// Whether a UTC date-time can hold this many milliseconds since the Unix epoch.
pub open spec fn utc_representable(milliseconds: int) -> bool {
    MINIMUM_UNIX_MILLISECONDS <= milliseconds <= MAXIMUM_UNIX_MILLISECONDS
}

/// The day, counted from the Unix epoch, that an instant falls on in UTC.
pub open spec fn utc_day(milliseconds: int) -> int {
    milliseconds / (MILLISECONDS_PER_DAY as int)
}

/// Whether a year of the Gregorian calendar has a leap day.
pub open spec fn is_leap_year(year: int) -> bool {
    year % 4 == 0 && (year % 100 != 0 || year % 400 == 0)
}

/// How many days a month has.
pub open spec fn month_days(year: int, month: int) -> int {
    if month == 2 {
        if is_leap_year(year) {
            29
        } else {
            28
        }
    } else if month == 4 || month == 6 || month == 9 || month == 11 {
        30
    } else {
        31
    }
}

/// How many days of a year come before a month.
pub open spec fn days_before_month(year: int, month: int) -> int
    decreases month,
{
    if month <= 1 {
        0
    } else {
        days_before_month(year, month - 1) + month_days(year, month - 1)
    }
}

/// How many days come before a year, counted from the Unix epoch.
pub open spec fn days_before_year(year: int) -> int {
    // 477 leap days fall in the years from 1 to 1969.
    365 * (year - 1970) + (year - 1) / 4 - (year - 1) / 100 + (year - 1) / 400 - 477
}

/// Whether a year, a month and a day of month are the date of a day counted from the Unix epoch.
pub open spec fn is_date_of(date: (i32, u32, u32), day: int) -> bool {
    let (year, month, day_of_month) = date;
    &&& 1 <= month <= 12
    &&& 1 <= day_of_month <= month_days(year as int, month as int)
    &&& days_before_year(year as int) + days_before_month(year as int, month as int) + day_of_month
        - 1 == day
}

proof fn lemma_year_length(year: int)
    ensures
        days_before_year(year + 1) == days_before_year(year) + days_before_month(year, 13),
        days_before_month(year, 13) >= 365,
{
    reveal_with_fuel(days_before_month, 13);
}

proof fn lemma_years_follow(earlier: int, later: int)
    requires
        earlier < later,
    ensures
        days_before_year(earlier) + days_before_month(earlier, 13) <= days_before_year(later),
    decreases later - earlier,
{
    lemma_year_length(earlier);
    if earlier + 1 < later {
        lemma_years_follow(earlier + 1, later);
        lemma_year_length(earlier + 1);
    }
}

proof fn lemma_months_follow(year: int, earlier: int, later: int)
    requires
        1 <= earlier < later,
    ensures
        0 <= days_before_month(year, earlier),
        days_before_month(year, earlier) + month_days(year, earlier) <= days_before_month(
            year,
            later,
        ),
    decreases later,
{
    if earlier > 1 {
        lemma_months_follow(year, earlier - 1, earlier);
    }
    if earlier + 1 < later {
        lemma_months_follow(year, earlier, later - 1);
    }
}

/// A day has only one date.
pub proof fn dates_are_unique(date: (i32, u32, u32), other: (i32, u32, u32), day: int)
    requires
        is_date_of(date, day),
        is_date_of(other, day),
    ensures
        date == other,
{
    lemma_months_follow(date.0 as int, date.1 as int, 13);
    lemma_months_follow(other.0 as int, other.1 as int, 13);
    if date.0 < other.0 {
        lemma_years_follow(date.0 as int, other.0 as int);
    } else if other.0 < date.0 {
        lemma_years_follow(other.0 as int, date.0 as int);
    } else if date.1 < other.1 {
        lemma_months_follow(date.0 as int, date.1 as int, other.1 as int);
    } else if other.1 < date.1 {
        lemma_months_follow(date.0 as int, other.1 as int, date.1 as int);
    }
}

/// Calls `chrono::DateTime::from_timestamp_millis` and takes the date's day number. Claimed of it:
/// it returns a date-time exactly for the representable milliseconds, and that date-time falls on
/// the day obtained by dividing them by the length of a day, rounding down.
#[verifier::external_body]
fn timestamp_day(milliseconds: i64) -> (day: Option<i32>)
    ensures
        day is Some <==> utc_representable(milliseconds as int),
        day matches Some(d) ==> d == utc_day(milliseconds as int),
{
    chrono::DateTime::from_timestamp_millis(milliseconds)
        .map(|timestamp| timestamp.date_naive().to_epoch_days())
}

/// Calls `chrono::NaiveDate::from_epoch_days`. Claimed of it: on the days that hold a
/// representable instant it returns the date of that day in the Gregorian calendar.
#[verifier::external_body]
fn date_parts(day: i32) -> (parts: Option<(i32, u32, u32)>)
    requires
        utc_day(MINIMUM_UNIX_MILLISECONDS as int) <= day <= utc_day(MAXIMUM_UNIX_MILLISECONDS as int),
    ensures
        parts is Some,
        is_date_of(parts->0, day as int),
{
    chrono::NaiveDate::from_epoch_days(day).map(
        |date|
            (
                chrono::Datelike::year(&date),
                chrono::Datelike::month(&date),
                chrono::Datelike::day(&date),
            ),
    )
}

/// The day on which an instant falls, or `None` if a UTC date-time cannot hold the instant.
pub fn day_of(milliseconds: i64) -> (day: Option<i32>)
    ensures
        day is Some <==> utc_representable(milliseconds as int),
        day matches Some(d) ==> d == utc_day(milliseconds as int),
{
    timestamp_day(milliseconds)
}

/// The year, month and day of month of a day that holds a representable instant.
pub fn date_of(day: i32) -> (date: (i32, u32, u32))
    requires
        utc_day(MINIMUM_UNIX_MILLISECONDS as int) <= day <= utc_day(MAXIMUM_UNIX_MILLISECONDS as int),
    ensures
        is_date_of(date, day as int),
{
    match date_parts(day) {
        Some(parts) => parts,
        None => (0, 0, 0),
    }
}

/// The day, counted from the Unix epoch, that a text of the form year, month and day denotes.
pub uninterp spec fn date_day(text: Seq<char>) -> Option<i32>;

/// The text of a day counted from the Unix epoch.
pub uninterp spec fn date_text(day: i32) -> Seq<char>;

/// Calls `chrono::NaiveDate::parse_from_str` with the format `%Y-%m-%d`. Claimed of it: whether the
/// text is accepted, and which day it denotes, depends on the text alone.
#[verifier::external_body]
pub(crate) fn parse_date(text: &str) -> (day: Option<i32>)
    ensures
        day == date_day(text@),
{
    chrono::NaiveDate::parse_from_str(text, "%Y-%m-%d").ok().map(|date| date.to_epoch_days())
}

/// Calls `chrono::NaiveDate::from_epoch_days` and the `to_string` of the date. Claimed of it: on
/// the days that hold a representable instant it returns a text that depends on the day alone, and
/// parsing that text gives the day back.
#[verifier::external_body]
pub(crate) fn format_date(day: i32) -> (text: Option<String>)
    requires
        utc_day(MINIMUM_UNIX_MILLISECONDS as int) <= day <= utc_day(MAXIMUM_UNIX_MILLISECONDS as int),
    ensures
        text is Some,
        text->0@ == date_text(day),
        date_day(text->0@) == Some(day),
{
    chrono::NaiveDate::from_epoch_days(day).map(|date| date.to_string())
}

/// What an RFC 3339 date-time denotes: its milliseconds since the Unix epoch, and the nanoseconds
/// within its second.
pub uninterp spec fn rfc3339_instant(text: Seq<char>) -> Option<(i64, u32)>;

/// Calls `chrono::DateTime::parse_from_rfc3339`. Claimed of it: whether the text is accepted, and
/// which instant it denotes, depends on the text alone.
#[verifier::external_body]
pub(crate) fn parse_rfc3339(text: &str) -> (instant: Option<(i64, u32)>)
    ensures
        instant == rfc3339_instant(text@),
{
    chrono::DateTime::parse_from_rfc3339(text).ok().map(
        |parsed| (parsed.timestamp_millis(), chrono::Timelike::nanosecond(&parsed)),
    )
}

/// The millisecond that a parsed date-time falls on, if it is a whole millisecond that a UTC
/// date-time can hold.
pub open spec fn whole_millisecond(instant: Option<(i64, u32)>) -> Option<i64> {
    match instant {
        Some((milliseconds, nanosecond)) => if nanosecond % 1_000_000 == 0 && utc_representable(
            milliseconds as int,
        ) {
            Some(milliseconds)
        } else {
            None
        },
        None => None,
    }
}

/// Keeps a parsed date-time only if it is a whole, representable millisecond.
pub fn accept_whole_millisecond(instant: Option<(i64, u32)>) -> (r: Option<i64>)
    ensures
        r == whole_millisecond(instant),
{
    match instant {
        Some((milliseconds, nanosecond)) => {
            if nanosecond % 1_000_000 != 0 {
                return None;
            }
            match day_of(milliseconds) {
                Some(_) => Some(milliseconds),
                None => None,
            }
        },
        None => None,
    }
}

/// The whole millisecond that an RFC 3339 text denotes.
pub fn rfc3339_milliseconds(text: &str) -> (r: Option<i64>)
    ensures
        r == whole_millisecond(rfc3339_instant(text@)),
{
    accept_whole_millisecond(parse_rfc3339(text))
}

/// The millisecond, counted from the Unix epoch, that a date-time without an offset denotes if it
/// is read in UTC and in this format.
pub uninterp spec fn naive_milliseconds(text: Seq<char>, format: Seq<char>) -> Option<i64>;

/// Calls `chrono::NaiveDateTime::parse_from_str`, and takes the date-time as one in UTC. Claimed of
/// it: whether the text is accepted, and which instant it denotes, depends on the text and the
/// format alone.
#[verifier::external_body]
fn parse_naive(text: &str, format: &str) -> (milliseconds: Option<i64>)
    ensures
        milliseconds == naive_milliseconds(text@, format@),
{
    chrono::NaiveDateTime::parse_from_str(text, format).ok().map(
        |parsed| parsed.and_utc().timestamp_millis(),
    )
}

/// The millisecond that a text denotes: a date-time with an offset, one without, or a day.
pub open spec fn timestamp_of(text: Seq<char>) -> Option<i64> {
    match (
        rfc3339_instant(text),
        naive_milliseconds(text, "%Y-%m-%dT%H:%M:%S%.f"@),
        naive_milliseconds(text, "%Y-%m-%dT%H:%M:%S"@),
        date_day(text),
    ) {
        (Some((milliseconds, _)), _, _, _) => Some(milliseconds),
        (None, Some(milliseconds), _, _) => Some(milliseconds),
        (None, None, Some(milliseconds), _) => Some(milliseconds),
        (None, None, None, Some(day)) => Some((day * MILLISECONDS_PER_DAY) as i64),
        (None, None, None, None) => None,
    }
}

/// The millisecond that a text denotes.
pub fn parse_timestamp_string(text: &str) -> (r: Option<i64>)
    ensures
        r == timestamp_of(text@),
{
    if let Some((milliseconds, _)) = parse_rfc3339(text) {
        return Some(milliseconds);
    }
    if let Some(milliseconds) = parse_naive(text, "%Y-%m-%dT%H:%M:%S%.f") {
        return Some(milliseconds);
    }
    if let Some(milliseconds) = parse_naive(text, "%Y-%m-%dT%H:%M:%S") {
        return Some(milliseconds);
    }
    match parse_date(text) {
        Some(day) => Some(day as i64 * MILLISECONDS_PER_DAY),
        None => None,
    }
}

/// The first of January 1970 is the day from which days are counted, and each day is followed by the
/// next of its month, or by the first of the next month, or by the first of the next year. A day
/// lasts from its first millisecond up to the first of the next.
pub proof fn days_follow_each_other(date: (i32, u32, u32), day: int, milliseconds: int)
    ensures
        is_date_of((1970, 1, 1), 0),
        is_date_of(date, day) && date.2 < month_days(date.0 as int, date.1 as int) ==> is_date_of(
            (date.0, date.1, (date.2 + 1) as u32),
            day + 1,
        ),
        is_date_of(date, day) && date.2 == month_days(date.0 as int, date.1 as int) && date.1 < 12
            ==> is_date_of((date.0, (date.1 + 1) as u32, 1), day + 1),
        is_date_of(date, day) && date.2 == month_days(date.0 as int, date.1 as int) && date.1 == 12
            && date.0 < i32::MAX ==> is_date_of(((date.0 + 1) as i32, 1, 1), day + 1),
        utc_day(milliseconds) * 86_400_000 <= milliseconds < (utc_day(milliseconds) + 1)
            * 86_400_000,
{
    let year = date.0 as int;
    let month = date.1 as int;
    assert(days_before_month(1970, 1) == 0);
    assert(days_before_month(year + 1, 1) == 0);
    lemma_year_length(year);
    assert(days_before_month(year, month + 1) == if month >= 1 {
        days_before_month(year, month) + month_days(year, month)
    } else {
        0
    });
}

/// A text denotes the instant of the date-time with an offset that it is, or else of the date-time
/// without one, or else the beginning of the day that it is, and nothing only if it is none of these.
pub proof fn texts_denote_their_instant(text: Seq<char>)
    ensures
        rfc3339_instant(text) matches Some((milliseconds, _)) ==> timestamp_of(text) == Some(
            milliseconds,
        ),
        rfc3339_instant(text) is None && naive_milliseconds(text, "%Y-%m-%dT%H:%M:%S%.f"@) is Some
            ==> timestamp_of(text) == naive_milliseconds(text, "%Y-%m-%dT%H:%M:%S%.f"@),
        rfc3339_instant(text) is None && naive_milliseconds(text, "%Y-%m-%dT%H:%M:%S%.f"@) is None
            && naive_milliseconds(text, "%Y-%m-%dT%H:%M:%S"@) is Some ==> timestamp_of(text)
            == naive_milliseconds(text, "%Y-%m-%dT%H:%M:%S"@),
        timestamp_of(text) is None <==> rfc3339_instant(text) is None && naive_milliseconds(
            text,
            "%Y-%m-%dT%H:%M:%S%.f"@,
        ) is None && naive_milliseconds(text, "%Y-%m-%dT%H:%M:%S"@) is None && date_day(text)
            is None,
        rfc3339_instant(text) is None && naive_milliseconds(text, "%Y-%m-%dT%H:%M:%S%.f"@) is None
            && naive_milliseconds(text, "%Y-%m-%dT%H:%M:%S"@) is None ==> (date_day(text) matches Some(
            day,
        ) ==> utc_day(timestamp_of(text)->0 as int) == day && timestamp_of(text)->0 as int
            % 86_400_000 == 0),
{
    if let Some(day) = date_day(text) {
        assert((day * MILLISECONDS_PER_DAY) as i64 == day * 86_400_000);
    }
}

} // verus!
