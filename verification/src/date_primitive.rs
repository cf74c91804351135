//! The calls into `chrono`, the date primitive of this library: parsing a
//! text against a pattern, writing a date out under a pattern, and counting
//! the days between two dates. Verus takes the contracts in this file on
//! trust; everything else in the library is proved from them.

use crate::calendar::CalendarDay;
use crate::date_text::{
    day_month_year_text, long_text, month_day_year_text, year_month_day_text,
};
use chrono::format::ParseErrorKind;
use chrono::{Datelike, NaiveDate};
use vstd::prelude::*;

verus! {

/// Why a text could not be read as a date, in the categories of
/// `chrono::format::ParseErrorKind`.
#[derive(Clone, Copy, Debug, PartialEq, Eq, Structural)]
pub enum ParseFailure {
    /// A field lies outside the range it is allowed.
    OutOfRange,
    /// The fields contradict one another.
    Impossible,
    /// The fields do not determine a date.
    NotEnough,
    /// The text holds a character that the pattern does not allow there.
    Invalid,
    /// The text ended before the pattern did.
    TooShort,
    /// The text goes on after the pattern has ended.
    TooLong,
    /// The pattern itself is not one that can be used.
    BadFormat,
    /// A category that this library has no name for.
    Other,
}

/// The year, month and day as the mathematical triple.
pub open spec fn calendar_day(year: i32, month: u32, day: u32) -> CalendarDay {
    CalendarDay { year: year as int, month: month as int, day: day as int }
}

/// Whether `pattern` is one of the four patterns that this library writes
/// dates with.
pub open spec fn is_output_pattern(pattern: Seq<char>) -> bool {
    ||| pattern == "%d/%m/%Y"@
    ||| pattern == "%Y-%m-%d"@
    ||| pattern == "%m/%d/%Y"@
    ||| pattern == "%B %d, %Y"@
}

/// What a date looks like under each of the four output patterns: `%d` and
/// `%m` are the day and the month in two digits, `%Y` is the year in four
/// digits or with a sign, `%B` is the English name of the month, and every
/// other character of the pattern stands for itself.
pub open spec fn rendered(date: CalendarDay, pattern: Seq<char>) -> Seq<char> {
    if pattern == "%d/%m/%Y"@ {
        day_month_year_text(date)
    } else if pattern == "%Y-%m-%d"@ {
        year_month_day_text(date)
    } else if pattern == "%m/%d/%Y"@ {
        month_day_year_text(date)
    } else {
        long_text(date)
    }
}

/// What `chrono::NaiveDate::parse_from_str` makes of `text` under
/// `pattern`: the year, month and day it read, or the category of its
/// error.
pub uninterp spec fn parse_outcome(text: Seq<char>, pattern: Seq<char>) -> Result<
    (i32, u32, u32),
    ParseFailure,
>;

/// Calls `chrono::NaiveDate::parse_from_str`. The outcome depends on the
/// text and the pattern alone. A `NaiveDate` is always a day of the
/// calendar within chrono's range of years, so the triple of a success is a
/// valid day.
#[verifier::external_body]
pub(crate) fn parse_with_pattern(text: &str, pattern: &str) -> (outcome: Result<
    (i32, u32, u32),
    ParseFailure,
>)
    ensures
        outcome == parse_outcome(text@, pattern@),
        outcome matches Ok(ymd) ==> calendar_day(ymd.0, ymd.1, ymd.2).is_valid(),
{
    match NaiveDate::parse_from_str(text, pattern) {
        Ok(date) => Ok((date.year(), date.month(), date.day())),
        Err(error) => Err(match error.kind() {
            ParseErrorKind::OutOfRange => ParseFailure::OutOfRange,
            ParseErrorKind::Impossible => ParseFailure::Impossible,
            ParseErrorKind::NotEnough => ParseFailure::NotEnough,
            ParseErrorKind::Invalid => ParseFailure::Invalid,
            ParseErrorKind::TooShort => ParseFailure::TooShort,
            ParseErrorKind::TooLong => ParseFailure::TooLong,
            ParseErrorKind::BadFormat => ParseFailure::BadFormat,
            _ => ParseFailure::Other,
        }),
    }
}

/// Calls `chrono::NaiveDate::format` and turns the result into a `String`.
/// chrono documents `%d` and `%m` as zero-padded to two digits, `%Y` as
/// zero-padded to four digits with a sign for years before 0 or after 9999,
/// and `%B` as the full month name; it copies every other character of
/// these patterns. Formatting panics on a pattern that chrono does not
/// understand, so only the four output patterns are admitted.
#[verifier::external_body]
pub(crate) fn format_with_pattern(year: i32, month: u32, day: u32, pattern: &str) -> (text: String)
    requires
        calendar_day(year, month, day).is_valid(),
        is_output_pattern(pattern@),
    ensures
        text@ == rendered(calendar_day(year, month, day), pattern@),
{
    NaiveDate::from_ymd_opt(year, month, day).unwrap().format(pattern).to_string()
}

/// Calls `chrono::NaiveDate::signed_duration_since` on the two dates and
/// takes the whole days of the result: the number of days from `start` to
/// `end`, negative when `end` is the earlier one.
#[verifier::external_body]
pub(crate) fn days_between(start: (i32, u32, u32), end: (i32, u32, u32)) -> (days: i64)
    requires
        calendar_day(start.0, start.1, start.2).is_valid(),
        calendar_day(end.0, end.1, end.2).is_valid(),
    ensures
        days == calendar_day(end.0, end.1, end.2).day_number() - calendar_day(
            start.0,
            start.1,
            start.2,
        ).day_number(),
{
    let first = NaiveDate::from_ymd_opt(start.0, start.1, start.2).unwrap();
    let second = NaiveDate::from_ymd_opt(end.0, end.1, end.2).unwrap();
    second.signed_duration_since(first).num_days()
}

} // verus!
