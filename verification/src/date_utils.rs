//! Calendar dates against a fixed set of textual layouts: reading a date,
//! checking a text against a layout, writing a date out, and measuring the
//! distance between two dates.

use crate::calendar::{lemma_day_number_increasing, CalendarDay, Date};
use crate::date_primitive::{
    calendar_day, days_between, format_with_pattern, parse_outcome, parse_with_pattern,
    rendered, ParseFailure,
};
use crate::date_text::{
    day_month_year_text, long_text, month_day_year_text, year_month_day_text,
};
use crate::string_utils::same_text;
use vstd::prelude::*;

verus! {

/// The layouts a date can be written in. The set is closed.
#[derive(Clone, Copy, Debug, PartialEq, Eq, Structural)]
pub enum DateFormat {
    /// `DD/MM/YYYY`, as in `25/12/2024`.
    DayMonthYear,
    /// `YYYY-MM-DD`, as in `2024-12-25`.
    YearMonthDay,
    /// `MM/DD/YYYY`, as in `12/25/2024`.
    MonthDayYear,
    /// `Month DD, YYYY`, as in `December 25, 2024`. For writing only.
    MonthNameDayYear,
}

impl DateFormat {
    /// The name by which callers ask for the layout.
    pub open spec fn name_spec(self) -> Seq<char> {
        match self {
            DateFormat::DayMonthYear => "DD/MM/YYYY"@,
            DateFormat::YearMonthDay => "YYYY-MM-DD"@,
            DateFormat::MonthDayYear => "MM/DD/YYYY"@,
            DateFormat::MonthNameDayYear => "Month DD, YYYY"@,
        }
    }

    /// The pattern that describes the layout to the date primitive.
    pub open spec fn pattern_spec(self) -> Seq<char> {
        match self {
            DateFormat::DayMonthYear => "%d/%m/%Y"@,
            DateFormat::YearMonthDay => "%Y-%m-%d"@,
            DateFormat::MonthDayYear => "%m/%d/%Y"@,
            DateFormat::MonthNameDayYear => "%B %d, %Y"@,
        }
    }

    /// Whether dates are read in this layout, not only written.
    pub open spec fn reads_input_spec(self) -> bool {
        self != DateFormat::MonthNameDayYear
    }

    /// The layout that `name` asks for, if it is the name of one.
    pub open spec fn by_name(name: Seq<char>) -> Option<DateFormat> {
        if name == DateFormat::DayMonthYear.name_spec() {
            Some(DateFormat::DayMonthYear)
        } else if name == DateFormat::YearMonthDay.name_spec() {
            Some(DateFormat::YearMonthDay)
        } else if name == DateFormat::MonthDayYear.name_spec() {
            Some(DateFormat::MonthDayYear)
        } else if name == DateFormat::MonthNameDayYear.name_spec() {
            Some(DateFormat::MonthNameDayYear)
        } else {
            None
        }
    }

    /// The text of `date` in this layout.
    pub open spec fn render(self, date: CalendarDay) -> Seq<char> {
        rendered(date, self.pattern_spec())
    }

    /// What reading `text` in this layout gives: the day it names, or why
    /// it names none.
    pub open spec fn read(self, text: Seq<char>) -> Result<CalendarDay, ParseFailure> {
        match parse_outcome(text, self.pattern_spec()) {
            Ok(ymd) => Ok(calendar_day(ymd.0, ymd.1, ymd.2)),
            Err(failure) => Err(failure),
        }
    }

    /// The name by which callers ask for the layout.
    pub fn name(&self) -> (name: &'static str)
        ensures
            name@ == self.name_spec(),
    {
        match self {
            DateFormat::DayMonthYear => "DD/MM/YYYY",
            DateFormat::YearMonthDay => "YYYY-MM-DD",
            DateFormat::MonthDayYear => "MM/DD/YYYY",
            DateFormat::MonthNameDayYear => "Month DD, YYYY",
        }
    }

    /// The pattern that describes the layout to the date primitive.
    pub fn pattern(&self) -> (pattern: &'static str)
        ensures
            pattern@ == self.pattern_spec(),
    {
        match self {
            DateFormat::DayMonthYear => "%d/%m/%Y",
            DateFormat::YearMonthDay => "%Y-%m-%d",
            DateFormat::MonthDayYear => "%m/%d/%Y",
            DateFormat::MonthNameDayYear => "%B %d, %Y",
        }
    }

    /// Whether dates are read in this layout, not only written.
    pub fn reads_input(&self) -> (reads: bool)
        ensures
            reads == self.reads_input_spec(),
    {
        match self {
            DateFormat::MonthNameDayYear => false,
            _ => true,
        }
    }

    /// Finds the layout that `name` asks for. A name that is not in the
    /// table gives `None`.
    pub fn from_name(name: &str) -> (format: Option<DateFormat>)
        ensures
            format == DateFormat::by_name(name@),
    {
        if same_text(name, DateFormat::DayMonthYear.name()) {
            Some(DateFormat::DayMonthYear)
        } else if same_text(name, DateFormat::YearMonthDay.name()) {
            Some(DateFormat::YearMonthDay)
        } else if same_text(name, DateFormat::MonthDayYear.name()) {
            Some(DateFormat::MonthDayYear)
        } else if same_text(name, DateFormat::MonthNameDayYear.name()) {
            Some(DateFormat::MonthNameDayYear)
        } else {
            None
        }
    }
}

/// The distance between two dates.
#[derive(Clone, Copy, Debug, PartialEq, Eq, Structural)]
pub struct DateDifference {
    /// The number of days from the first date to the second.
    pub days: i64,
    /// The number of whole weeks in `days`.
    pub weeks: i64,
    /// The number of whole spans of 365 days in `days`: an approximation
    /// that takes no account of leap years.
    pub years: i64,
}

/// The quotient of `a` by a positive `b`, rounded towards zero.
pub open spec fn quotient_toward_zero(a: int, b: int) -> int {
    if a >= 0 {
        a / b
    } else {
        -((-a) / b)
    }
}

impl DateDifference {
    /// The distance of `days` days: its whole weeks and its whole spans of
    /// 365 days, each rounded towards zero.
    pub open spec fn of_days(days: int) -> DateDifference {
        DateDifference {
            days: days as i64,
            weeks: quotient_toward_zero(days, 7) as i64,
            years: quotient_toward_zero(days, 365) as i64,
        }
    }

    /// The distance from the day `from` to the day `to`.
    pub open spec fn between(from: CalendarDay, to: CalendarDay) -> DateDifference {
        DateDifference::of_days(to.day_number() - from.day_number())
    }

    /// Breaks a number of days down into weeks and approximate years.
    pub fn from_days(days: i64) -> (difference: DateDifference)
        ensures
            difference == DateDifference::of_days(days as int),
            difference.days == days,
            difference.weeks == quotient_toward_zero(days as int, 7),
            difference.years == quotient_toward_zero(days as int, 365),
    {
        let weeks = days / 7;
        let years = days / 365;
        DateDifference { days, weeks, years }
    }
}

/// The day that a successful outcome holds, or the failure.
pub open spec fn outcome_view(outcome: Result<Date, ParseFailure>) -> Result<
    CalendarDay,
    ParseFailure,
> {
    match outcome {
        Ok(date) => Ok(date@),
        Err(failure) => Err(failure),
    }
}

/// Of three attempts in order of priority, the first that succeeded; if
/// none did, the failure of the first.
pub open spec fn first_success<T>(
    first: Result<T, ParseFailure>,
    second: Result<T, ParseFailure>,
    third: Result<T, ParseFailure>,
) -> Result<T, ParseFailure> {
    if first is Ok {
        first
    } else if second is Ok {
        second
    } else if third is Ok {
        third
    } else {
        first
    }
}

/// What `text` is read as when no layout is given: `YYYY-MM-DD` is tried
/// first, then `DD/MM/YYYY`, then `MM/DD/YYYY`, and the first layout that
/// fits decides. A text such as `03/04/2024`, which fits the last two, is
/// therefore read with the day first.
pub open spec fn parse_date_spec(text: Seq<char>) -> Result<CalendarDay, ParseFailure> {
    first_success(
        DateFormat::YearMonthDay.read(text),
        DateFormat::DayMonthYear.read(text),
        DateFormat::MonthDayYear.read(text),
    )
}

/// Whether `text` names a day of the calendar in the layout called `name`.
/// A name that is no layout, or a layout that is only written, accepts
/// nothing.
pub open spec fn validate_date_format_spec(text: Seq<char>, name: Seq<char>) -> bool {
    match DateFormat::by_name(name) {
        Some(format) => format.reads_input_spec() && format.read(text) is Ok,
        None => false,
    }
}

/// The text of `date` in the layout called `name`, if there is such a
/// layout.
pub open spec fn format_date_spec(date: CalendarDay, name: Seq<char>) -> Option<Seq<char>> {
    match DateFormat::by_name(name) {
        Some(format) => Some(format.render(date)),
        None => None,
    }
}

/// The distance from a day to itself is zero in days, weeks and years.
pub proof fn lemma_difference_to_self(date: CalendarDay)
    ensures
        DateDifference::between(date, date) == (DateDifference { days: 0, weeks: 0, years: 0 }),
{
}

/// Weeks and years have the sign of the days, or are zero.
pub proof fn lemma_difference_signs(days: int)
    ensures
        days >= 0 ==> quotient_toward_zero(days, 7) >= 0 && quotient_toward_zero(days, 365) >= 0,
        days <= 0 ==> quotient_toward_zero(days, 7) <= 0 && quotient_toward_zero(days, 365) <= 0,
{
}

/// Swapping the two dates negates the distance.
pub proof fn lemma_difference_swapped(from: CalendarDay, to: CalendarDay)
    ensures
        to.day_number() - from.day_number() == -(from.day_number() - to.day_number()),
        quotient_toward_zero(to.day_number() - from.day_number(), 7) == -quotient_toward_zero(
            from.day_number() - to.day_number(),
            7,
        ),
        quotient_toward_zero(to.day_number() - from.day_number(), 365) == -quotient_toward_zero(
            from.day_number() - to.day_number(),
            365,
        ),
{
}

/// The distance to a later day is positive, to an earlier day negative.
pub proof fn lemma_difference_follows_order(from: CalendarDay, to: CalendarDay)
    requires
        from.is_valid(),
        to.is_valid(),
    ensures
        from.precedes(to) <==> to.day_number() - from.day_number() > 0,
        to.precedes(from) <==> to.day_number() - from.day_number() < 0,
        from == to <==> to.day_number() - from.day_number() == 0,
{
    if from.precedes(to) {
        lemma_day_number_increasing(from, to);
    } else if to.precedes(from) {
        lemma_day_number_increasing(to, from);
    }
}

/// A text that fits `YYYY-MM-DD` is read in that layout, whatever the other
/// layouts would make of it.
pub proof fn lemma_canonical_layout_decides(text: Seq<char>)
    requires
        DateFormat::YearMonthDay.read(text) is Ok,
    ensures
        parse_date_spec(text) == DateFormat::YearMonthDay.read(text),
{
}

/// Writing a date in `YYYY-MM-DD` and reading the text back gives the same
/// date, provided the date primitive reads its own `%Y-%m-%d` text back:
/// the two other layouts never get a say.
pub proof fn lemma_round_trip_rests_on_primitive(date: CalendarDay)
    requires
        date.is_valid(),
        DateFormat::YearMonthDay.read(DateFormat::YearMonthDay.render(date)) == Ok::<
            CalendarDay,
            ParseFailure,
        >(date),
    ensures
        format_date_spec(date, DateFormat::YearMonthDay.name_spec()) matches Some(text)
            && parse_date_spec(text) == Ok::<CalendarDay, ParseFailure>(date),
{
    lemma_names_distinct();
}

/// A text is read as a date exactly when it is valid in one of the three
/// layouts that dates are read in.
pub proof fn lemma_parse_succeeds_iff_some_layout_fits(text: Seq<char>)
    ensures
        parse_date_spec(text) is Ok <==> {
            ||| validate_date_format_spec(text, DateFormat::YearMonthDay.name_spec())
            ||| validate_date_format_spec(text, DateFormat::DayMonthYear.name_spec())
            ||| validate_date_format_spec(text, DateFormat::MonthDayYear.name_spec())
        },
{
    lemma_names_distinct();
}

/// The four layout names differ, so each name finds its own layout.
pub proof fn lemma_names_distinct()
    ensures
        DateFormat::by_name(DateFormat::DayMonthYear.name_spec()) == Some(
            DateFormat::DayMonthYear,
        ),
        DateFormat::by_name(DateFormat::YearMonthDay.name_spec()) == Some(
            DateFormat::YearMonthDay,
        ),
        DateFormat::by_name(DateFormat::MonthDayYear.name_spec()) == Some(
            DateFormat::MonthDayYear,
        ),
        DateFormat::by_name(DateFormat::MonthNameDayYear.name_spec()) == Some(
            DateFormat::MonthNameDayYear,
        ),
{
    reveal_strlit("DD/MM/YYYY");
    reveal_strlit("YYYY-MM-DD");
    reveal_strlit("MM/DD/YYYY");
    reveal_strlit("Month DD, YYYY");
    assert("DD/MM/YYYY"@[0] == 'D');
    assert("YYYY-MM-DD"@[0] == 'Y');
    assert("MM/DD/YYYY"@[0] == 'M');
    assert("Month DD, YYYY"@.len() == 14);
    assert("MM/DD/YYYY"@.len() == 10);
}

/// What each layout writes: the four patterns differ, so each layout has
/// its own text.
pub proof fn lemma_render_by_layout(date: CalendarDay)
    ensures
        DateFormat::DayMonthYear.render(date) == day_month_year_text(date),
        DateFormat::YearMonthDay.render(date) == year_month_day_text(date),
        DateFormat::MonthDayYear.render(date) == month_day_year_text(date),
        DateFormat::MonthNameDayYear.render(date) == long_text(date),
{
    reveal_strlit("%d/%m/%Y");
    reveal_strlit("%Y-%m-%d");
    reveal_strlit("%m/%d/%Y");
    reveal_strlit("%B %d, %Y");
    assert("%d/%m/%Y"@[1] == 'd');
    assert("%Y-%m-%d"@[1] == 'Y');
    assert("%m/%d/%Y"@[1] == 'm');
    assert("%B %d, %Y"@[1] == 'B');
}

/// Picks among three attempts to read a date, given in order of priority:
/// the first that succeeded, or the failure of the first if none did.
pub fn resolve(
    first: Result<Date, ParseFailure>,
    second: Result<Date, ParseFailure>,
    third: Result<Date, ParseFailure>,
) -> (chosen: Result<Date, ParseFailure>)
    ensures
        chosen == first_success(first, second, third),
{
    if first.is_ok() {
        first
    } else if second.is_ok() {
        second
    } else if third.is_ok() {
        third
    } else {
        first
    }
}

/// Reads `text` in the layout `format`, whichever of the four it is.
pub fn read_as(text: &str, format: DateFormat) -> (outcome: Result<Date, ParseFailure>)
    ensures
        outcome_view(outcome) == format.read(text@),
{
    match parse_with_pattern(text, format.pattern()) {
        Ok(ymd) => Ok(Date::from_valid_ymd(ymd.0, ymd.1, ymd.2)),
        Err(failure) => Err(failure),
    }
}

/// Measures the distance from `date1` to `date2`: positive when `date2` is
/// the later one. Weeks are whole weeks; years are whole spans of 365 days,
/// leap years not counted.
pub fn date_difference(date1: &Date, date2: &Date) -> (difference: DateDifference)
    ensures
        difference == DateDifference::between(date1@, date2@),
        difference.days == date2@.day_number() - date1@.day_number(),
        difference.weeks == quotient_toward_zero(difference.days as int, 7),
        difference.years == quotient_toward_zero(difference.days as int, 365),
{
    let start = (date1.year(), date1.month(), date1.day());
    let end = (date2.year(), date2.month(), date2.day());
    let days = days_between(start, end);
    DateDifference::from_days(days)
}

/// Tells whether `date_str` names a day of the calendar in the layout
/// called `format`. An unknown name gives `false`.
pub fn validate_date_format(date_str: &str, format: &str) -> (valid: bool)
    ensures
        valid == validate_date_format_spec(date_str@, format@),
{
    match DateFormat::from_name(format) {
        Some(layout) => {
            if layout.reads_input() {
                read_as(date_str, layout).is_ok()
            } else {
                false
            }
        },
        None => false,
    }
}

/// Writes `date` in the layout called `format`. An unknown name gives
/// `None`.
pub fn format_date(date: &Date, format: &str) -> (text: Option<String>)
    ensures
        match format_date_spec(date@, format@) {
            Some(expected) => text matches Some(written) && written@ == expected,
            None => text is None,
        },
{
    match DateFormat::from_name(format) {
        Some(layout) => {
            let pattern = layout.pattern();
            Some(format_with_pattern(date.year(), date.month(), date.day(), pattern))
        },
        None => None,
    }
}

/// Reads a date from `date_str`, trying `YYYY-MM-DD`, then `DD/MM/YYYY`,
/// then `MM/DD/YYYY`, and taking the first layout that fits. When none
/// fits, reports why `YYYY-MM-DD` did not.
pub fn parse_date(date_str: &str) -> (outcome: Result<Date, ParseFailure>)
    ensures
        outcome_view(outcome) == parse_date_spec(date_str@),
{
    let canonical = read_as(date_str, DateFormat::YearMonthDay);
    let day_first = read_as(date_str, DateFormat::DayMonthYear);
    let month_first = read_as(date_str, DateFormat::MonthDayYear);
    resolve(canonical, day_first, month_first)
}

} // verus!
