//! The proleptic Gregorian calendar: which year, month and day triples are
//! dates, how many days lie between two of them, and the `Date` type, whose
//! values are always dates.

use vstd::arithmetic::div_mod::{
    lemma_fundamental_div_mod, lemma_fundamental_div_mod_converse, lemma_mod_multiples_vanish,
};
use vstd::prelude::*;

verus! {

/// The earliest year a `Date` can hold: the earliest of the date primitive.
pub const MIN_YEAR: i32 = -262_143;

/// The latest year a `Date` can hold: the latest of the date primitive.
pub const MAX_YEAR: i32 = 262_142;

/// Whether `year` has a 29th of February: every fourth year, except the
/// centuries that 400 does not divide. Year 0 precedes year 1 and follows
/// year -1.
pub open spec fn is_leap_year(year: int) -> bool {
    year % 4 == 0 && (year % 100 != 0 || year % 400 == 0)
}

/// The number of days of `month` in `year`.
pub open spec fn days_in_month(year: int, month: int) -> int {
    if month == 2 {
        if is_leap_year(year) {
            29
        } else {
            28
        }
    } else if month == 4 || month == 6 || month == 9 || month == 11 {
        30
    } else {
        31
    }
}

/// The number of days of `year`.
pub open spec fn days_in_year(year: int) -> int {
    if is_leap_year(year) {
        366
    } else {
        365
    }
}

/// The number of leap years from year 0 up to, not including, `year`;
/// for a negative `year`, minus the number of leap years from `year` up to,
/// not including, year 0.
pub open spec fn leap_years_before(year: int) -> int {
    (year + 3) / 4 - (year + 99) / 100 + (year + 399) / 400
}

/// The number of days from the start of year 0 to the start of `year`,
/// negative for a negative `year`.
pub open spec fn days_before_year(year: int) -> int {
    365 * year + leap_years_before(year)
}

/// The number of days of `year` that precede its month `month`.
pub open spec fn days_before_month(year: int, month: int) -> int
    decreases month,
{
    if month <= 1 {
        0
    } else {
        days_before_month(year, month - 1) + days_in_month(year, month - 1)
    }
}

/// A year, a month and a day of the month as mathematical integers: the
/// model of a [`Date`].
pub struct CalendarDay {
    pub year: int,
    pub month: int,
    pub day: int,
}

impl CalendarDay {
    /// Whether the triple names a day of the calendar that a [`Date`] can
    /// hold.
    pub open spec fn is_valid(self) -> bool {
        &&& MIN_YEAR <= self.year <= MAX_YEAR
        &&& 1 <= self.month <= 12
        &&& 1 <= self.day <= days_in_month(self.year, self.month)
    }

    /// The position of the day on the time line: the first of January of
    /// year 0 has number 1, and each day has the number of its eve plus one.
    pub open spec fn day_number(self) -> int {
        days_before_year(self.year) + days_before_month(self.year, self.month) + self.day
    }

    /// Whether `self` comes earlier in the calendar than `other`.
    pub open spec fn precedes(self, other: CalendarDay) -> bool {
        ||| self.year < other.year
        ||| self.year == other.year && self.month < other.month
        ||| self.year == other.year && self.month == other.month && self.day < other.day
    }
}

/// The days before each month of a year, written out.
pub proof fn lemma_days_before_month_values(year: int)
    ensures
        days_before_month(year, 1) == 0,
        days_before_month(year, 2) == 31,
        days_before_month(year, 3) == 31 + days_in_month(year, 2),
        days_before_month(year, 4) == 62 + days_in_month(year, 2),
        days_before_month(year, 5) == 92 + days_in_month(year, 2),
        days_before_month(year, 6) == 123 + days_in_month(year, 2),
        days_before_month(year, 7) == 153 + days_in_month(year, 2),
        days_before_month(year, 8) == 184 + days_in_month(year, 2),
        days_before_month(year, 9) == 215 + days_in_month(year, 2),
        days_before_month(year, 10) == 245 + days_in_month(year, 2),
        days_before_month(year, 11) == 276 + days_in_month(year, 2),
        days_before_month(year, 12) == 306 + days_in_month(year, 2),
        days_before_month(year, 13) == days_in_year(year),
{
    reveal_with_fuel(days_before_month, 14);
}

/// Counting the multiples of `step` below a bound: the count grows by one
/// exactly when the bound passes a multiple.
proof fn lemma_multiples_below_next(bound: int, step: int)
    requires
        step > 0,
    ensures
        (bound + step) / step == (bound + step - 1) / step + if bound % step == 0 {
            1int
        } else {
            0int
        },
{
    let q = bound / step;
    let r = bound % step;
    lemma_fundamental_div_mod(bound, step);
    assert((q + 1) * step == step * q + step) by (nonlinear_arith);
    assert(q * step == step * q) by (nonlinear_arith);
    lemma_fundamental_div_mod_converse(bound + step, step, q + 1, r);
    if r == 0 {
        lemma_fundamental_div_mod_converse(bound + step - 1, step, q, step - 1);
    } else {
        lemma_fundamental_div_mod_converse(bound + step - 1, step, q + 1, r - 1);
    }
}

/// Each year starts as many days after the one before as that one has days.
pub proof fn lemma_days_before_next_year(year: int)
    ensures
        days_before_year(year + 1) == days_before_year(year) + days_in_year(year),
{
    lemma_multiples_below_next(year, 4);
    lemma_multiples_below_next(year, 100);
    lemma_multiples_below_next(year, 400);
    lemma_leap_year_by_remainders(year);
}

/// A year divisible by 400 is divisible by 100, and one divisible by 100 is
/// divisible by 4.
proof fn lemma_leap_year_by_remainders(year: int)
    ensures
        year % 400 == 0 ==> year % 100 == 0,
        year % 100 == 0 ==> year % 4 == 0,
{
    lemma_fundamental_div_mod(year, 400);
    lemma_fundamental_div_mod(year, 100);
    lemma_fundamental_div_mod(year, 4);
    if year % 400 == 0 {
        lemma_fundamental_div_mod_converse(year, 100, 4 * (year / 400), 0);
    }
    if year % 100 == 0 {
        lemma_fundamental_div_mod_converse(year, 4, 25 * (year / 100), 0);
    }
}

/// The start of a year moves later as the year does, by at least 365 days a
/// year.
pub proof fn lemma_days_before_year_increasing(earlier: int, later: int)
    requires
        earlier <= later,
    ensures
        days_before_year(later) - days_before_year(earlier) >= 365 * (later - earlier),
    decreases later - earlier,
{
    if earlier < later {
        lemma_days_before_year_increasing(earlier, later - 1);
        lemma_days_before_next_year(later - 1);
    }
}

/// An earlier day of the calendar has a smaller day number.
pub proof fn lemma_day_number_increasing(earlier: CalendarDay, later: CalendarDay)
    requires
        earlier.is_valid(),
        later.is_valid(),
        earlier.precedes(later),
    ensures
        earlier.day_number() < later.day_number(),
{
    lemma_days_before_month_values(earlier.year);
    lemma_days_before_month_values(later.year);
    if earlier.year < later.year {
        lemma_days_before_year_increasing(earlier.year + 1, later.year);
        lemma_days_before_next_year(earlier.year);
    }
}

/// Two days of the calendar with the same day number are the same day.
pub proof fn lemma_day_number_injective(a: CalendarDay, b: CalendarDay)
    requires
        a.is_valid(),
        b.is_valid(),
        a.day_number() == b.day_number(),
    ensures
        a == b,
{
    if a.precedes(b) {
        lemma_day_number_increasing(a, b);
    } else if b.precedes(a) {
        lemma_day_number_increasing(b, a);
    }
}

/// A day of the proleptic Gregorian calendar, between the years
/// [`MIN_YEAR`] and [`MAX_YEAR`]. Every value is a day that exists: the
/// constructors refuse any other triple.
#[derive(Clone, Copy, Debug, PartialEq, Eq, Structural)]
pub struct Date {
    year: i32,
    month: u32,
    day: u32,
}

impl View for Date {
    type V = CalendarDay;

    closed spec fn view(&self) -> CalendarDay {
        CalendarDay { year: self.year as int, month: self.month as int, day: self.day as int }
    }
}

/// Moving a year by a multiple of 400 does not change whether it is a leap
/// year.
proof fn lemma_leap_year_period(year: int, periods: int)
    ensures
        is_leap_year(year + 400 * periods) == is_leap_year(year),
{
    lemma_mod_multiples_vanish(100 * periods, year, 4);
    lemma_mod_multiples_vanish(4 * periods, year, 100);
    lemma_mod_multiples_vanish(periods, year, 400);
}

fn leap_year(year: i32) -> (leap: bool)
    requires
        MIN_YEAR <= year <= MAX_YEAR,
    ensures
        leap == is_leap_year(year as int),
{
    proof {
        lemma_leap_year_period(year as int, 656);
    }
    let shifted: u32 = (year + 262_400) as u32;
    shifted % 4 == 0 && (shifted % 100 != 0 || shifted % 400 == 0)
}

fn month_length(year: i32, month: u32) -> (length: u32)
    requires
        MIN_YEAR <= year <= MAX_YEAR,
    ensures
        length == days_in_month(year as int, month as int),
{
    if month == 2 {
        if leap_year(year) {
            29
        } else {
            28
        }
    } else if month == 4 || month == 6 || month == 9 || month == 11 {
        30
    } else {
        31
    }
}

impl Date {
    #[verifier::type_invariant]
    closed spec fn well_formed(self) -> bool {
        self@.is_valid()
    }

    /// Makes the date of the given year, month and day, or `None` when the
    /// calendar has no such day or the year is out of range.
    pub fn from_ymd_opt(year: i32, month: u32, day: u32) -> (date: Option<Date>)
        ensures
            date is Some <==> (CalendarDay {
                year: year as int,
                month: month as int,
                day: day as int,
            }).is_valid(),
            date matches Some(d) ==> d@ == (CalendarDay {
                year: year as int,
                month: month as int,
                day: day as int,
            }),
    {
        if year < MIN_YEAR || year > MAX_YEAR {
            return None;
        }
        if month < 1 || month > 12 {
            return None;
        }
        if day < 1 || day > month_length(year, month) {
            return None;
        }
        Some(Date { year, month, day })
    }

    /// Makes the date of a triple that is known to be a day of the calendar.
    pub(crate) fn from_valid_ymd(year: i32, month: u32, day: u32) -> (date: Date)
        requires
            (CalendarDay { year: year as int, month: month as int, day: day as int }).is_valid(),
        ensures
            date@ == (CalendarDay { year: year as int, month: month as int, day: day as int }),
    {
        Date { year, month, day }
    }

    /// The year.
    pub fn year(&self) -> (year: i32)
        ensures
            year == self@.year,
            self@.is_valid(),
    {
        proof {
            use_type_invariant(self);
        }
        self.year
    }

    /// The month, from 1 for January to 12 for December.
    pub fn month(&self) -> (month: u32)
        ensures
            month == self@.month,
            self@.is_valid(),
    {
        proof {
            use_type_invariant(self);
        }
        self.month
    }

    /// The day of the month, from 1.
    pub fn day(&self) -> (day: u32)
        ensures
            day == self@.day,
            self@.is_valid(),
    {
        proof {
            use_type_invariant(self);
        }
        self.day
    }
}

/// Two dates that stand for the same day are equal.
pub proof fn lemma_view_injective(a: Date, b: Date)
    requires
        a@ == b@,
    ensures
        a == b,
{
}

} // verus!
