//! How a day of the calendar is written out: digits, month names and the
//! four layouts.

use crate::calendar::CalendarDay;
use vstd::prelude::*;

verus! {

/// The character that writes the digit `d`.
pub open spec fn digit_char(d: int) -> char {
    if d == 0 {
        '0'
    } else if d == 1 {
        '1'
    } else if d == 2 {
        '2'
    } else if d == 3 {
        '3'
    } else if d == 4 {
        '4'
    } else if d == 5 {
        '5'
    } else if d == 6 {
        '6'
    } else if d == 7 {
        '7'
    } else if d == 8 {
        '8'
    } else {
        '9'
    }
}

/// A number below 100 in two digits, with a leading zero where it is below
/// 10.
pub open spec fn two_digits(n: int) -> Seq<char> {
    seq![digit_char(n / 10), digit_char(n % 10)]
}

/// A number below 10 000 in four digits, with leading zeros where it is
/// below 1000.
pub open spec fn four_digits(n: int) -> Seq<char> {
    seq![
        digit_char(n / 1000),
        digit_char((n / 100) % 10),
        digit_char((n / 10) % 10),
        digit_char(n % 10),
    ]
}

/// A natural number in decimal digits, without leading zeros.
pub open spec fn decimal(n: nat) -> Seq<char>
    decreases n,
{
    if n < 10 {
        seq![digit_char(n as int)]
    } else {
        decimal(n / 10).push(digit_char((n % 10) as int))
    }
}

/// A year as text: four digits from 0 to 9999; beyond that range a sign,
/// then the digits of the magnitude, filled with zeros to four.
pub open spec fn year_text(year: int) -> Seq<char> {
    if 0 <= year <= 9999 {
        four_digits(year)
    } else if year > 9999 {
        seq!['+'] + decimal(year as nat)
    } else if year >= -9999 {
        seq!['-'] + four_digits(-year)
    } else {
        seq!['-'] + decimal((-year) as nat)
    }
}

/// The English name of a month, from 1 for January.
pub open spec fn month_name(month: int) -> Seq<char> {
    if month == 1 {
        "January"@
    } else if month == 2 {
        "February"@
    } else if month == 3 {
        "March"@
    } else if month == 4 {
        "April"@
    } else if month == 5 {
        "May"@
    } else if month == 6 {
        "June"@
    } else if month == 7 {
        "July"@
    } else if month == 8 {
        "August"@
    } else if month == 9 {
        "September"@
    } else if month == 10 {
        "October"@
    } else if month == 11 {
        "November"@
    } else {
        "December"@
    }
}

/// The day first, then the month, then the year, with `/` between them.
pub open spec fn day_month_year_text(date: CalendarDay) -> Seq<char> {
    two_digits(date.day) + seq!['/'] + two_digits(date.month) + seq!['/'] + year_text(date.year)
}

/// The year first, then the month, then the day, with `-` between them.
pub open spec fn year_month_day_text(date: CalendarDay) -> Seq<char> {
    year_text(date.year) + seq!['-'] + two_digits(date.month) + seq!['-'] + two_digits(date.day)
}

/// The month first, then the day, then the year, with `/` between them.
pub open spec fn month_day_year_text(date: CalendarDay) -> Seq<char> {
    two_digits(date.month) + seq!['/'] + two_digits(date.day) + seq!['/'] + year_text(date.year)
}

/// The name of the month, the day in two digits, a comma and the year.
pub open spec fn long_text(date: CalendarDay) -> Seq<char> {
    month_name(date.month) + seq![' '] + two_digits(date.day) + seq![',', ' '] + year_text(
        date.year,
    )
}

} // verus!
