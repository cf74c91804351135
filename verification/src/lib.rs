//! A toolkit of small, independent utilities: elementary number theory,
//! text manipulation and calendar dates. Every function carries a contract
//! that Verus proves against a mathematical model of its result.

pub mod calendar;
pub mod date_primitive;
pub mod date_text;
pub mod date_utils;
pub mod math_utils;
pub mod string_utils;

pub use calendar::Date;
pub use date_primitive::ParseFailure;
pub use date_utils::{
    date_difference, format_date, parse_date, validate_date_format, DateDifference, DateFormat,
};
pub use math_utils::{factorial, gcd, is_prime};
pub use string_utils::{count_char, is_palindrome, reverse_string};
