use chrono::{Datelike, NaiveDate};
use rust_utils_lib::calendar::{MAX_YEAR, MIN_YEAR};
use rust_utils_lib::{
    date_difference, format_date, parse_date, validate_date_format, Date, DateDifference,
    DateFormat, ParseFailure,
};
use rust_utils_lib::date_utils::{read_as, resolve};

fn date(year: i32, month: u32, day: u32) -> Date {
    Date::from_ymd_opt(year, month, day).unwrap()
}

#[test]
fn date_keeps_its_parts() {
    let d = date(2024, 2, 29);
    assert_eq!(d.year(), 2024);
    assert_eq!(d.month(), 2);
    assert_eq!(d.day(), 29);
    let e = date(-44, 3, 15);
    assert_eq!((e.year(), e.month(), e.day()), (-44, 3, 15));
}

#[test]
fn date_refuses_days_that_do_not_exist() {
    assert!(Date::from_ymd_opt(2023, 2, 29).is_none());
    assert!(Date::from_ymd_opt(2024, 2, 30).is_none());
    assert!(Date::from_ymd_opt(1900, 2, 29).is_none());
    assert!(Date::from_ymd_opt(2000, 2, 29).is_some());
    assert!(Date::from_ymd_opt(2024, 4, 31).is_none());
    assert!(Date::from_ymd_opt(2024, 0, 1).is_none());
    assert!(Date::from_ymd_opt(2024, 13, 1).is_none());
    assert!(Date::from_ymd_opt(2024, 1, 0).is_none());
    assert!(Date::from_ymd_opt(2024, 1, 32).is_none());
    assert!(Date::from_ymd_opt(2024, u32::MAX, u32::MAX).is_none());
}

#[test]
fn date_year_range_is_that_of_the_primitive() {
    assert_eq!(MIN_YEAR, NaiveDate::MIN.year());
    assert_eq!(MAX_YEAR, NaiveDate::MAX.year());
    assert!(Date::from_ymd_opt(MIN_YEAR, 1, 1).is_some());
    assert!(Date::from_ymd_opt(MAX_YEAR, 12, 31).is_some());
    assert!(Date::from_ymd_opt(MIN_YEAR - 1, 12, 31).is_none());
    assert!(Date::from_ymd_opt(MAX_YEAR + 1, 1, 1).is_none());
    assert!(Date::from_ymd_opt(i32::MIN, 1, 1).is_none());
    assert!(Date::from_ymd_opt(i32::MAX, 1, 1).is_none());
}

#[test]
fn date_validity_agrees_with_the_primitive() {
    let mut years: Vec<i32> = (-420..=420).collect();
    years.extend(1890..=2110);
    years.extend([MIN_YEAR - 1, MIN_YEAR, MIN_YEAR + 1, MAX_YEAR - 1, MAX_YEAR, MAX_YEAR + 1]);
    for year in years {
        for month in 0..=13 {
            for day in 0..=32 {
                assert_eq!(
                    Date::from_ymd_opt(year, month, day).is_some(),
                    NaiveDate::from_ymd_opt(year, month, day).is_some(),
                    "{}-{}-{}",
                    year,
                    month,
                    day
                );
            }
        }
    }
}

#[test]
fn date_equality_is_by_day() {
    assert_eq!(date(2024, 7, 4), date(2024, 7, 4));
    assert_ne!(date(2024, 7, 4), date(2024, 4, 7));
    let copy = date(2024, 7, 4);
    let same = copy;
    assert_eq!(copy, same);
}

#[test]
fn difference_exact_values() {
    let cases: [((i32, u32, u32), (i32, u32, u32), i64, i64, i64); 10] = [
        ((1614, 1, 1), (2014, 1, 1), 146_097, 20_871, 400),
        ((0, 1, 1), (1, 1, 1), 366, 52, 1),
        ((-1, 12, 31), (0, 1, 1), 1, 0, 0),
        ((-262_143, 1, 1), (262_142, 12, 31), 191_491_528, 27_355_932, 524_634),
        ((1970, 1, 1), (2024, 2, 29), 19_782, 2_826, 54),
        ((-4, 2, 29), (-4, 3, 1), 1, 0, 0),
        ((1900, 2, 28), (1900, 3, 1), 1, 0, 0),
        ((2000, 2, 28), (2000, 3, 1), 2, 0, 0),
        ((2020, 1, 1), (2024, 1, 1), 1_461, 208, 4),
        ((2023, 1, 1), (2024, 1, 1), 365, 52, 1),
    ];
    for (from, to, days, weeks, years) in cases {
        let a = date(from.0, from.1, from.2);
        let b = date(to.0, to.1, to.2);
        assert_eq!(date_difference(&a, &b), DateDifference { days, weeks, years });
        assert_eq!(
            date_difference(&b, &a),
            DateDifference { days: -days, weeks: -weeks, years: -years }
        );
    }
}

#[test]
fn difference_to_self_is_zero() {
    for d in [date(2024, 1, 1), date(-262_143, 1, 1), date(262_142, 12, 31), date(0, 2, 29)] {
        assert_eq!(date_difference(&d, &d), DateDifference { days: 0, weeks: 0, years: 0 });
    }
}

#[test]
fn difference_over_a_leap_year_is_one_year() {
    let a = date(2024, 1, 1);
    let b = date(2024, 12, 31);
    assert_eq!(date_difference(&a, &b), DateDifference { days: 365, weeks: 52, years: 1 });
    let c = date(2025, 1, 1);
    assert_eq!(date_difference(&a, &c), DateDifference { days: 366, weeks: 52, years: 1 });
}

#[test]
fn difference_rounds_towards_zero() {
    assert_eq!(DateDifference::from_days(6), DateDifference { days: 6, weeks: 0, years: 0 });
    assert_eq!(DateDifference::from_days(-6), DateDifference { days: -6, weeks: 0, years: 0 });
    assert_eq!(DateDifference::from_days(13), DateDifference { days: 13, weeks: 1, years: 0 });
    assert_eq!(DateDifference::from_days(-13), DateDifference { days: -13, weeks: -1, years: 0 });
    assert_eq!(DateDifference::from_days(364), DateDifference { days: 364, weeks: 52, years: 0 });
    assert_eq!(
        DateDifference::from_days(-364),
        DateDifference { days: -364, weeks: -52, years: 0 }
    );
    assert_eq!(
        DateDifference::from_days(-730),
        DateDifference { days: -730, weeks: -104, years: -2 }
    );
    assert_eq!(
        DateDifference::from_days(i64::MIN),
        DateDifference { days: i64::MIN, weeks: i64::MIN / 7, years: i64::MIN / 365 }
    );
    assert_eq!(
        DateDifference::from_days(i64::MAX),
        DateDifference { days: i64::MAX, weeks: i64::MAX / 7, years: i64::MAX / 365 }
    );
}

#[test]
fn difference_counts_each_day_once() {
    let mut previous = date(1999, 12, 31);
    let start = previous;
    let mut elapsed = 0;
    for year in 2000..=2004 {
        for month in 1..=12 {
            for day in 1..=31 {
                if let Some(next) = Date::from_ymd_opt(year, month, day) {
                    elapsed += 1;
                    assert_eq!(date_difference(&previous, &next).days, 1);
                    assert_eq!(date_difference(&start, &next).days, elapsed);
                    previous = next;
                }
            }
        }
    }
    assert_eq!(elapsed, 366 + 365 + 365 + 365 + 366);
}

#[test]
fn format_names_and_patterns() {
    assert_eq!(DateFormat::DayMonthYear.name(), "DD/MM/YYYY");
    assert_eq!(DateFormat::YearMonthDay.name(), "YYYY-MM-DD");
    assert_eq!(DateFormat::MonthDayYear.name(), "MM/DD/YYYY");
    assert_eq!(DateFormat::MonthNameDayYear.name(), "Month DD, YYYY");
    assert_eq!(DateFormat::DayMonthYear.pattern(), "%d/%m/%Y");
    assert_eq!(DateFormat::YearMonthDay.pattern(), "%Y-%m-%d");
    assert_eq!(DateFormat::MonthDayYear.pattern(), "%m/%d/%Y");
    assert_eq!(DateFormat::MonthNameDayYear.pattern(), "%B %d, %Y");
    assert!(DateFormat::DayMonthYear.reads_input());
    assert!(DateFormat::YearMonthDay.reads_input());
    assert!(DateFormat::MonthDayYear.reads_input());
    assert!(!DateFormat::MonthNameDayYear.reads_input());
}

#[test]
fn format_is_found_by_its_exact_name() {
    for format in [
        DateFormat::DayMonthYear,
        DateFormat::YearMonthDay,
        DateFormat::MonthDayYear,
        DateFormat::MonthNameDayYear,
    ] {
        assert_eq!(DateFormat::from_name(format.name()), Some(format));
    }
    assert_eq!(DateFormat::from_name(""), None);
    assert_eq!(DateFormat::from_name("dd/mm/yyyy"), None);
    assert_eq!(DateFormat::from_name("DD/MM/YYYY "), None);
    assert_eq!(DateFormat::from_name("DD/MM/YYY"), None);
    assert_eq!(DateFormat::from_name("YYYY-MM-DDD"), None);
    assert_eq!(DateFormat::from_name("%Y-%m-%d"), None);
    assert_eq!(DateFormat::from_name("ＤＤ/MM/YYYY"), None);
}

#[test]
fn format_every_month_name() {
    let names = [
        "January",
        "February",
        "March",
        "April",
        "May",
        "June",
        "July",
        "August",
        "September",
        "October",
        "November",
        "December",
    ];
    for (index, name) in names.iter().enumerate() {
        let d = date(2023, index as u32 + 1, 9);
        assert_eq!(format_date(&d, "Month DD, YYYY"), Some(format!("{} 09, 2023", name)));
    }
}

#[test]
fn format_pads_day_and_month_to_two_digits() {
    let d = date(2024, 1, 2);
    assert_eq!(format_date(&d, "DD/MM/YYYY"), Some("02/01/2024".to_string()));
    assert_eq!(format_date(&d, "MM/DD/YYYY"), Some("01/02/2024".to_string()));
    assert_eq!(format_date(&d, "YYYY-MM-DD"), Some("2024-01-02".to_string()));
    let e = date(2024, 10, 31);
    assert_eq!(format_date(&e, "DD/MM/YYYY"), Some("31/10/2024".to_string()));
    assert_eq!(format_date(&e, "YYYY-MM-DD"), Some("2024-10-31".to_string()));
}

#[test]
fn format_years_of_every_width() {
    let cases: [(i32, &str); 14] = [
        (0, "0000"),
        (1, "0001"),
        (12, "0012"),
        (999, "0999"),
        (1000, "1000"),
        (9999, "9999"),
        (10_000, "+10000"),
        (123_456, "+123456"),
        (262_142, "+262142"),
        (-1, "-0001"),
        (-999, "-0999"),
        (-9999, "-9999"),
        (-10_000, "-10000"),
        (-262_143, "-262143"),
    ];
    for (year, text) in cases {
        let d = date(year, 3, 4);
        assert_eq!(format_date(&d, "YYYY-MM-DD"), Some(format!("{}-03-04", text)));
        assert_eq!(format_date(&d, "DD/MM/YYYY"), Some(format!("04/03/{}", text)));
        assert_eq!(format_date(&d, "MM/DD/YYYY"), Some(format!("03/04/{}", text)));
        assert_eq!(format_date(&d, "Month DD, YYYY"), Some(format!("March 04, {}", text)));
    }
}

#[test]
fn format_unknown_names_give_nothing() {
    let d = date(2024, 12, 25);
    assert_eq!(format_date(&d, ""), None);
    assert_eq!(format_date(&d, "%Y-%m-%d"), None);
    assert_eq!(format_date(&d, "yyyy-mm-dd"), None);
    assert_eq!(format_date(&d, "Month DD,YYYY"), None);
}

#[test]
fn validate_leap_days() {
    assert!(validate_date_format("2024-02-29", "YYYY-MM-DD"));
    assert!(!validate_date_format("2023-02-29", "YYYY-MM-DD"));
    assert!(validate_date_format("29/02/2000", "DD/MM/YYYY"));
    assert!(!validate_date_format("29/02/1900", "DD/MM/YYYY"));
    assert!(validate_date_format("02/29/2024", "MM/DD/YYYY"));
    assert!(!validate_date_format("02/30/2024", "MM/DD/YYYY"));
}

#[test]
fn validate_rejects_the_layout_that_is_only_written() {
    assert!(!validate_date_format("December 25, 2024", "Month DD, YYYY"));
    assert!(!validate_date_format("2024-12-25", "Month DD, YYYY"));
}

#[test]
fn validate_rejects_unknown_names() {
    assert!(!validate_date_format("2024-12-25", ""));
    assert!(!validate_date_format("2024-12-25", "%Y-%m-%d"));
    assert!(!validate_date_format("2024-12-25", "yyyy-mm-dd"));
}

#[test]
fn validate_tells_the_layouts_apart() {
    assert!(validate_date_format("25/12/2024", "DD/MM/YYYY"));
    assert!(!validate_date_format("25/12/2024", "MM/DD/YYYY"));
    assert!(validate_date_format("12/25/2024", "MM/DD/YYYY"));
    assert!(!validate_date_format("12/25/2024", "DD/MM/YYYY"));
    assert!(validate_date_format("03/04/2024", "DD/MM/YYYY"));
    assert!(validate_date_format("03/04/2024", "MM/DD/YYYY"));
    assert!(!validate_date_format("03/04/2024", "YYYY-MM-DD"));
}

#[test]
fn parse_ambiguous_text_takes_the_day_first() {
    assert_eq!(parse_date("03/04/2024"), Ok(date(2024, 4, 3)));
    assert_eq!(parse_date("12/11/2024"), Ok(date(2024, 11, 12)));
    assert_eq!(parse_date("13/12/2024"), Ok(date(2024, 12, 13)));
    assert_eq!(parse_date("12/13/2024"), Ok(date(2024, 12, 13)));
}

#[test]
fn parse_reports_the_failure_of_the_canonical_layout() {
    assert_eq!(parse_date("invalid"), Err(ParseFailure::Invalid));
    assert_eq!(parse_date("32/13/2024"), Err(ParseFailure::Invalid));
    assert_eq!(parse_date(""), Err(ParseFailure::TooShort));
    assert_eq!(parse_date("2024-"), Err(ParseFailure::TooShort));
    assert_eq!(parse_date("2024-12-25 and more"), Err(ParseFailure::TooLong));
    assert_eq!(parse_date("2024-13-01"), Err(ParseFailure::OutOfRange));
    assert_eq!(parse_date("2023-02-29"), Err(ParseFailure::OutOfRange));
}

#[test]
fn parse_each_layout_on_its_own() {
    assert_eq!(read_as("2024-12-25", DateFormat::YearMonthDay), Ok(date(2024, 12, 25)));
    assert_eq!(read_as("25/12/2024", DateFormat::DayMonthYear), Ok(date(2024, 12, 25)));
    assert_eq!(read_as("12/25/2024", DateFormat::MonthDayYear), Ok(date(2024, 12, 25)));
    assert_eq!(read_as("25/12/2024", DateFormat::YearMonthDay), Err(ParseFailure::Invalid));
    assert_eq!(read_as("12/25/2024", DateFormat::DayMonthYear), Err(ParseFailure::OutOfRange));
    assert_eq!(read_as("2024-12-25", DateFormat::MonthDayYear), Err(ParseFailure::OutOfRange));
}

#[test]
fn parse_does_not_hand_the_text_back_as_a_date() {
    let parsed = parse_date("0007-08-09").unwrap();
    assert_eq!((parsed.year(), parsed.month(), parsed.day()), (7, 8, 9));
    let other = parse_date("09/08/0007").unwrap();
    assert_eq!(parsed, other);
}

#[test]
fn resolve_takes_the_first_success() {
    let a = date(2001, 1, 1);
    let b = date(2002, 2, 2);
    let c = date(2003, 3, 3);
    let x = ParseFailure::Invalid;
    let y = ParseFailure::TooShort;
    let z = ParseFailure::TooLong;
    assert_eq!(resolve(Ok(a), Ok(b), Ok(c)), Ok(a));
    assert_eq!(resolve(Ok(a), Err(y), Err(z)), Ok(a));
    assert_eq!(resolve(Err(x), Ok(b), Ok(c)), Ok(b));
    assert_eq!(resolve(Err(x), Ok(b), Err(z)), Ok(b));
    assert_eq!(resolve(Err(x), Err(y), Ok(c)), Ok(c));
    assert_eq!(resolve(Err(x), Err(y), Err(z)), Err(x));
    assert_eq!(resolve(Err(ParseFailure::OutOfRange), Err(y), Err(z)), Err(ParseFailure::OutOfRange));
    assert_eq!(resolve(Err(ParseFailure::Impossible), Err(y), Err(z)), Err(ParseFailure::Impossible));
    assert_eq!(resolve(Err(ParseFailure::NotEnough), Err(y), Err(z)), Err(ParseFailure::NotEnough));
    assert_eq!(resolve(Err(ParseFailure::BadFormat), Err(y), Err(z)), Err(ParseFailure::BadFormat));
    assert_eq!(resolve(Err(ParseFailure::Other), Err(y), Err(z)), Err(ParseFailure::Other));
}

#[test]
fn round_trip_through_the_canonical_layout() {
    let mut years: Vec<i32> = vec![MIN_YEAR, -10_000, -9999, -400, -1, 0, 1, 999, 1000, 1970];
    years.extend([2000, 2023, 2024, 9999, 10_000, MAX_YEAR]);
    for year in years {
        for month in 1..=12 {
            for day in [1, 9, 10, 28, 29, 30, 31] {
                if let Some(d) = Date::from_ymd_opt(year, month, day) {
                    let text = format_date(&d, "YYYY-MM-DD").unwrap();
                    assert_eq!(parse_date(&text), Ok(d), "{}", text);
                    assert!(validate_date_format(&text, "YYYY-MM-DD"), "{}", text);
                }
            }
        }
    }
}

#[test]
fn round_trip_through_the_other_layouts() {
    for (year, month, day) in [(2024, 3, 15), (1999, 12, 31), (2000, 2, 29), (12_345, 6, 7)] {
        let d = date(year, month, day);
        let day_first = format_date(&d, "DD/MM/YYYY").unwrap();
        assert_eq!(read_as(&day_first, DateFormat::DayMonthYear), Ok(d));
        let month_first = format_date(&d, "MM/DD/YYYY").unwrap();
        assert_eq!(read_as(&month_first, DateFormat::MonthDayYear), Ok(d));
    }
}
