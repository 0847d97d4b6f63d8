use http_proxy::clock::LocalTime;
use http_proxy::crontab::{Crontab, ParseError};
use std::num::IntErrorKind;

fn read(spec: &str) -> Result<Crontab, ParseError> {
    Crontab::checked_new(spec).expect("no step of zero")
}

fn minutes(field: &str) -> Vec<usize> {
    let crontab = read(&format!("{} * * * *", field)).unwrap();
    (0..60).filter(|minute| crontab.is_match(*minute, 0, 1, 1, 0)).collect()
}

fn refused(spec: &str) -> String {
    match read(spec) {
        Err(ParseError::InvalidFormat(text)) => text,
        other => panic!("{:?}", other),
    }
}

fn bad_number(spec: &str) -> IntErrorKind {
    match read(spec) {
        Err(ParseError::ParseIntError(cause)) => cause.kind().clone(),
        other => panic!("{:?}", other),
    }
}

#[test]
fn wildcards_match_every_time_of_the_calendar() {
    let crontab = Crontab::new("* * * * *").unwrap();
    for minute in 0..60 {
        assert!(crontab.is_match(minute, 23, 31, 12, 6));
    }
    assert!(crontab.is_match(0, 0, 1, 1, 0));
}

#[test]
fn times_outside_the_calendar_never_match() {
    let crontab = Crontab::new("* * * * *").unwrap();
    assert!(!crontab.is_match(60, 0, 1, 1, 0));
    assert!(!crontab.is_match(0, 24, 1, 1, 0));
    assert!(!crontab.is_match(0, 0, 0, 1, 0));
    assert!(!crontab.is_match(0, 0, 32, 1, 0));
    assert!(!crontab.is_match(0, 0, 1, 0, 0));
    assert!(!crontab.is_match(0, 0, 1, 13, 0));
    assert!(!crontab.is_match(0, 0, 1, 1, 7));
    assert!(!crontab.is_match(usize::MAX, 0, 1, 1, 0));
}

#[test]
fn each_field_restricts_its_own_part() {
    let crontab = Crontab::new("5 6 7 8 2").unwrap();
    assert!(crontab.is_match(5, 6, 7, 8, 2));
    assert!(!crontab.is_match(4, 6, 7, 8, 2));
    assert!(!crontab.is_match(5, 7, 7, 8, 2));
    assert!(!crontab.is_match(5, 6, 8, 8, 2));
    assert!(!crontab.is_match(5, 6, 7, 9, 2));
    assert!(!crontab.is_match(5, 6, 7, 8, 3));
}

#[test]
fn numbers_ranges_lists_and_steps() {
    assert_eq!(minutes("0"), vec![0]);
    assert_eq!(minutes("59"), vec![59]);
    assert_eq!(minutes("3-6"), vec![3, 4, 5, 6]);
    assert_eq!(minutes("0-2"), vec![0, 1, 2]);
    assert_eq!(minutes("0-0"), vec![0]);
    assert_eq!(minutes("7,3,5-6,3"), vec![3, 5, 6, 7]);
    assert_eq!(minutes("*/15"), vec![0, 15, 30, 45]);
    assert_eq!(minutes("10-30/7"), vec![14, 21, 28]);
    assert_eq!(minutes("0-59/30"), vec![0, 30]);
    assert_eq!(minutes("10/5"), vec![10]);
}

#[test]
fn steps_count_from_zero_and_may_select_nothing() {
    assert_eq!(minutes("11/5"), Vec::<usize>::new());
    assert_eq!(minutes("1-4/5"), Vec::<usize>::new());
    assert_eq!(minutes("9-3"), Vec::<usize>::new());
    let crontab = read("0 0 */10 * *").unwrap();
    let days: Vec<usize> = (1..32).filter(|day| crontab.is_match(0, 0, *day, 1, 0)).collect();
    assert_eq!(days, vec![10, 20, 30]);
}

#[test]
fn bounds_of_the_fields() {
    assert_eq!(refused("60 * * * *"), "60");
    assert_eq!(refused("* 24 * * *"), "24");
    assert_eq!(refused("* * 32 * *"), "32");
    assert_eq!(refused("* * 0 * *"), "0");
    assert_eq!(refused("* * * 13 *"), "13");
    assert_eq!(refused("* * * 0 *"), "0");
    assert_eq!(refused("* * * * 7"), "7");
    assert_eq!(refused("5-60/5 * * * *"), "5-60");
    assert!(read("59 23 31 12 6").is_ok());
    assert!(read("0 0 1 1 0").is_ok());
}

#[test]
fn five_fields_between_any_white_space() {
    assert_eq!(refused(""), "");
    assert_eq!(refused("* * * *"), "* * * *");
    assert_eq!(refused("* * * * * *"), "* * * * * *");
    assert!(read("  *\t*\n* \u{a0}*\u{3000} * ").is_ok());
}

#[test]
fn malformed_items_are_refused() {
    assert_eq!(refused("x * * * *"), "x");
    assert_eq!(refused("1,,2 * * * *"), "");
    assert_eq!(refused("1, * * * *"), "");
    assert_eq!(refused("-1 * * * *"), "-1");
    assert_eq!(refused("** * * * *"), "**");
    assert_eq!(refused("*/ * * * *"), "*/");
    assert_eq!(refused("*/05 * * * *"), "*/05");
    assert_eq!(refused("0-1x * * * *"), "0-1x");
    assert_eq!(refused("01 * * * *"), "01");
}

#[test]
fn an_item_need_only_begin_with_a_digit_or_end_with_zero() {
    assert_eq!(bad_number("1x * * * *"), IntErrorKind::InvalidDigit);
    assert_eq!(bad_number("1/2/3 * * * *"), IntErrorKind::InvalidDigit);
    assert_eq!(bad_number("1/ * * * *"), IntErrorKind::Empty);
    assert_eq!(bad_number("x0 * * * *"), IntErrorKind::InvalidDigit);
    assert_eq!(bad_number("-0 * * * *"), IntErrorKind::Empty);
    assert_eq!(bad_number("99999999999999999999999 * * * *"), IntErrorKind::PosOverflow);
    assert_eq!(minutes("+0"), vec![0]);
    assert_eq!(minutes("010"), vec![10]);
    assert_eq!(minutes("5-010"), vec![5, 6, 7, 8, 9, 10]);
}

#[test]
fn digits_beyond_ascii_have_the_form_of_digits_but_no_value() {
    assert_eq!(bad_number("0-1\u{663} * * * *"), IntErrorKind::InvalidDigit);
    assert_eq!(bad_number("*/1\u{663} * * * *"), IntErrorKind::InvalidDigit);
    assert_eq!(refused("0-1\u{bd} * * * *"), "0-1\u{bd}");
    assert_eq!(refused("\u{663} * * * *"), "\u{663}");
}

#[test]
fn the_first_field_that_fails_is_reported() {
    assert_eq!(refused("x y * * *"), "x");
    assert_eq!(refused("* y 1x * *"), "y");
    assert_eq!(bad_number("* * 1x y *"), IntErrorKind::InvalidDigit);
    assert_eq!(refused("5,x,y * * * *"), "x");
}

#[test]
fn steps_of_zero_are_told_apart() {
    assert!(Crontab::checked_new("*/0 * * * *").is_none());
    assert!(Crontab::checked_new("5/0 * * * *").is_none());
    assert!(Crontab::checked_new("1-5/00 * * * *").is_none());
    assert!(Crontab::checked_new("* * * * */0").is_none());
    assert!(Crontab::checked_new("* * * * */1").is_some());
    // an error comes before the division
    assert_eq!(refused("x,*/0 * * * *"), "x");
    assert_eq!(refused("60/0 * * * *"), "60");
    // nothing to divide
    assert_eq!(minutes("5-3/0"), Vec::<usize>::new());
}

#[test]
fn a_copy_matches_as_its_source_does() {
    let crontab = read("1-10 * * * *").unwrap();
    let copy = crontab.clone();
    assert!(copy.is_match(10, 0, 1, 1, 0));
    assert!(!copy.is_match(11, 0, 1, 1, 0));
}

#[test]
fn the_current_time_is_within_the_calendar() {
    assert!(read("* * * * *").unwrap().is_match_now());
    assert!(!read("9-3 * * * *").unwrap().is_match_now());
}

#[test]
fn a_local_time_matches_by_its_parts() {
    let crontab = read("30 12 24 12 0").unwrap();
    let time = LocalTime { minute: 30, hour: 12, day_of_month: 24, month: 12, day_of_week: 0 };
    assert!(crontab.is_match_at(&time));
    assert!(!crontab.is_match_at(&LocalTime { hour: 13, ..time }));
}

#[test]
fn integer_errors_become_parse_errors() {
    let cause = "x".parse::<usize>().unwrap_err();
    assert!(matches!(ParseError::from(cause), ParseError::ParseIntError(_)));
}

#[test]
fn order_and_repetition_make_no_difference() {
    assert_eq!(minutes("1,2,2,5-7"), minutes("5-7,2,1"));
    assert_eq!(minutes("*/20,3"), minutes("3,*/20,3,*/20"));
}

#[test]
fn a_wildcard_is_the_range_of_all_values() {
    assert_eq!(minutes("*"), minutes("0-59"));
    assert_eq!(minutes("*/7"), minutes("0-59/7"));
    let days = |field: &str| -> Vec<usize> {
        let crontab = read(&format!("* * {} * *", field)).unwrap();
        (0..40).filter(|day| crontab.is_match(0, 0, *day, 1, 0)).collect()
    };
    assert_eq!(days("*"), days("1-31"));
    assert_eq!(days("*/3"), days("1-31/3"));
}

#[test]
fn a_step_of_one_changes_nothing_where_it_is_read() {
    assert_eq!(minutes("*/1"), minutes("*"));
    assert_eq!(minutes("4-9/1"), minutes("4-9"));
    assert_eq!(minutes("7/1"), minutes("7"));
    assert_eq!(refused("0/1 * * * *"), "0/1");
}
