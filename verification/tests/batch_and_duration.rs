use preaching_schedule::batch::parse_lines_to_preaching_days;
use preaching_schedule::date::Date;
use preaching_schedule::duration::{parse_minutes, Duration};
use preaching_schedule::record::{DecodeError, PreachingDay};

#[test]
fn duration_of_135_minutes() {
    assert_eq!(parse_minutes(135), Duration(2, 15));
}

#[test]
fn duration_of_60_minutes() {
    assert_eq!(parse_minutes(60), Duration(1, 0));
}

#[test]
fn duration_of_zero_minutes() {
    assert_eq!(parse_minutes(0), Duration(0, 0));
}

#[test]
fn duration_of_negative_minutes_truncates_toward_zero() {
    assert_eq!(parse_minutes(-135), Duration(-2, -15));
    assert_eq!(parse_minutes(i64::MIN), Duration(i64::MIN / 60, i64::MIN % 60));
}

#[test]
fn batch_parses_every_line_in_order() {
    let lines = String::from("1,2019,March,10,60\n2,2019,March,11,30");
    let days = parse_lines_to_preaching_days(lines).unwrap();
    assert_eq!(
        days,
        vec![
            PreachingDay {
                id: 1,
                date: Date::from_calendar_date(2019, 3, 10).unwrap(),
                minutes: 60,
            },
            PreachingDay {
                id: 2,
                date: Date::from_calendar_date(2019, 3, 11).unwrap(),
                minutes: 30,
            },
        ]
    );
}

#[test]
fn batch_tolerates_trailing_newline_and_padding() {
    let lines = String::from(" 1,2019,March,10,60 \r\n2,2019,March,11,30\n");
    let days = parse_lines_to_preaching_days(lines).unwrap();
    assert_eq!(days.len(), 2);
    assert_eq!(days[0].id, 1);
    assert_eq!(days[1].id, 2);
}

#[test]
fn batch_of_empty_input_is_empty() {
    assert_eq!(parse_lines_to_preaching_days(String::new()), Ok(vec![]));
}

#[test]
fn batch_fails_fast_on_first_bad_line() {
    let lines = String::from("1,2019,March,10,60\nbad-line\n2,2019,March,11,30");
    let bad_line_error = PreachingDay::from_string("bad-line").unwrap_err();
    assert_eq!(parse_lines_to_preaching_days(lines), Err(bad_line_error));
    assert_eq!(bad_line_error, DecodeError::FieldCountMismatch);
}

#[test]
fn batch_reports_the_first_of_two_errors() {
    let lines = String::from("1,2019,February,30,60\nx,2019,March,10,60");
    assert_eq!(
        parse_lines_to_preaching_days(lines),
        Err(DecodeError::InvalidDate)
    );
}
