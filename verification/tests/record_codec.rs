use preaching_schedule::date::Date;
use preaching_schedule::record::{DecodeError, PreachingDay};

#[test]
fn new_preacing_day() {
    let date = Date::from_calendar_date(2022, 2, 10).unwrap();
    let preaching_day = PreachingDay::new(date, 135);

    assert_eq!(preaching_day.minutes, 135);
    assert_eq!(preaching_day.date, date);
}

#[test]
fn to_string() {
    let expected = "1,2019,March,10,60";
    let preaching_day = PreachingDay {
        id: 1,
        date: Date::from_calendar_date(2019, 3, 10).unwrap(),
        minutes: 60,
    };

    assert_eq!(preaching_day.to_str(), expected)
}

#[test]
fn preaching_day_from_string() {
    let string = "1,2019,March,10,60";
    let expected = PreachingDay {
        id: 1,
        date: Date::from_calendar_date(2019, 3, 10).unwrap(),
        minutes: 60,
    };

    assert_eq!(PreachingDay::from_string(string), Ok(expected))
}

#[test]
fn preaching_day_from_string_not_trimed() {
    let string = "1 , 2019, March,10,60";
    let expected = PreachingDay {
        id: 1,
        date: Date::from_calendar_date(2019, 3, 10).unwrap(),
        minutes: 60,
    };

    assert_eq!(PreachingDay::from_string(string), Ok(expected))
}

#[test]
fn whitespace_tolerance_matches_plain_form() {
    assert_eq!(
        PreachingDay::from_string("1 , 2019, March,10,60"),
        PreachingDay::from_string("1,2019,March,10,60")
    );
}

#[test]
fn field_count_too_few() {
    assert_eq!(
        PreachingDay::from_string("1,2019,March,10"),
        Err(DecodeError::FieldCountMismatch)
    );
}

#[test]
fn field_count_too_many() {
    assert_eq!(
        PreachingDay::from_string("1,2019,March,10,60,7"),
        Err(DecodeError::FieldCountMismatch)
    );
}

#[test]
fn invalid_calendar_date() {
    assert_eq!(
        PreachingDay::from_string("1,2019,February,30,60"),
        Err(DecodeError::InvalidDate)
    );
}

#[test]
fn leap_year_february() {
    let ok = PreachingDay::from_string("1,2020,February,29,60").unwrap();
    assert_eq!(ok.date, Date::from_calendar_date(2020, 2, 29).unwrap());
    assert_eq!(
        PreachingDay::from_string("1,2019,February,29,60"),
        Err(DecodeError::InvalidDate)
    );
    assert_eq!(
        PreachingDay::from_string("1,1900,February,29,60"),
        Err(DecodeError::InvalidDate)
    );
    assert!(PreachingDay::from_string("1,2000,February,29,60").is_ok());
}

#[test]
fn id_parse_error() {
    assert_eq!(
        PreachingDay::from_string("x,2019,March,10,60"),
        Err(DecodeError::IdParseError)
    );
    assert_eq!(
        PreachingDay::from_string("99999999999999999999,2019,March,10,60"),
        Err(DecodeError::IdParseError)
    );
    assert_eq!(
        PreachingDay::from_string(",2019,March,10,60"),
        Err(DecodeError::IdParseError)
    );
}

#[test]
fn year_parse_error() {
    assert_eq!(
        PreachingDay::from_string("1,20x9,March,10,60"),
        Err(DecodeError::YearParseError)
    );
}

#[test]
fn month_parse_error_is_case_sensitive() {
    assert_eq!(
        PreachingDay::from_string("1,2019,march,10,60"),
        Err(DecodeError::MonthParseError)
    );
    assert_eq!(
        PreachingDay::from_string("1,2019,Mar,10,60"),
        Err(DecodeError::MonthParseError)
    );
}

#[test]
fn day_parse_error() {
    assert_eq!(
        PreachingDay::from_string("1,2019,March,300,60"),
        Err(DecodeError::DayParseError)
    );
    assert_eq!(
        PreachingDay::from_string("1,2019,March,-1,60"),
        Err(DecodeError::DayParseError)
    );
}

#[test]
fn minutes_parse_error() {
    assert_eq!(
        PreachingDay::from_string("1,2019,March,10,abc"),
        Err(DecodeError::MinutesParseError)
    );
    assert_eq!(
        PreachingDay::from_string("1,2019,March,10,9223372036854775808"),
        Err(DecodeError::MinutesParseError)
    );
}

#[test]
fn extreme_values_round_trip() {
    let line = "-2147483648,-9999,January,1,-9223372036854775808";
    let rec = PreachingDay::from_string(line).unwrap();
    assert_eq!(rec.id, i32::MIN);
    assert_eq!(rec.date, Date::from_calendar_date(-9999, 1, 1).unwrap());
    assert_eq!(rec.minutes, i64::MIN);
    assert_eq!(rec.to_str(), line);
}

#[test]
fn plus_signs_accepted_on_read() {
    let rec = PreachingDay::from_string("+1,+2019,March,+10,+60").unwrap();
    assert_eq!(
        rec,
        PreachingDay {
            id: 1,
            date: Date::from_calendar_date(2019, 3, 10).unwrap(),
            minutes: 60,
        }
    );
}

#[test]
fn every_month_round_trips() {
    for m in 1..=12u8 {
        let original = PreachingDay {
            id: m as i32,
            date: Date::from_calendar_date(2021, m, 28).unwrap(),
            minutes: 45,
        };
        let line = original.to_str();
        assert_eq!(PreachingDay::from_string(&line), Ok(original));
    }
}

#[test]
fn fresh_records_get_distinct_ids() {
    let date = Date::from_calendar_date(2022, 2, 10).unwrap();
    let a = PreachingDay::new(date, 135);
    let b = PreachingDay::new(date, 135);
    assert_eq!(a.minutes, b.minutes);
    assert_ne!(a.id(), b.id());
}

#[test]
fn id_accessor() {
    let rec = PreachingDay {
        id: 42,
        date: Date::from_calendar_date(2019, 3, 10).unwrap(),
        minutes: 60,
    };
    assert_eq!(rec.id(), 42);
}

#[test]
fn render_display_line() {
    let rec = PreachingDay {
        id: 1,
        date: Date::from_calendar_date(2019, 3, 10).unwrap(),
        minutes: 60,
    };
    assert_eq!(rec.render_display(), "day Sunday 10 of March, hours: 1:0");
}

#[test]
fn render_display_is_not_zero_padded() {
    let rec = PreachingDay {
        id: 7,
        date: Date::from_calendar_date(2022, 2, 10).unwrap(),
        minutes: 125,
    };
    assert_eq!(
        rec.render_display(),
        "day Thursday 10 of February, hours: 2:5"
    );
}

#[test]
fn date_construction_rejects_bad_components() {
    assert_eq!(Date::from_calendar_date(2019, 0, 1), None);
    assert_eq!(Date::from_calendar_date(2019, 13, 1), None);
    assert_eq!(Date::from_calendar_date(2019, 4, 31), None);
    assert_eq!(Date::from_calendar_date(10000, 1, 1), None);
    assert_eq!(Date::from_calendar_date(-10000, 1, 1), None);
    let d = Date::from_calendar_date(2019, 4, 30).unwrap();
    assert_eq!((d.year, d.month, d.day), (2019, 4, 30));
}
