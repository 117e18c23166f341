use wakectl::parse_time;
use chrono::{DateTime, Datelike, Duration, Local, Timelike, Utc};
use wakectl::time::{
    parse_absolute_time, parse_date_fields, parse_hms, parse_relative_time, parse_schedule_time, parse_time_of_day,
    relative_time_is_within_limits, ScheduleTime, TimeError, UtcTime,
};

fn local(t: UtcTime) -> DateTime<Local> {
    DateTime::<Utc>::from_timestamp(t.timestamp, t.nanos).unwrap().with_timezone(&Local)
}

// Reading a time of day.

#[test]
fn parses_hour_only() {
    let ScheduleTime::TimeOfDay(time) = parse_time_of_day("8").unwrap() else {
        panic!("Expected time of day");
    };

    assert_eq!(time.hour(), 8);
    assert_eq!(time.minute(), 0);
    assert_eq!(time.second(), 0);
}

#[test]
fn parses_hour_and_minutes() {
    let ScheduleTime::TimeOfDay(time) = parse_time_of_day("14:30").unwrap() else {
        panic!("Expected time of day");
    };

    assert_eq!(time.hour(), 14);
    assert_eq!(time.minute(), 30);
    assert_eq!(time.second(), 0);
}

#[test]
fn parses_hour_minute_second() {
    let ScheduleTime::TimeOfDay(time) = parse_time_of_day("23:59:58").unwrap() else {
        panic!("Expected time of day");
    };

    assert_eq!(time.hour(), 23);
    assert_eq!(time.minute(), 59);
    assert_eq!(time.second(), 58);
}

#[test]
fn converts_pm_to_24_hour() {
    let ScheduleTime::TimeOfDay(time) = parse_time_of_day("3pm").unwrap() else {
        panic!("Expected time of day");
    };

    assert_eq!(time.hour(), 15);
    assert_eq!(time.minute(), 0);
    assert_eq!(time.second(), 0);
}

#[test]
fn converts_am_to_24_hour() {
    let ScheduleTime::TimeOfDay(time) = parse_time_of_day("7am").unwrap() else {
        panic!("Expected time of day");
    };

    assert_eq!(time.hour(), 7);
}

#[test]
fn parses_am_pm_edge_cases() {
    let ScheduleTime::TimeOfDay(time) = parse_time_of_day("12pm").unwrap() else {
        panic!("Expected time of day");
    };

    assert_eq!(time.hour(), 12);

    let ScheduleTime::TimeOfDay(time) = parse_time_of_day("12am").unwrap() else {
        panic!("Expected time of day");
    };

    assert_eq!(time.hour(), 0);
}

#[test]
fn rejects_both_am_and_pm() {
    assert!(parse_time_of_day("7ampm").is_err());
}

#[test]
fn rejects_invalid_characters() {
    assert!(parse_time_of_day("12:ab").is_err());
}

#[test]
fn rejects_invalid_hour() {
    assert!(parse_time_of_day("25:00").is_err());
}

#[test]
fn rejects_invalid_minute() {
    assert!(parse_time_of_day("12:60").is_err());
}

#[test]
fn rejects_invalid_second() {
    assert!(parse_time_of_day("12:00:60").is_err());
}

// Reading a relative time.

#[test]
fn parses_seconds() {
    let result_seconds = parse_relative_time("+90s").unwrap();
    assert_eq!(result_seconds, ScheduleTime::Relative(Duration::seconds(90).num_seconds()));
}

#[test]
fn parses_minutes() {
    let result_minutes = parse_relative_time("+3m").unwrap();
    assert_eq!(result_minutes, ScheduleTime::Relative(Duration::minutes(3).num_seconds()));
}

#[test]
fn parses_hours() {
    let result_hours = parse_relative_time("+2h").unwrap();
    assert_eq!(result_hours, ScheduleTime::Relative(Duration::hours(2).num_seconds()));
}

#[test]
fn parses_days() {
    let result_days = parse_relative_time("+4d").unwrap();
    assert_eq!(result_days, ScheduleTime::Relative(Duration::days(4).num_seconds()));
}

#[test]
fn reject_too_few_characters() {
    assert!(parse_relative_time("").is_err());
    assert!(parse_relative_time("+5").is_err());
}

#[test]
fn reject_doesnt_start_with_plus() {
    assert!(parse_relative_time("5m").is_err());
}

#[test]
fn reject_invalid_numbers() {
    assert!(parse_relative_time("+qm").is_err())
}

#[test]
fn reject_invalid_unit() {
    assert!(parse_relative_time("+10q").is_err());
}

// Reading a time of day on a date.

#[test]
fn time_parses_hour_only() {
    let ScheduleTime::Absolute(dt) = parse_absolute_time("8", "12/25/2026").unwrap() else {
        panic!("Expected absolute time");
    };

    assert_eq!(local(dt).hour(), 8);
    assert_eq!(local(dt).minute(), 0);
    assert_eq!(local(dt).second(), 0);
    assert_eq!(local(dt).month(), 12);
    assert_eq!(local(dt).day(), 25);
    assert_eq!(local(dt).year(), 2026);
}

#[test]
fn time_parses_hour_and_minutes() {
    let ScheduleTime::Absolute(dt) = parse_absolute_time("14:30", "7/4/2026").unwrap() else {
        panic!("Expected absolute time");
    };

    assert_eq!(local(dt).hour(), 14);
    assert_eq!(local(dt).minute(), 30);
    assert_eq!(local(dt).second(), 0);
}

#[test]
fn time_parses_hour_minute_second() {
    let ScheduleTime::Absolute(dt) = parse_absolute_time("23:59:58", "1/1/2026").unwrap() else {
        panic!("Expected absolute time");
    };

    assert_eq!(local(dt).hour(), 23);
    assert_eq!(local(dt).minute(), 59);
    assert_eq!(local(dt).second(), 58);
}

#[test]
fn time_converts_pm_to_24_hour() {
    let ScheduleTime::Absolute(dt) = parse_absolute_time("3pm", "5/10/2026").unwrap() else {
        panic!("Expected absolute time");
    };

    assert_eq!(local(dt).hour(), 15);
}

#[test]
fn parses_pm_edge_cases() {
    let ScheduleTime::Absolute(dt) = parse_absolute_time("23pm", "5/10/2026").unwrap() else {
        panic!("Expected absolute time");
    };

    assert_eq!(local(dt).hour(), 23);

    let ScheduleTime::Absolute(dt) = parse_absolute_time("12pm", "5/10/2026").unwrap() else {
        panic!("Expected absolute time");
    };

    assert_eq!(local(dt).hour(), 12);

    let ScheduleTime::Absolute(dt) = parse_absolute_time("12am", "5/10/2026").unwrap() else {
        panic!("Expected absolute time");
    };

    assert_eq!(local(dt).hour(), 0);
}

#[test]
fn leaves_am_as_morning() {
    let ScheduleTime::Absolute(dt) = parse_absolute_time("7am", "5/10/2026").unwrap() else {
        panic!("Expected absolute time");
    };

    assert_eq!(local(dt).hour(), 7);
}

#[test]
fn time_rejects_both_am_and_pm() {
    assert!(parse_absolute_time("7ampm", "1/1/2026").is_err());
}

#[test]
fn rejects_invalid_time_characters() {
    assert!(parse_absolute_time("12:ab", "1/1/2026").is_err());
}

#[test]
fn rejects_invalid_date_format() {
    assert!(parse_absolute_time("12:00", "2026-01-01").is_err());
}

#[test]
fn rejects_invalid_date() {
    assert!(parse_absolute_time("12:00", "2/30/2026").is_err());
}

#[test]
fn rejects_invalid_time() {
    assert!(parse_absolute_time("25:00", "1/1/2026").is_err());
    assert!(parse_absolute_time("5:90", "1/1/2026").is_err());
}

#[test]
fn uses_current_year_when_not_provided() {
    let current_year = Local::now().year();

    let ScheduleTime::Absolute(dt) = parse_absolute_time("8:30", "6/15").unwrap() else {
        panic!("Expected absolute time");
    };

    assert_eq!(local(dt).year(), current_year);
    assert_eq!(local(dt).month(), 6);
    assert_eq!(local(dt).day(), 15);
}

// Further cases.

#[test]
fn hms_reads_the_documented_shapes() {
    assert_eq!(parse_hms("8"), Ok((8, 0, 0)));
    assert_eq!(parse_hms("08:05"), Ok((8, 5, 0)));
    assert_eq!(parse_hms("23:59:58"), Ok((23, 59, 58)));
    assert_eq!(parse_hms("11pm"), Ok((23, 0, 0)));
    assert_eq!(parse_hms("12am"), Ok((0, 0, 0)));
    assert_eq!(parse_hms("1am"), Ok((1, 0, 0)));
    assert_eq!(parse_hms("13pm"), Ok((13, 0, 0)));
    assert_eq!(parse_hms("+7:+5"), Ok((7, 5, 0)));
    assert_eq!(parse_hms("12:00:00:99"), Err(TimeError::InvalidTimeFormat));
    assert_eq!(parse_hms("1:2:3:4"), Err(TimeError::InvalidTimeFormat));
    assert_eq!(parse_hms("25:00"), Ok((25, 0, 0)));
}

#[test]
fn hms_ignores_case() {
    assert_eq!(parse_hms("3PM"), parse_hms("3pm"));
    assert_eq!(parse_hms("12Am"), Ok((0, 0, 0)));
    assert_eq!(parse_hms("7aMpM"), Err(TimeError::InvalidTimeCharacters));
}

#[test]
fn hms_errors() {
    assert_eq!(parse_hms(""), Err(TimeError::InvalidTimeCharacters));
    assert_eq!(parse_hms("am"), Err(TimeError::InvalidTimeCharacters));
    assert_eq!(parse_hms("12:ab"), Err(TimeError::InvalidTimeCharacters));
    assert_eq!(parse_hms("7ampm"), Err(TimeError::InvalidTimeCharacters));
    assert_eq!(parse_hms("3pma"), Err(TimeError::InvalidTimeCharacters));
    assert_eq!(parse_hms("12:00:00:xx"), Err(TimeError::InvalidTimeCharacters));
    assert_eq!(parse_hms("3000000000"), Err(TimeError::InvalidTimeCharacters));
    assert_eq!(parse_hms("-1"), Err(TimeError::InvalidTimeNumber));
    assert_eq!(parse_hms("12:-5"), Err(TimeError::InvalidTimeNumber));
    assert_eq!(parse_hms("8é"), Err(TimeError::InvalidTimeCharacters));
}

#[test]
fn time_of_day_errors() {
    assert_eq!(parse_time_of_day("25:00"), Err(TimeError::InvalidTime));
    assert_eq!(parse_time_of_day("x"), Err(TimeError::InvalidTimeCharacters));
}

#[test]
fn relative_errors() {
    assert_eq!(parse_relative_time("5m"), Err(TimeError::MissingPlusSign));
    assert_eq!(parse_relative_time("+5"), Err(TimeError::RelativeFormat));
    assert_eq!(parse_relative_time("+"), Err(TimeError::RelativeFormat));
    assert_eq!(parse_relative_time("+qm"), Err(TimeError::InvalidNumber));
    assert_eq!(parse_relative_time("+m"), Err(TimeError::RelativeFormat));
    assert_eq!(parse_relative_time("+10q"), Err(TimeError::InvalidUnit));
    assert_eq!(parse_relative_time("+-5m"), Err(TimeError::InvalidNumber));
    assert_eq!(parse_relative_time("++5h"), Err(TimeError::InvalidNumber));
}

#[test]
fn relative_limits() {
    assert!(relative_time_is_within_limits("+90s"));
    assert!(relative_time_is_within_limits("5m"));
    assert!(relative_time_is_within_limits("+x"));
    assert!(!relative_time_is_within_limits("+1é"));
    assert!(!relative_time_is_within_limits("+é"));
    assert!(relative_time_is_within_limits("+9223372036854775s"));
    assert!(!relative_time_is_within_limits("+9223372036854776s"));
    assert!(relative_time_is_within_limits("+-9223372036854775s"));
    assert!(relative_time_is_within_limits("+-9223372036854776s"));
    assert!(relative_time_is_within_limits("+106751991167d"));
    assert!(!relative_time_is_within_limits("+106751991168d"));
    assert!(relative_time_is_within_limits("+99999999999999999999s"));
}

#[test]
fn absolute_errors() {
    assert_eq!(parse_absolute_time("x", "1/1/2026"), Err(TimeError::InvalidTimeCharacters));
    assert_eq!(parse_absolute_time("12:00", "2026-01-01"), Err(TimeError::InvalidDateFormat));
    assert_eq!(parse_absolute_time("12:00", "1/x"), Err(TimeError::InvalidDateCharacters));
    assert_eq!(parse_absolute_time("12:00", "1/-1"), Err(TimeError::InvalidDateCharacters));
    assert_eq!(parse_absolute_time("12:00", "1/1/3000000000"), Err(TimeError::InvalidDateNumber));
    assert_eq!(parse_absolute_time("12:00", "2/30/2026"), Err(TimeError::InvalidDate));
    assert_eq!(parse_absolute_time("12:00", "2/29/2100"), Err(TimeError::InvalidDate));
    assert_eq!(parse_absolute_time("12:00", "13/1/2026"), Err(TimeError::InvalidDate));
    assert_eq!(parse_absolute_time("12:60", "1/1/2026"), Err(TimeError::InvalidTime));
    assert!(parse_absolute_time("12:00", "2/29/2000").is_ok());
    assert!(parse_absolute_time("12:00", "2/29/2024").is_ok());
    assert!(parse_absolute_time("12:00", "1/2/2026/junk9").is_err());
    assert_eq!(parse_absolute_time("12:00", "1/2/2026/9"), Err(TimeError::InvalidDateFormat));
    assert_eq!(parse_absolute_time("1:2:3:4", "1/1/2026"), Err(TimeError::InvalidTimeFormat));
}

#[test]
fn schedule_time_dispatch() {
    assert_eq!(parse_schedule_time("+2h", None), Ok(ScheduleTime::Relative(7_200)));
    assert!(matches!(parse_schedule_time("7am", None), Ok(ScheduleTime::TimeOfDay(_))));
    assert!(matches!(parse_schedule_time("7am", Some("1/2/2026")), Ok(ScheduleTime::Absolute(_))));
    assert_eq!(parse_schedule_time("5+m", None), Err(TimeError::MissingPlusSign));
}

#[test]
fn relative_reading_adds_current_time() {
    let before = Utc::now().timestamp();
    let r = parse_time::parse_relative_time("+90s").unwrap();
    let after = Utc::now().timestamp();
    let parse_time::ScheduleTime::Relative(total) = r else {
        panic!("Expected relative time");
    };
    assert!(before + 90 <= total && total <= after + 90);
    assert!(parse_time::parse_relative_time("5m").is_err());
    assert_eq!(
        parse_time::relative_at(9_223_372_036_854_775, 1),
        Err(TimeError::OutOfRange)
    );
    assert_eq!(parse_time::relative_at(10, -3), Ok(parse_time::ScheduleTime::Relative(7)));
}

#[test]
fn date_fields_shapes() {
    assert_eq!(parse_date_fields("12/25/2026"), Ok((12, 25, Some(2026))));
    assert_eq!(parse_date_fields("06/15"), Ok((6, 15, None)));
    assert_eq!(parse_date_fields("+1/2/+3"), Ok((1, 2, Some(3))));
    assert_eq!(parse_date_fields("1/2/3/4"), Err(TimeError::InvalidDateFormat));
    assert_eq!(parse_date_fields("1//3"), Err(TimeError::InvalidDateCharacters));
    assert_eq!(parse_date_fields("/"), Err(TimeError::InvalidDateCharacters));
    assert_eq!(parse_date_fields("12"), Err(TimeError::InvalidDateFormat));
    assert_eq!(parse_date_fields("1/2/4294967295"), Err(TimeError::InvalidDateNumber));
}

#[test]
fn written_times_of_day_read_back() {
    for h in 0..24u32 {
        for (m, s) in [(0u32, 0u32), (5, 0), (59, 58)] {
            let t = chrono::NaiveTime::from_hms_opt(h, m, s).unwrap();
            for text in [t.format("%H:%M:%S").to_string(), t.format("%I:%M:%S%p").to_string()] {
                let ScheduleTime::TimeOfDay(got) = parse_time_of_day(&text).unwrap() else {
                    panic!("Expected time of day for {}", text);
                };
                assert_eq!((got.hour(), got.minute(), got.second()), (h, m, s), "{}", text);
            }
        }
    }
    assert_eq!(parse_hms("12:05:00AM"), Ok((0, 5, 0)));
    assert_eq!(parse_hms("12:05:00PM"), Ok((12, 5, 0)));
    assert_eq!(parse_hms("01:05:00PM"), Ok((13, 5, 0)));
}
