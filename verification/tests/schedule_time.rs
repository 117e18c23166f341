use chrono::{DateTime, Datelike, Duration, Local, NaiveTime, TimeZone, Timelike, Utc};
use wakectl::clock::{
    wall_clock_seconds, MAX_DELTA_SECONDS, MAX_TIMESTAMP, MAX_YEAR, MIN_TIMESTAMP, MIN_YEAR,
};
use wakectl::time::{
    add_seconds, is_less_than_month, next_occurrence, wall_clock_on_same_day, ScheduleTime,
    TimeError, TimeOfDay, UtcTime, WALL_CLOCK_FLOOR,
};

fn utc_time(dt: DateTime<Utc>) -> UtcTime {
    UtcTime { timestamp: dt.timestamp(), nanos: dt.timestamp_subsec_nanos() }
}

fn chrono_time(t: UtcTime) -> DateTime<Utc> {
    DateTime::<Utc>::from_timestamp(t.timestamp, t.nanos).unwrap()
}

fn time_of_day(t: NaiveTime) -> TimeOfDay {
    TimeOfDay::from_hms_opt(t.hour(), t.minute(), t.second()).unwrap()
}

#[test]
fn time_of_day_returns_next_occurrence() {
    let current_time = Local
        .with_ymd_and_hms(2026, 8, 13, 10, 0, 0)
        .unwrap()
        .with_timezone(&Utc);

    let time = ScheduleTime::TimeOfDay(time_of_day(NaiveTime::from_hms_opt(14, 30, 0).unwrap()));

    let result = time.to_datetime(utc_time(current_time)).unwrap();

    assert_eq!(
        chrono_time(result).with_timezone(&Local),
        Local.with_ymd_and_hms(2026, 8, 13, 14, 30, 0).unwrap()
    );
}

#[test]
fn time_of_day_rolls_over_to_next_day() {
    let current_time = Local
        .with_ymd_and_hms(2026, 8, 13, 15, 0, 0)
        .unwrap()
        .with_timezone(&Utc);

    let time = ScheduleTime::TimeOfDay(time_of_day(NaiveTime::from_hms_opt(14, 30, 0).unwrap()));

    let result = time.to_datetime(utc_time(current_time)).unwrap();

    assert_eq!(
        chrono_time(result).with_timezone(&Local),
        Local.with_ymd_and_hms(2026, 8, 14, 14, 30, 0).unwrap()
    );
}

#[test]
fn relative_time_adds_duration() {
    let current_time = Utc.with_ymd_and_hms(2026, 8, 13, 10, 0, 0).unwrap();

    let time = ScheduleTime::Relative(Duration::hours(2).num_seconds());

    assert_eq!(
        chrono_time(time.to_datetime(utc_time(current_time)).unwrap()),
        Utc.with_ymd_and_hms(2026, 8, 13, 12, 0, 0).unwrap()
    );
}

#[test]
fn absolute_time_returns_same_time() {
    let current_time = Utc.with_ymd_and_hms(2026, 8, 13, 10, 0, 0).unwrap();
    let absolute = Utc.with_ymd_and_hms(2026, 8, 20, 15, 30, 0).unwrap();

    let time = ScheduleTime::Absolute(utc_time(absolute));

    assert_eq!(chrono_time(time.to_datetime(utc_time(current_time)).unwrap()), absolute);
}

#[test]
fn relative_time_keeps_nanoseconds() {
    let now = UtcTime { timestamp: 1_000, nanos: 250 };
    let time = ScheduleTime::Relative(-40);
    assert_eq!(time.to_datetime(now).unwrap(), UtcTime { timestamp: 960, nanos: 250 });
}

#[test]
fn time_of_day_result_lies_after_now() {
    let now = utc_time(Utc.with_ymd_and_hms(2026, 3, 2, 12, 0, 30).unwrap());
    for (h, m, s) in [(0, 0, 0), (11, 59, 59), (12, 0, 30), (12, 0, 31), (23, 59, 59)] {
        let time = ScheduleTime::TimeOfDay(TimeOfDay::from_hms_opt(h, m, s).unwrap());
        let result = time.to_datetime(now).unwrap();
        assert_eq!(result.nanos, 0);
        let local = chrono_time(result).with_timezone(&Local);
            assert_eq!((local.hour(), local.minute(), local.second()), (h, m, s));
    }
}

#[test]
fn resolve_gives_timestamps() {
    let now = UtcTime { timestamp: 1_700_000_000, nanos: 999 };
    assert_eq!(ScheduleTime::Relative(90).resolve(now), Ok(1_700_000_090));
    let absolute = UtcTime { timestamp: 5, nanos: 7 };
    assert_eq!(ScheduleTime::Absolute(absolute).resolve(now), Ok(5));
}

#[test]
fn resolve_rounds_like_f64() {
    let now = UtcTime { timestamp: 0, nanos: 0 };
    let spans: [i64; 10] = [
        0,
        1,
        -1,
        (1 << 53) - 1,
        1 << 53,
        (1 << 53) + 1,
        (1 << 53) + 3,
        -(1 << 53) - 1,
        9_223_372_036_854_775,
        -9_223_372_036_854_775,
    ];
    for d in spans {
        let expected = Duration::seconds(d).as_seconds_f64() as i64;
        assert_eq!(ScheduleTime::Relative(d).resolve(now), Ok(expected), "span {}", d);
    }
}

#[test]
fn next_occurrence_edges() {
    let now = UtcTime { timestamp: 100, nanos: 5 };
    assert_eq!(next_occurrence(None, now), Err(TimeError::NonexistentLocalTime));
    assert_eq!(next_occurrence(Some(100), now), Ok(UtcTime { timestamp: 86_500, nanos: 0 }));
    assert_eq!(next_occurrence(Some(101), now), Ok(UtcTime { timestamp: 101, nanos: 0 }));
    let late = UtcTime { timestamp: MAX_TIMESTAMP, nanos: 0 };
    assert_eq!(next_occurrence(Some(MAX_TIMESTAMP - 10), late), Err(TimeError::OutOfRange));
}

#[test]
fn within_a_month() {
    let now = UtcTime { timestamp: 1_000_000, nanos: 0 };
    assert_eq!(is_less_than_month(now, ScheduleTime::Relative(31 * 86_400)), Ok(true));
    assert_eq!(is_less_than_month(now, ScheduleTime::Relative(31 * 86_400 + 1)), Ok(false));
    assert_eq!(
        is_less_than_month(now, ScheduleTime::Absolute(UtcTime { timestamp: 999_999, nanos: 0 })),
        Err(TimeError::BeforeCurrentTime)
    );
}

#[test]
fn chrono_range_constants() {
    assert_eq!(DateTime::<Utc>::MIN_UTC.timestamp(), MIN_TIMESTAMP);
    assert_eq!(DateTime::<Utc>::MAX_UTC.timestamp(), MAX_TIMESTAMP);
    assert!(chrono::TimeDelta::try_seconds(MAX_DELTA_SECONDS).is_some());
    assert!(chrono::TimeDelta::try_seconds(MAX_DELTA_SECONDS + 1).is_none());
    assert!(chrono::TimeDelta::try_seconds(-MAX_DELTA_SECONDS).is_some());
    assert!(chrono::TimeDelta::try_seconds(-MAX_DELTA_SECONDS - 1).is_none());
    assert!(chrono::NaiveDate::from_ymd_opt(MIN_YEAR, 1, 1).is_some());
    assert!(chrono::NaiveDate::from_ymd_opt(MIN_YEAR - 1, 12, 31).is_none());
    assert!(chrono::NaiveDate::from_ymd_opt(MAX_YEAR, 12, 31).is_some());
    assert!(chrono::NaiveDate::from_ymd_opt(MAX_YEAR + 1, 1, 1).is_none());
}

#[test]
fn time_of_day_parts() {
    let t = TimeOfDay::from_hms_opt(23, 59, 58).unwrap();
    assert_eq!(t.num_seconds_from_midnight(), 86_398);
    assert_eq!((t.hour(), t.minute(), t.second()), (23, 59, 58));
    assert!(TimeOfDay::from_hms_opt(24, 0, 0).is_none());
    assert!(TimeOfDay::from_hms_opt(0, 60, 0).is_none());
    assert!(TimeOfDay::from_hms_opt(0, 0, 60).is_none());
}

#[test]
fn wall_clock_seconds_matches_chrono() {
    let years: [i32; 14] = [
        MIN_YEAR, MIN_YEAR + 1, -4001, -401, -100, -1, 0, 1, 1969, 1970, 2000, 2100, 2026, MAX_YEAR,
    ];
    for year in years {
        for month in 1..=12u32 {
            for day in [1u32, 15, 28, 29, 30, 31] {
                let Some(date) = chrono::NaiveDate::from_ymd_opt(year, month, day) else {
                    continue;
                };
                for (h, m, s) in [(0u32, 0u32, 0u32), (12, 34, 56), (23, 59, 59)] {
                    let expected = date.and_hms_opt(h, m, s).unwrap().and_utc().timestamp();
                    assert_eq!(wall_clock_seconds(year, month, day, h, m, s), expected);
                }
            }
        }
    }
    assert_eq!(wall_clock_seconds(1970, 1, 1, 0, 0, 0), 0);
    assert_eq!(wall_clock_seconds(MIN_YEAR, 1, 1, 0, 0, 0), MIN_TIMESTAMP);
    assert_eq!(wall_clock_seconds(MAX_YEAR, 12, 31, 23, 59, 59), MAX_TIMESTAMP);
}

#[test]
fn add_seconds_matches_chrono() {
    let leap_base = Utc.with_ymd_and_hms(2016, 12, 31, 23, 59, 59).unwrap().timestamp();
    let starts = [
        (leap_base, 1_500_000_000u32),
        (leap_base, 1_000_000_000),
        (leap_base, 999_999_999),
        (1_000, 250),
        (-86_401, 0),
    ];
    for (ts, nanos) in starts {
        for d in [-86_400i64, -2, -1, 0, 1, 2, 86_400] {
            let start = DateTime::<Utc>::from_timestamp(ts, nanos).unwrap();
            let expected = start + chrono::TimeDelta::seconds(d);
            let got = add_seconds(UtcTime { timestamp: ts, nanos }, d);
            assert_eq!(chrono_time(got), expected, "start {} {} plus {}", ts, nanos, d);
        }
    }
}

#[test]
fn utc_time_validity() {
    assert!(UtcTime { timestamp: 59, nanos: 1_999_999_999 }.is_valid());
    assert!(UtcTime { timestamp: -1, nanos: 1_000_000_000 }.is_valid());
    assert!(!UtcTime { timestamp: 58, nanos: 1_000_000_000 }.is_valid());
    assert!(!UtcTime { timestamp: 59, nanos: 2_000_000_000 }.is_valid());
    assert!(UtcTime { timestamp: MAX_TIMESTAMP, nanos: 0 }.is_valid());
    assert!(!UtcTime { timestamp: MAX_TIMESTAMP + 1, nanos: 0 }.is_valid());
    assert!(!UtcTime { timestamp: MIN_TIMESTAMP - 1, nanos: 0 }.is_valid());
    for (ts, nanos) in [(59i64, 1_500_000_000u32), (58, 1_500_000_000), (0, 5), (-1, 1_000_000_000)] {
        let chrono_accepts = DateTime::<Utc>::from_timestamp(ts, nanos).is_some();
        assert_eq!(UtcTime { timestamp: ts, nanos }.is_valid(), chrono_accepts);
    }
}

#[test]
fn wall_clock_on_same_day_keeps_the_date() {
    let wall = Utc.with_ymd_and_hms(2026, 8, 14, 8, 0, 0).unwrap().timestamp();
    let expected = Utc.with_ymd_and_hms(2026, 8, 14, 7, 0, 0).unwrap().timestamp();
    assert_eq!(wall_clock_on_same_day(wall, 7 * 3600), expected);
    assert_eq!(wall_clock_on_same_day(-1, 0), -86_400);
    assert_eq!(wall_clock_on_same_day(WALL_CLOCK_FLOOR + 1, 5), WALL_CLOCK_FLOOR + 5);
}

#[test]
fn next_local_occurrence_in_a_fixed_zone() {
    let offset: i64 = 9 * 3600;
    let now = utc_time(Utc.with_ymd_and_hms(2026, 8, 13, 23, 0, 0).unwrap());
    let wall = wall_clock_on_same_day(now.timestamp + offset, 7 * 3600);
    let result = next_occurrence(Some(wall - offset), now).unwrap();
    assert_eq!(chrono_time(result), Utc.with_ymd_and_hms(2026, 8, 14, 22, 0, 0).unwrap());
}

#[test]
fn to_datetime_during_a_leap_second() {
    let leap = UtcTime {
        timestamp: Utc.with_ymd_and_hms(2016, 12, 31, 23, 59, 59).unwrap().timestamp(),
        nanos: 1_500_000_000,
    };
    assert_eq!(
        ScheduleTime::Relative(10).to_datetime(leap),
        Ok(UtcTime { timestamp: leap.timestamp + 10, nanos: 500_000_000 })
    );
    assert_eq!(
        ScheduleTime::Relative(-10).to_datetime(leap),
        Ok(UtcTime { timestamp: leap.timestamp - 9, nanos: 500_000_000 })
    );
    let time = ScheduleTime::TimeOfDay(TimeOfDay::from_hms_opt(6, 0, 0).unwrap());
    let result = time.to_datetime(leap).unwrap();
    assert!(result.timestamp > leap.timestamp);
    assert!(result.timestamp <= leap.timestamp + 86_400);
    let local = chrono_time(result).with_timezone(&Local);
    assert_eq!((local.hour(), local.minute(), local.second()), (6, 0, 0));
}

#[test]
fn clock_readings_match_chrono() {
    let before = Utc::now().timestamp();
    let now = wakectl::clock::current_utc_timestamp().unwrap();
    let after = Utc::now().timestamp();
    assert!(before <= now && now <= after);
    let year = wakectl::clock::current_local_year().unwrap();
    let a = Local::now().year();
    let b = Local::now().year();
    assert!(year == a || year == b);
}

#[test]
fn time_of_day_always_placed_through_a_year() {
    let start = Utc.with_ymd_and_hms(2026, 1, 1, 0, 30, 0).unwrap().timestamp();
    for day in 0..366i64 {
        for hour in [0u32, 1, 2, 3, 12, 23] {
            let now = UtcTime { timestamp: start + day * 86_400 + (hour as i64) * 1_800, nanos: 0 };
            let time = ScheduleTime::TimeOfDay(TimeOfDay::from_hms_opt(hour, 30, 0).unwrap());
            let result = time.to_datetime(now).unwrap();
            assert!(result.timestamp > now.timestamp);
            assert!(result.timestamp <= now.timestamp + 2 * 86_400);
        }
    }
}
