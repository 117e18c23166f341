//! The calendar and clock facts that come from `chrono`: which dates and
//! times of day exist, the range of instants it can represent, and the
//! calls that read the machine's clock and local time zone.
use vstd::prelude::*;
use chrono::Datelike;
use chrono::Timelike;

verus! {

/// First year that `chrono::NaiveDate` represents.
pub const MIN_YEAR: i32 = -262143;

/// Last year that `chrono::NaiveDate` represents.
pub const MAX_YEAR: i32 = 262142;

/// Unix timestamp of `DateTime::<Utc>::MIN_UTC`.
pub const MIN_TIMESTAMP: i64 = -8334601228800;

/// Unix timestamp of the last whole second of `DateTime::<Utc>::MAX_UTC`.
pub const MAX_TIMESTAMP: i64 = 8210266876799;

/// Largest number of seconds that `TimeDelta::seconds` accepts, in either
/// direction.
pub const MAX_DELTA_SECONDS: i64 = 9223372036854775;

pub const SECONDS_PER_DAY: i64 = 86400;

/// Leap years of the proleptic Gregorian calendar.
pub open spec fn is_leap_year(year: int) -> bool {
    year % 4 == 0 && (year % 100 != 0 || year % 400 == 0)
}

pub open spec fn days_in_month(year: int, month: int) -> int {
    if month == 2 {
        if is_leap_year(year) {
            29
        } else {
            28
        }
    } else if month == 4 || month == 6 || month == 9 || month == 11 {
        30
    } else {
        31
    }
}

/// The calendar dates that `NaiveDate::from_ymd_opt` accepts.
pub open spec fn valid_ymd(year: i32, month: u32, day: u32) -> bool {
    &&& MIN_YEAR <= year <= MAX_YEAR
    &&& 1 <= month <= 12
    &&& 1 <= day <= days_in_month(year as int, month as int)
}

/// The times of day that `NaiveTime::from_hms_opt` accepts.
pub open spec fn valid_hms(hour: u32, minute: u32, second: u32) -> bool {
    hour < 24 && minute < 60 && second < 60
}

/// Seconds from midnight of a time of day.
pub open spec fn hms_seconds(hour: u32, minute: u32, second: u32) -> int {
    hour * 3600 + minute * 60 + second
}

/// Days from 1970-01-01 to a date of the proleptic Gregorian calendar
/// (counting in 400-year eras of 146097 days from March 1st).
pub open spec fn days_from_civil(year: int, month: int, day: int) -> int {
    let y = if month <= 2 {
        year - 1
    } else {
        year
    };
    let era = y / 400;
    let yoe = y - era * 400;
    let mp = if month > 2 {
        month - 3
    } else {
        month + 9
    };
    let doy = (153 * mp + 2) / 5 + day - 1;
    let doe = yoe * 365 + yoe / 4 - yoe / 100 + doy;
    era * 146097 + doe - 719468
}

/// The Unix timestamp that a calendar date and time of day read as in UTC,
/// as `NaiveDateTime::and_utc().timestamp()` gives it.
pub open spec fn naive_timestamp(
    year: i32,
    month: u32,
    day: u32,
    hour: u32,
    minute: u32,
    second: u32,
) -> int {
    days_from_civil(year as int, month as int, day as int) * SECONDS_PER_DAY + hms_seconds(
        hour,
        minute,
        second,
    )
}

/// The Unix timestamp that a valid calendar date and time of day read as in
/// UTC.
pub fn wall_clock_seconds(
    year: i32,
    month: u32,
    day: u32,
    hour: u32,
    minute: u32,
    second: u32,
) -> (r: i64)
    requires
        valid_ymd(year, month, day),
        valid_hms(hour, minute, second),
    ensures
        r == naive_timestamp(year, month, day, hour, minute, second),
{
    let y: i64 = if month <= 2 {
        year as i64 - 1
    } else {
        year as i64
    };
    let shifted: i64 = y + 400_000;
    let era: i64 = shifted / 400 - 1000;
    let yoe: i64 = shifted % 400;
    proof {
        vstd::arithmetic::div_mod::lemma_fundamental_div_mod(shifted as int, 400);
        vstd::arithmetic::div_mod::lemma_fundamental_div_mod_converse(
            y as int,
            400,
            era as int,
            yoe as int,
        );
    }
    let mp: i64 = if month > 2 {
        month as i64 - 3
    } else {
        month as i64 + 9
    };
    let doy: i64 = (153 * mp + 2) / 5 + day as i64 - 1;
    let doe: i64 = yoe * 365 + yoe / 4 - yoe / 100 + doy;
    let days: i64 = era * 146097 + doe - 719468;
    days * SECONDS_PER_DAY + (hour as i64) * 3600 + (minute as i64) * 60 + second as i64
}

#[verifier::external_type_specification]
#[verifier::external_body]
pub struct ExNaiveDate(chrono::NaiveDate);

/// `NaiveDate::from_ymd_opt` gives a date exactly for the existing calendar
/// days of the years it represents; which date it is, is left opaque.
pub assume_specification[ chrono::NaiveDate::from_ymd_opt ](year: i32, month: u32, day: u32) -> (r:
    Option<chrono::NaiveDate>)
    ensures
        r is Some <==> valid_ymd(year, month, day),
;

/// `NaiveTime::from_hms_opt(hour, minute, second)`, read back through
/// `num_seconds_from_midnight`: chrono builds the time exactly for valid
/// hours, minutes and seconds and stores `hour * 3600 + minute * 60 + second`.
#[verifier::external_body]
pub(crate) fn naive_time_seconds(hour: u32, minute: u32, second: u32) -> (r: Option<u32>)
    ensures
        r == (if valid_hms(hour, minute, second) {
            Some(hms_seconds(hour, minute, second) as u32)
        } else {
            None
        }),
{
    match chrono::NaiveTime::from_hms_opt(hour, minute, second) {
        Some(t) => Some(t.num_seconds_from_midnight()),
        None => None,
    }
}

/// The offset of the machine's time zone from UTC, in seconds, at the
/// instant `timestamp`: `DateTime::<Utc>::from_timestamp(timestamp, 0)`,
/// `with_timezone(&Local)` and `offset().local_minus_utc()`. chrono gives an
/// instant for every timestamp in its range, and every offset of `Local` is a
/// `FixedOffset`, which is strictly within a day (`FixedOffset::east_opt`).
/// Which offset applies depends on the machine's time zone and is not stated.
#[verifier::external_body]
pub(crate) fn local_offset_at(timestamp: i64) -> (r: Option<i32>)
    ensures
        MIN_TIMESTAMP <= timestamp <= MAX_TIMESTAMP ==> r is Some,
        r matches Some(offset) ==> -SECONDS_PER_DAY < offset < SECONDS_PER_DAY,
{
    match chrono::DateTime::from_timestamp(timestamp, 0) {
        Some(dt) => Some(dt.with_timezone(&chrono::Local).offset().local_minus_utc()),
        None => None,
    }
}

/// The instant at which the machine's time zone shows the wall clock `wall`
/// (given as the Unix timestamp that the same wall clock reads in UTC):
/// `DateTime::<Utc>::from_timestamp(wall, 0)`, `naive_utc()`,
/// `and_local_timezone(Local).latest()`, as a Unix timestamp. It is `None`
/// where the wall clock falls in a gap of the time zone; where there are two
/// instants it is the later. chrono subtracts a `FixedOffset`, which is
/// strictly within a day; which offset, and whether there is a gap, depends on
/// the machine's time zone and is not stated.
#[verifier::external_body]
pub(crate) fn local_instant_of_wall_clock(wall: i64) -> (r: Option<i64>)
    ensures
        r matches Some(ts) ==> -SECONDS_PER_DAY < ts - wall < SECONDS_PER_DAY,
{
    match chrono::DateTime::from_timestamp(wall, 0) {
        Some(dt) => match dt.naive_utc().and_local_timezone(chrono::Local).latest() {
            Some(local) => Some(local.timestamp()),
            None => None,
        },
        None => None,
    }
}

/// A Unix timestamp lies within the year `year` of the proleptic Gregorian
/// calendar, read in UTC.
pub open spec fn year_holds(year: int, timestamp: int) -> bool {
    days_from_civil(year, 1, 1) * SECONDS_PER_DAY <= timestamp < days_from_civil(year + 1, 1, 1)
        * SECONDS_PER_DAY
}

/// A year that the machine's clock can show in its time zone: the year of a
/// wall clock less than a day from an instant between the epoch and the end
/// of chrono's range.
pub open spec fn clock_year(year: i32) -> bool {
    exists|wall: int| -SECONDS_PER_DAY < wall <= MAX_TIMESTAMP && #[trigger] year_holds(year as int, wall)
}

/// `DateTime::<Utc>::from_timestamp(timestamp, 0)` and `Datelike::year`: the
/// year of the UTC date of an instant. chrono builds an instant exactly for
/// the timestamps of its range, and the year is that of the calendar day
/// holding the instant.
#[verifier::external_body]
pub(crate) fn utc_year_at(timestamp: i64) -> (r: Option<i32>)
    ensures
        r is Some <==> MIN_TIMESTAMP <= timestamp <= MAX_TIMESTAMP,
        r matches Some(year) ==> year_holds(year as int, timestamp as int),
{
    match chrono::DateTime::from_timestamp(timestamp, 0) {
        Some(dt) => Some(dt.year()),
        None => None,
    }
}

/// `DateTime::<Utc>::from_timestamp(timestamp, 0).is_some()`: chrono holds an
/// instant exactly for the timestamps of its range.
#[verifier::external_body]
pub(crate) fn utc_instant_exists(timestamp: i64) -> (r: bool)
    ensures
        r == (MIN_TIMESTAMP <= timestamp && timestamp <= MAX_TIMESTAMP),
{
    chrono::DateTime::from_timestamp(timestamp, 0).is_some()
}

#[verifier::external_type_specification]
#[verifier::external_body]
pub struct ExSystemTime(std::time::SystemTime);

/// `SystemTime::now()`: the machine's clock. What it reads depends on the
/// machine, so nothing is stated of it.
#[verifier::external_body]
pub(crate) fn system_time_now() -> (r: std::time::SystemTime) {
    std::time::SystemTime::now()
}

/// `SystemTime::duration_since(UNIX_EPOCH)`: the time from the Unix epoch to
/// `t`, or `None` where `t` lies before the epoch. `t` is opaque here, so
/// nothing is stated of which it is.
#[verifier::external_body]
pub(crate) fn duration_since_epoch(t: &std::time::SystemTime) -> (r: Option<std::time::Duration>) {
    match t.duration_since(std::time::UNIX_EPOCH) {
        Ok(d) => Some(d),
        Err(_) => None,
    }
}

/// `Duration::as_secs`: the whole seconds of a duration, which is opaque
/// here, so nothing is stated of them.
#[verifier::external_body]
pub(crate) fn whole_seconds(d: &std::time::Duration) -> (r: u64) {
    d.as_secs()
}

/// The current Unix time on the machine's clock, as `Utc::now().timestamp()`
/// reads it: the whole seconds since the epoch, where chrono can hold them.
/// Where `Utc::now()` would panic (a clock before 1970 or beyond chrono's
/// range) this is `None`; which time it reads depends on the clock.
pub fn current_utc_timestamp() -> (r: Option<i64>)
    ensures
        r matches Some(t) ==> 0 <= t <= MAX_TIMESTAMP,
{
    let now = system_time_now();
    let since = match duration_since_epoch(&now) {
        Some(d) => d,
        None => {
            return None;
        },
    };
    let secs: u64 = whole_seconds(&since);
    if secs > 0x7fff_ffff_ffff_ffff {
        return None;
    }
    let secs: i64 = secs as i64;
    if utc_instant_exists(secs) {
        Some(secs)
    } else {
        None
    }
}

/// The current year on the machine's clock in its time zone, as
/// `Local::now().year()` reads it: the UTC year of the local wall clock of
/// the current time. `None` where the clock cannot be read (see
/// `current_utc_timestamp`) or its wall clock lies beyond chrono's range.
pub fn current_local_year() -> (r: Option<i32>)
    ensures
        r matches Some(year) ==> clock_year(year),
{
    let now = match current_utc_timestamp() {
        Some(t) => t,
        None => {
            return None;
        },
    };
    let offset: i64 = match local_offset_at(now) {
        Some(o) => o as i64,
        None => {
            return None;
        },
    };
    let wall = now + offset;
    let year = utc_year_at(wall);
    if let Some(y) = year {
        assert(year_holds(y as int, wall as int));
    }
    year
}

} // verus!
