//! Relative times read as absolute Unix times: the current Unix time
//! plus the span given.
use vstd::prelude::*;

use crate::clock::MAX_DELTA_SECONDS;
use crate::clock::MAX_TIMESTAMP;
use crate::clock::current_utc_timestamp;
use crate::time::TimeError;
use crate::time::UtcTime;
use crate::time::read_relative_seconds;
use crate::time::relative_seconds_computable;
use crate::time::relative_seconds_from_text;

verus! {

/// When a wake event should happen: a span of whole seconds, or an instant.
#[derive(Clone, Copy, Debug, PartialEq, Eq, Structural)]
pub enum ScheduleTime {
    Relative(i64),
    Absolute(UtcTime),
}

/// The relative time that holds the Unix time `now` plus `seconds`, where a
/// `chrono::TimeDelta` can hold that many seconds.
pub open spec fn shifted_relative(now: i64, seconds: int) -> Result<ScheduleTime, TimeError> {
    let total = now + seconds;
    if -MAX_DELTA_SECONDS <= total <= MAX_DELTA_SECONDS {
        Ok(ScheduleTime::Relative(total as i64))
    } else {
        Err(TimeError::OutOfRange)
    }
}

/// The relative time that holds the Unix time `now` plus `seconds`.
pub fn relative_at(now: i64, seconds: i64) -> (r: Result<ScheduleTime, TimeError>)
    ensures
        r == shifted_relative(now, seconds as int),
{
    let total: i128 = now as i128 + seconds as i128;
    if total < -(MAX_DELTA_SECONDS as i128) || total > MAX_DELTA_SECONDS as i128 {
        return Err(TimeError::OutOfRange);
    }
    Ok(ScheduleTime::Relative(total as i64))
}

/// Reads `+NUM(s/m/h/d)` and adds the seconds it names to the current Unix
/// time, which lies between the epoch and the end of chrono's range; where
/// the clock reads no such time, the clock is refused.
pub fn parse_relative_time(time_in: &str) -> (r: Result<ScheduleTime, TimeError>)
    requires
        relative_seconds_computable(time_in@),
    ensures
        match relative_seconds_from_text(time_in@) {
            Err(e) => r == Err::<ScheduleTime, TimeError>(e),
            Ok(v) => r == Err::<ScheduleTime, TimeError>(TimeError::ClockUnavailable) || exists|
                now: i64,
            | 0 <= now <= MAX_TIMESTAMP && r == shifted_relative(now, v),
        },
{
    let seconds = read_relative_seconds(time_in)?;
    let current_time = match current_utc_timestamp() {
        Some(t) => t,
        None => {
            return Err(TimeError::ClockUnavailable);
        },
    };
    relative_at(current_time, seconds)
}

} // verus!
