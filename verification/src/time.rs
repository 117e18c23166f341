//! Wake times as the user writes them (`+90s`, `7am`, `14:30`, `23:59:58`
//! with a date `12/25/2026`), and their resolution against the current time.
use vstd::prelude::*;

use crate::clock::MAX_DELTA_SECONDS;
use crate::clock::MAX_TIMESTAMP;
use crate::clock::MIN_TIMESTAMP;
use crate::clock::SECONDS_PER_DAY;
use crate::clock::clock_year;
use crate::clock::current_local_year;
use crate::clock::hms_seconds;
use crate::clock::local_instant_of_wall_clock;
use crate::clock::local_offset_at;
use crate::clock::naive_timestamp;
use crate::clock::wall_clock_seconds;
use crate::clock::naive_time_seconds;
use crate::clock::valid_hms;
use crate::clock::valid_ymd;
use crate::text::chars_of;
use crate::text::contains_char;
use crate::text::lemma_split_len_with_separator;
use crate::text::ends_with;
use crate::text::ends_with_pair;
use crate::text::i32_from_text;
use crate::text::decimal_magnitude;
use crate::text::magnitude_at_most;
use crate::text::lemma_split_nonempty;
use crate::text::lower_ascii;
use crate::text::lower_chars;
use crate::text::parse_i32_at;
use crate::text::parse_u32_at;
use crate::text::remove_pairs;
use crate::text::split_at_char;
use crate::text::split_chars;
use crate::text::u32_from_text;
use crate::text::without_pairs;

verus! {

/// Why a time expression was refused, or could not be placed in time.
#[derive(Clone, Copy, Debug, PartialEq, Eq, Structural)]
pub enum TimeError {
    /// A relative time does not start with `+`.
    MissingPlusSign,
    /// A relative time has fewer than two characters after the `+`.
    RelativeFormat,
    /// The amount of a relative time is not a number.
    InvalidNumber,
    /// The unit of a relative time is not one of `s`, `m`, `h`, `d`.
    InvalidUnit,
    /// A piece of the time of day between colons is not a number.
    InvalidTimeCharacters,
    /// The time of day has more than three pieces between colons.
    InvalidTimeFormat,
    /// The hour, minute or second is a negative or oversized number.
    InvalidTimeNumber,
    /// A piece of the date between slashes is not a non-negative number.
    InvalidDateCharacters,
    /// The year does not fit a signed 32-bit number.
    InvalidDateNumber,
    /// The date has no `/`, or more than three pieces between slashes.
    InvalidDateFormat,
    /// The calendar has no such day.
    InvalidDate,
    /// The clock has no such time of day.
    InvalidTime,
    /// The wall-clock time does not exist in the local time zone.
    NonexistentLocalTime,
    /// The instant lies outside the range of instants that can be represented.
    OutOfRange,
    /// The wake time lies before the current time.
    BeforeCurrentTime,
    /// The machine's clock reads a time before 1970 or beyond the range of
    /// instants that can be represented.
    ClockUnavailable,
}

/// An instant: the Unix timestamp and nanosecond part of a `DateTime<Utc>`.
#[derive(Clone, Copy, Debug, PartialEq, Eq, Structural)]
pub struct UtcTime {
    pub timestamp: i64,
    pub nanos: u32,
}

impl UtcTime {
    /// An instant that a `DateTime<Utc>` holds: within chrono's range, with
    /// a nanosecond part below one second, or below two seconds during a leap
    /// second after a minute's 59th second.
    pub open spec fn wf(self) -> bool {
        &&& self.nanos < 2_000_000_000
        &&& self.nanos >= 1_000_000_000 ==> self.timestamp % 60 == 59
        &&& MIN_TIMESTAMP <= self.timestamp <= MAX_TIMESTAMP
    }

    /// Whether this instant is one that a `DateTime<Utc>` holds.
    pub fn is_valid(&self) -> (r: bool)
        ensures
            r == self.wf(),
    {
        if self.nanos >= 2_000_000_000 || self.timestamp < MIN_TIMESTAMP || self.timestamp
            > MAX_TIMESTAMP {
            return false;
        }
        if self.nanos < 1_000_000_000 {
            return true;
        }
        let since: i64 = self.timestamp - MIN_TIMESTAMP;
        proof {
            assert(MIN_TIMESTAMP == 60 * (-138910020480));
            vstd::arithmetic::div_mod::lemma_mod_multiples_vanish(
                138910020480,
                self.timestamp as int,
                60,
            );
            assert(since == 60 * 138910020480 + self.timestamp);
        }
        since % 60 == 59
    }

    /// `self <= other` as instants.
    pub open spec fn not_after(self, other: UtcTime) -> bool {
        self.timestamp < other.timestamp || (self.timestamp == other.timestamp && self.nanos
            <= other.nanos)
    }

    /// `self <= other` as instants.
    pub fn is_not_after(&self, other: &UtcTime) -> (r: bool)
        ensures
            r == self.not_after(*other),
    {
        self.timestamp < other.timestamp || (self.timestamp == other.timestamp && self.nanos
            <= other.nanos)
    }
}

/// A time of day, as the seconds from midnight of a `NaiveTime` without
/// fraction.
#[derive(Clone, Copy, Debug, PartialEq, Eq, Structural)]
pub struct TimeOfDay {
    seconds: u32,
}

impl View for TimeOfDay {
    type V = nat;

    closed spec fn view(&self) -> nat {
        self.seconds as nat
    }
}

impl TimeOfDay {
    #[verifier::type_invariant]
    spec fn within_day(self) -> bool {
        self.seconds < 86400
    }

    /// `NaiveTime::from_hms_opt`: the time of day, where the clock has it.
    pub fn from_hms_opt(hour: u32, minute: u32, second: u32) -> (r: Option<TimeOfDay>)
        ensures
            r is Some <==> valid_hms(hour, minute, second),
            r matches Some(t) ==> t@ == hms_seconds(hour, minute, second),
    {
        match naive_time_seconds(hour, minute, second) {
            Some(s) => Some(TimeOfDay { seconds: s }),
            None => None,
        }
    }

    pub fn num_seconds_from_midnight(&self) -> (r: u32)
        ensures
            r == self@,
            r < 86400,
    {
        proof {
            use_type_invariant(self);
        }
        self.seconds
    }

    pub fn hour(&self) -> (r: u32)
        ensures
            r == self@ / 3600,
            r < 24,
    {
        proof {
            use_type_invariant(self);
        }
        self.seconds / 3600
    }

    pub fn minute(&self) -> (r: u32)
        ensures
            r == (self@ % 3600) / 60,
            r < 60,
    {
        proof {
            use_type_invariant(self);
        }
        (self.seconds % 3600) / 60
    }

    pub fn second(&self) -> (r: u32)
        ensures
            r == self@ % 60,
            r < 60,
    {
        proof {
            use_type_invariant(self);
        }
        self.seconds % 60
    }
}

/// When a wake event should happen, as the user gave it.
#[derive(Clone, Copy, Debug, PartialEq, Eq, Structural)]
pub enum ScheduleTime {
    /// A span of whole seconds after the current time.
    Relative(i64),
    /// The next time the clock shows this time of day.
    TimeOfDay(TimeOfDay),
    /// A fixed instant.
    Absolute(UtcTime),
}

/// `12pm` stays at noon and other `pm` hours move twelve hours on; `12am`
/// is midnight.
pub open spec fn to_24_hour(hour: u32, is_am: bool, is_pm: bool) -> u32 {
    if !is_am && is_pm && hour < 12 {
        (hour + 12) as u32
    } else if is_am && !is_pm && hour == 12 {
        0
    } else {
        hour
    }
}

/// The pieces between colons of a time of day, once it is folded to lower
/// case and its `am` (when it ends with `am`) or else its `pm` markers are
/// taken out.
pub open spec fn hms_pieces(raw: Seq<char>) -> Seq<Seq<char>> {
    let t = lower_chars(raw);
    let cleaned = if ends_with_pair(t, 'a', 'm') {
        without_pairs(t, 'a', 'm')
    } else {
        without_pairs(t, 'p', 'm')
    };
    split_at_char(cleaned, ':')
}

/// The piece `k` read as a minute or second; zero where it is missing.
pub open spec fn optional_component(pieces: Seq<Seq<char>>, k: int) -> Option<u32> {
    if k < pieces.len() {
        u32_from_text(pieces[k])
    } else {
        Some(0)
    }
}

/// Hours (on a 24-hour clock), minutes and seconds of `HH`, `HH(am/pm)`,
/// `HH:MM` or `HH:MM:SS`, in any case.
pub open spec fn hms_from_text(raw: Seq<char>) -> Result<(u32, u32, u32), TimeError> {
    let t = lower_chars(raw);
    let is_am = ends_with_pair(t, 'a', 'm');
    let is_pm = ends_with_pair(t, 'p', 'm');
    let pieces = hms_pieces(raw);
    if exists|k: int| 0 <= k < pieces.len() && #[trigger] i32_from_text(pieces[k]) is None {
        Err(TimeError::InvalidTimeCharacters)
    } else if pieces.len() > 3 {
        Err(TimeError::InvalidTimeFormat)
    } else {
        match (
            u32_from_text(pieces[0]),
            optional_component(pieces, 1),
            optional_component(pieces, 2),
        ) {
            (Some(h), Some(m), Some(s)) => Ok((to_24_hour(h, is_am, is_pm), m, s)),
            _ => Err(TimeError::InvalidTimeNumber),
        }
    }
}

/// Reads a time of day: `HH`, `HH(am/pm)`, `HH:MM` or `HH:MM:SS`.
pub fn parse_hms(time_raw: &str) -> (r: Result<(u32, u32, u32), TimeError>)
    ensures
        r == hms_from_text(time_raw@),
{
    let raw = chars_of(time_raw);
    let time = lower_ascii(&raw);
    let is_am = ends_with(&time, 'a', 'm');
    let is_pm = ends_with(&time, 'p', 'm');
    let cleaned = if is_am {
        remove_pairs(&time, 'a', 'm')
    } else {
        remove_pairs(&time, 'p', 'm')
    };
    let pieces = split_chars(&cleaned, ':');
    let ghost spieces = hms_pieces(time_raw@);
    proof {
        lemma_split_nonempty(cleaned@, ':');
        assert(spieces == split_at_char(cleaned@, ':'));
    }
    let n = pieces.len();
    for k in 0..n
        invariant
            n == pieces@.len(),
            n == spieces.len(),
            spieces == hms_pieces(time_raw@),
            forall|j: int| 0 <= j < n ==> (#[trigger] pieces@[j])@ == spieces[j],
            forall|j: int| 0 <= j < k ==> (#[trigger] i32_from_text(spieces[j])) is Some,
    {
        let p = &pieces[k];
        assert(p@.subrange(0, p@.len() as int) =~= p@);
        if parse_i32_at(p, 0, p.len()).is_none() {
            assert(i32_from_text(spieces[k as int]) is None);
            assert(exists|j: int|
                0 <= j < spieces.len() && #[trigger] i32_from_text(spieces[j]) is None);
            return Err(TimeError::InvalidTimeCharacters);
        }
    }
    assert(!exists|k: int| 0 <= k < spieces.len() && #[trigger] i32_from_text(spieces[k]) is None);
    if n > 3 {
        return Err(TimeError::InvalidTimeFormat);
    }
    let p0 = &pieces[0];
    assert(p0@.subrange(0, p0@.len() as int) =~= p0@);
    let hours = match parse_u32_at(p0, 0, p0.len()) {
        Some(h) => h,
        None => {
            return Err(TimeError::InvalidTimeNumber);
        },
    };
    let minutes = if n > 1 {
        let p1 = &pieces[1];
        assert(p1@.subrange(0, p1@.len() as int) =~= p1@);
        match parse_u32_at(p1, 0, p1.len()) {
            Some(m) => m,
            None => {
                return Err(TimeError::InvalidTimeNumber);
            },
        }
    } else {
        0
    };
    let seconds = if n > 2 {
        let p2 = &pieces[2];
        assert(p2@.subrange(0, p2@.len() as int) =~= p2@);
        match parse_u32_at(p2, 0, p2.len()) {
            Some(s) => s,
            None => {
                return Err(TimeError::InvalidTimeNumber);
            },
        }
    } else {
        0
    };
    let hours = if !is_am && is_pm && hours < 12 {
        hours + 12
    } else if is_am && !is_pm && hours == 12 {
        0
    } else {
        hours
    };
    Ok((hours, minutes, seconds))
}


/// What reading `time_in` as a time of day gives: the time of day where the
/// clock has it.
pub open spec fn time_of_day_outcome(time_in: Seq<char>, r: Result<ScheduleTime, TimeError>) -> bool {
    match hms_from_text(time_in) {
        Err(e) => r == Err::<ScheduleTime, TimeError>(e),
        Ok((h, m, s)) => if valid_hms(h, m, s) {
            r matches Ok(ScheduleTime::TimeOfDay(t)) && t@ == hms_seconds(h, m, s)
        } else {
            r == Err::<ScheduleTime, TimeError>(TimeError::InvalidTime)
        },
    }
}

/// Reads a time of day (see `parse_hms`) as a `ScheduleTime::TimeOfDay`.
pub fn parse_time_of_day(time_in: &str) -> (r: Result<ScheduleTime, TimeError>)
    ensures
        time_of_day_outcome(time_in@, r),
{
    let (hours, minutes, seconds) = parse_hms(time_in)?;
    match TimeOfDay::from_hms_opt(hours, minutes, seconds) {
        Some(t) => Ok(ScheduleTime::TimeOfDay(t)),
        None => Err(TimeError::InvalidTime),
    }
}

/// Seconds in one unit of a relative time.
pub open spec fn unit_seconds(unit: char) -> Option<i64> {
    if unit == 's' {
        Some(1)
    } else if unit == 'm' {
        Some(60)
    } else if unit == 'h' {
        Some(3600)
    } else if unit == 'd' {
        Some(86400)
    } else {
        None
    }
}

/// The seconds that a relative time `+NUM(s/m/h/d)` names: `+`, a string of
/// digits whose value `i64` holds, and a one-character unit.
pub open spec fn relative_seconds_from_text(s: Seq<char>) -> Result<int, TimeError> {
    if !(s.len() > 0 && s[0] == '+') {
        Err(TimeError::MissingPlusSign)
    } else if s.len() < 3 {
        Err(TimeError::RelativeFormat)
    } else {
        match decimal_magnitude(s.subrange(1, s.len() - 1)) {
            Some(amount) => if amount > i64::MAX {
                Err(TimeError::InvalidNumber)
            } else {
                match unit_seconds(s.last()) {
                    None => Err(TimeError::InvalidUnit),
                    Some(multiplier) => Ok(amount * multiplier),
                }
            },
            None => Err(TimeError::InvalidNumber),
        }
    }
}

/// The relative times that can be read without a panic: the unit is one
/// byte (the text is cut one byte before its end), and the seconds fit a
/// `chrono::TimeDelta`.
pub open spec fn relative_time_within_limits(s: Seq<char>) -> bool {
    &&& (s.len() >= 2 && s[0] == '+') ==> (s.last() as u32) < 128
    &&& relative_seconds_from_text(s) matches Ok(v) ==> -MAX_DELTA_SECONDS <= v
        <= MAX_DELTA_SECONDS
}

/// Whether `parse_relative_time` accepts `time_in` as an input.
pub fn relative_time_is_within_limits(time_in: &str) -> (r: bool)
    ensures
        r == relative_time_within_limits(time_in@),
{
    let s = chars_of(time_in);
    let n = s.len();
    if n >= 2 && s[0] == '+' && (s[n - 1] as u32) >= 128 {
        return false;
    }
    if n < 3 || s[0] != '+' {
        return true;
    }
    assert(s@.subrange(1, n as int - 1) == time_in@.subrange(1, time_in@.len() - 1));
    let amount: i64 = match magnitude_at_most(&s, 1, n - 1, 0x7fff_ffff_ffff_ffff) {
        Some(a) => a as i64,
        None => {
            return true;
        },
    };
    let multiplier: i64 = if s[n - 1] == 's' {
        1
    } else if s[n - 1] == 'm' {
        60
    } else if s[n - 1] == 'h' {
        3600
    } else if s[n - 1] == 'd' {
        86400
    } else {
        return true;
    };
    let bound: i64 = MAX_DELTA_SECONDS / multiplier;
    assert(bound * multiplier <= MAX_DELTA_SECONDS < (bound + 1) * multiplier) by (nonlinear_arith)
        requires
            bound == MAX_DELTA_SECONDS / multiplier,
            multiplier > 0,
    ;
    if -bound <= amount && amount <= bound {
        assert(-MAX_DELTA_SECONDS <= amount * multiplier <= MAX_DELTA_SECONDS) by (nonlinear_arith)
            requires
                -bound <= amount <= bound,
                bound * multiplier <= MAX_DELTA_SECONDS,
                multiplier > 0,
        ;
        true
    } else {
        assert(amount * multiplier > MAX_DELTA_SECONDS || amount * multiplier < -MAX_DELTA_SECONDS)
            by (nonlinear_arith)
            requires
                amount > bound || amount < -bound,
                MAX_DELTA_SECONDS < (bound + 1) * multiplier,
                multiplier > 0,
        ;
        false
    }
}

/// The relative times whose seconds can be worked out without a panic: the
/// unit is one byte (the text is cut one byte before its end), and the
/// amount times the unit fits an `i64`.
pub open spec fn relative_seconds_computable(s: Seq<char>) -> bool {
    &&& (s.len() >= 2 && s[0] == '+') ==> (s.last() as u32) < 128
    &&& relative_seconds_from_text(s) matches Ok(v) ==> i64::MIN <= v <= i64::MAX
}

/// The seconds that a relative time `+NUM(s/m/h/d)` names.
pub(crate) fn read_relative_seconds(time_in: &str) -> (r: Result<i64, TimeError>)
    requires
        relative_seconds_computable(time_in@),
    ensures
        match relative_seconds_from_text(time_in@) {
            Ok(v) => r == Ok::<i64, TimeError>(v as i64),
            Err(e) => r == Err::<i64, TimeError>(e),
        },
{
    let s = chars_of(time_in);
    let n = s.len();
    if n == 0 || s[0] != '+' {
        return Err(TimeError::MissingPlusSign);
    }
    if n < 3 {
        return Err(TimeError::RelativeFormat);
    }
    let amount: i64 = match magnitude_at_most(&s, 1, n - 1, 0x7fff_ffff_ffff_ffff) {
        Some(a) => a as i64,
        None => {
            return Err(TimeError::InvalidNumber);
        },
    };
    let unit = s[n - 1];
    let multiplier: i64 = if unit == 's' {
        1
    } else if unit == 'm' {
        60
    } else if unit == 'h' {
        3600
    } else if unit == 'd' {
        86400
    } else {
        return Err(TimeError::InvalidUnit);
    };
    Ok(amount * multiplier)
}

/// What reading `time_in` as a relative time gives.
pub open spec fn relative_time_outcome(time_in: Seq<char>) -> Result<ScheduleTime, TimeError> {
    match relative_seconds_from_text(time_in) {
        Ok(v) => Ok(ScheduleTime::Relative(v as i64)),
        Err(e) => Err(e),
    }
}

/// Reads a relative time: `+`, a number, and a unit `s`, `m`, `h` or `d`.
pub fn parse_relative_time(time_in: &str) -> (r: Result<ScheduleTime, TimeError>)
    requires
        relative_time_within_limits(time_in@),
    ensures
        r == relative_time_outcome(time_in@),
        r matches Ok(t) ==> t.wf(),
{
    let seconds = read_relative_seconds(time_in)?;
    Ok(ScheduleTime::Relative(seconds))
}

/// Month, day and (where given) year of `MM/DD` or `MM/DD/YYYY`; every piece
/// between slashes must read as a non-negative number, there are at most
/// three, and the year must also fit an `i32`.
pub open spec fn date_fields_from_text(s: Seq<char>) -> Result<(u32, u32, Option<i32>), TimeError> {
    let pieces = split_at_char(s, '/');
    if !s.contains('/') {
        Err(TimeError::InvalidDateFormat)
    } else if exists|k: int| 0 <= k < pieces.len() && #[trigger] u32_from_text(pieces[k]) is None {
        Err(TimeError::InvalidDateCharacters)
    } else if pieces.len() > 3 {
        Err(TimeError::InvalidDateFormat)
    } else if pieces.len() > 2 {
        match i32_from_text(pieces[2]) {
            Some(y) => Ok((u32_from_text(pieces[0])->0, u32_from_text(pieces[1])->0, Some(y))),
            None => Err(TimeError::InvalidDateNumber),
        }
    } else {
        Ok((u32_from_text(pieces[0])->0, u32_from_text(pieces[1])->0, None))
    }
}

/// Reads the month, day and optional year of a date `MM/DD[/YYYY]`.
pub fn parse_date_fields(date_specified: &str) -> (r: Result<(u32, u32, Option<i32>), TimeError>)
    ensures
        r == date_fields_from_text(date_specified@),
{
    let s = chars_of(date_specified);
    if !contains_char(&s, '/') {
        return Err(TimeError::InvalidDateFormat);
    }
    let pieces = split_chars(&s, '/');
    let ghost spieces = split_at_char(s@, '/');
    proof {
        lemma_split_len_with_separator(s@, '/');
    }
    let n = pieces.len();
    let mut fields: Vec<u32> = Vec::new();
    for k in 0..n
        invariant
            n == pieces@.len(),
            n == spieces.len(),
            spieces == split_at_char(date_specified@, '/'),
            date_specified@.contains('/'),
            forall|j: int| 0 <= j < n ==> (#[trigger] pieces@[j])@ == spieces[j],
            fields@.len() == k,
            forall|j: int| 0 <= j < k ==> u32_from_text(spieces[j]) == Some(#[trigger] fields@[j]),
    {
        let p = &pieces[k];
        assert(p@.subrange(0, p@.len() as int) =~= p@);
        match parse_u32_at(p, 0, p.len()) {
            Some(v) => {
                fields.push(v);
            },
            None => {
                assert(u32_from_text(spieces[k as int]) is None);
                assert(exists|j: int|
                    0 <= j < spieces.len() && #[trigger] u32_from_text(spieces[j]) is None);
                return Err(TimeError::InvalidDateCharacters);
            },
        }
    }
    assert(!exists|j: int| 0 <= j < spieces.len() && #[trigger] u32_from_text(spieces[j]) is None)
        by {
        assert forall|j: int| 0 <= j < spieces.len() implies #[trigger] u32_from_text(
            spieces[j],
        ) is Some by {
            assert(u32_from_text(spieces[j]) == Some(fields@[j]));
        }
    }
    if n > 3 {
        return Err(TimeError::InvalidDateFormat);
    }
    let month = fields[0];
    let day = fields[1];
    if n > 2 {
        let p2 = &pieces[2];
        assert(p2@.subrange(0, p2@.len() as int) =~= p2@);
        match parse_i32_at(p2, 0, p2.len()) {
            Some(y) => Ok((month, day, Some(y))),
            None => Err(TimeError::InvalidDateNumber),
        }
    } else {
        Ok((month, day, None))
    }
}

/// The outcome of placing a calendar date and time of day in the local time
/// zone: refused dates and times are told apart; a valid one gives an
/// instant on a whole second less than a day from the instant at which UTC
/// shows that wall clock, or is found missing from the local time zone.
pub open spec fn absolute_outcome(
    year: i32,
    month: u32,
    day: u32,
    hour: u32,
    minute: u32,
    second: u32,
    r: Result<ScheduleTime, TimeError>,
) -> bool {
    if !valid_ymd(year, month, day) {
        r == Err::<ScheduleTime, TimeError>(TimeError::InvalidDate)
    } else if !valid_hms(hour, minute, second) {
        r == Err::<ScheduleTime, TimeError>(TimeError::InvalidTime)
    } else {
        r == Err::<ScheduleTime, TimeError>(TimeError::NonexistentLocalTime) || (r matches Ok(
            ScheduleTime::Absolute(t),
        ) && t.nanos == 0 && -SECONDS_PER_DAY < t.timestamp - naive_timestamp(
            year,
            month,
            day,
            hour,
            minute,
            second,
        ) < SECONDS_PER_DAY)
    }
}

/// The wake time that the local time zone gave for a wall-clock time: the
/// instant where it exists, else the error.
pub fn absolute_from_local(local: Option<i64>) -> (r: Result<ScheduleTime, TimeError>)
    ensures
        r == match local {
            Some(ts) => Ok::<ScheduleTime, TimeError>(
                ScheduleTime::Absolute(UtcTime { timestamp: ts, nanos: 0 }),
            ),
            None => Err(TimeError::NonexistentLocalTime),
        },
{
    match local {
        Some(ts) => Ok(ScheduleTime::Absolute(UtcTime { timestamp: ts, nanos: 0 })),
        None => Err(TimeError::NonexistentLocalTime),
    }
}

/// The instant of a local calendar date and time of day.
fn absolute_from_fields(
    year: i32,
    month: u32,
    day: u32,
    hour: u32,
    minute: u32,
    second: u32,
) -> (r: Result<ScheduleTime, TimeError>)
    ensures
        absolute_outcome(year, month, day, hour, minute, second, r),
{
    if chrono::NaiveDate::from_ymd_opt(year, month, day).is_none() {
        return Err(TimeError::InvalidDate);
    }
    if naive_time_seconds(hour, minute, second).is_none() {
        return Err(TimeError::InvalidTime);
    }
    let wall = wall_clock_seconds(year, month, day, hour, minute, second);
    absolute_from_local(local_instant_of_wall_clock(wall))
}

/// What reading a time of day `time_in` on the date `date_specified` gives:
/// errors in the time come first, then errors in the date; where no year is
/// given, the current one on the machine's clock is taken, and a clock that
/// cannot be read is refused.
pub open spec fn absolute_time_outcome(
    time_in: Seq<char>,
    date_specified: Seq<char>,
    r: Result<ScheduleTime, TimeError>,
) -> bool {
    match hms_from_text(time_in) {
        Err(e) => r == Err::<ScheduleTime, TimeError>(e),
        Ok((h, mi, s)) => match date_fields_from_text(date_specified) {
            Err(e) => r == Err::<ScheduleTime, TimeError>(e),
            Ok((mo, d, Some(y))) => absolute_outcome(y, mo, d, h, mi, s, r),
            Ok((mo, d, None)) => r == Err::<ScheduleTime, TimeError>(TimeError::ClockUnavailable)
                || exists|y: i32| #[trigger] clock_year(y) && absolute_outcome(y, mo, d, h, mi, s, r),
        },
    }
}

/// Reads a time of day `time_in` (see `parse_hms`) on the date
/// `date_specified` (`MM/DD` or `MM/DD/YYYY`, the current year where none is
/// given) as an instant in the local time zone.
pub fn parse_absolute_time(time_in: &str, date_specified: &str) -> (r: Result<
    ScheduleTime,
    TimeError,
>)
    ensures
        absolute_time_outcome(time_in@, date_specified@, r),
{
    let (hours, minutes, seconds) = parse_hms(time_in)?;
    let (month, day, year) = parse_date_fields(date_specified)?;
    let year = match year {
        Some(y) => y,
        None => match current_local_year() {
            Some(y) => y,
            None => {
                return Err(TimeError::ClockUnavailable);
            },
        },
    };
    absolute_from_fields(year, month, day, hours, minutes, seconds)
}

/// Reads a wake time as the command line gives it: a time of day on a date
/// where a date is given, else a relative time where the time holds a `+`,
/// else the next occurrence of a time of day.
pub fn parse_schedule_time(time: &str, date: Option<&str>) -> (r: Result<ScheduleTime, TimeError>)
    requires
        date is None && time@.contains('+') ==> relative_time_within_limits(time@),
    ensures
        match date {
            Some(d) => absolute_time_outcome(time@, d@, r),
            None => if time@.contains('+') {
                r == relative_time_outcome(time@)
            } else {
                time_of_day_outcome(time@, r)
            },
        },
{
    match date {
        Some(d) => parse_absolute_time(time, d),
        None => {
            let chars = chars_of(time);
            if contains_char(&chars, '+') {
                parse_relative_time(time)
            } else {
                parse_time_of_day(time)
            }
        },
    }
}

/// The next occurrence of a time of day, given the instant `candidate` that
/// it names on today's date: the candidate where it lies after `now`, else
/// one day later.
pub open spec fn next_occurrence_spec(candidate: Option<i64>, now: UtcTime) -> Result<
    UtcTime,
    TimeError,
> {
    match candidate {
        None => Err(TimeError::NonexistentLocalTime),
        Some(c) => if c <= now.timestamp {
            if c + SECONDS_PER_DAY < MIN_TIMESTAMP || c + SECONDS_PER_DAY > MAX_TIMESTAMP {
                Err(TimeError::OutOfRange)
            } else {
                Ok(UtcTime { timestamp: (c + SECONDS_PER_DAY) as i64, nanos: 0 })
            }
        } else {
            Ok(UtcTime { timestamp: c, nanos: 0 })
        },
    }
}

/// The next occurrence of a time of day after `now`, from the instant
/// `candidate` that the local time zone gave it on today's date.
pub fn next_occurrence(candidate: Option<i64>, now: UtcTime) -> (r: Result<UtcTime, TimeError>)
    ensures
        r == next_occurrence_spec(candidate, now),
{
    match candidate {
        None => Err(TimeError::NonexistentLocalTime),
        Some(c) => {
            let at_c = UtcTime { timestamp: c, nanos: 0 };
            if at_c.is_not_after(&now) {
                if c < MIN_TIMESTAMP - SECONDS_PER_DAY || c > MAX_TIMESTAMP - SECONDS_PER_DAY {
                    Err(TimeError::OutOfRange)
                } else {
                    Ok(UtcTime { timestamp: c + SECONDS_PER_DAY, nanos: 0 })
                }
            } else {
                Ok(at_c)
            }
        },
    }
}

/// `(seconds as f64) as i64` for seconds that a `TimeDelta` holds: exact up
/// to 2^53, and rounded to the nearest even number (ties to a multiple of
/// four) above it, where `f64` steps by two.
pub open spec fn f64_rounded(seconds: int) -> int {
    let m = if seconds < 0 {
        -seconds
    } else {
        seconds
    };
    let r = if m <= 0x20_0000_0000_0000 || m % 2 == 0 {
        m
    } else if (m - 1) % 4 == 0 {
        m - 1
    } else {
        m + 1
    };
    if seconds < 0 {
        -r
    } else {
        r
    }
}

/// The timestamp of `t` moved on by `d` whole seconds, as chrono adds a
/// `TimeDelta` of whole seconds: a leap second is left as the second before
/// it when moving forward, and as the second after it when moving back.
pub open spec fn shifted_timestamp(t: UtcTime, d: int) -> int {
    if t.nanos >= 1_000_000_000 && d < 0 {
        t.timestamp + 1 + d
    } else {
        t.timestamp + d
    }
}

/// `t` moved on by `d` whole seconds (`DateTime<Utc> + TimeDelta`).
pub open spec fn plus_seconds(t: UtcTime, d: int) -> UtcTime {
    UtcTime {
        timestamp: shifted_timestamp(t, d) as i64,
        nanos: if t.nanos >= 1_000_000_000 && d != 0 {
            (t.nanos - 1_000_000_000) as u32
        } else {
            t.nanos
        },
    }
}

/// `t` moved on by `d` whole seconds, where the result stays in chrono's
/// range.
pub fn add_seconds(t: UtcTime, d: i64) -> (r: UtcTime)
    requires
        t.wf(),
        MIN_TIMESTAMP <= shifted_timestamp(t, d as int) <= MAX_TIMESTAMP,
    ensures
        r == plus_seconds(t, d as int),
{
    if t.nanos >= 1_000_000_000 && d != 0 {
        let ts = if d < 0 {
            t.timestamp + 1 + d
        } else {
            t.timestamp + d
        };
        UtcTime { timestamp: ts, nanos: t.nanos - 1_000_000_000 }
    } else {
        UtcTime { timestamp: t.timestamp + d, nanos: t.nanos }
    }
}

/// The wall clock that shows the time of day `tod` (in seconds from midnight)
/// on the day of the wall clock `wall`, both given as the Unix timestamps that
/// they read as in UTC.
pub open spec fn wall_clock_today(wall: int, tod: int) -> int {
    wall - wall % (SECONDS_PER_DAY as int) + tod
}

/// A multiple of a day below every wall clock of an instant in chrono's range.
pub const WALL_CLOCK_FLOOR: i64 = -8334601401600;

/// The wall clock at `tod` seconds from midnight on the day of the wall clock
/// `wall`.
pub fn wall_clock_on_same_day(wall: i64, tod: u32) -> (r: i64)
    requires
        WALL_CLOCK_FLOOR < wall <= MAX_TIMESTAMP + SECONDS_PER_DAY,
        tod < 86400,
    ensures
        r == wall_clock_today(wall as int, tod as int),
{
    let since: i64 = wall - WALL_CLOCK_FLOOR;
    let into_day: i64 = since % SECONDS_PER_DAY;
    proof {
        assert(WALL_CLOCK_FLOOR == SECONDS_PER_DAY * (-96465294));
        vstd::arithmetic::div_mod::lemma_mod_multiples_vanish(96465294, wall as int, 86400);
        assert(since == 86400 * 96465294 + wall);
    }
    wall - into_day + tod as i64
}

impl ScheduleTime {
    /// A relative time holds no more seconds than a `chrono::TimeDelta`.
    pub open spec fn wf(self) -> bool {
        match self {
            ScheduleTime::Relative(d) => -MAX_DELTA_SECONDS <= d <= MAX_DELTA_SECONDS,
            _ => true,
        }
    }

    /// The instant this wake time names at `now`, where a time of day is
    /// placed at the instant `candidate` that the local time zone gives it on
    /// today's local date.
    pub open spec fn datetime_at(self, now: UtcTime, candidate: Option<i64>) -> Result<
        UtcTime,
        TimeError,
    > {
        match self {
            ScheduleTime::Relative(d) => Ok(plus_seconds(now, d as int)),
            ScheduleTime::Absolute(t) => Ok(t),
            ScheduleTime::TimeOfDay(_) => next_occurrence_spec(candidate, now),
        }
    }

    /// What the machine's time zone can have given for a time of day at
    /// `now`: the wall clock `wall_now` of `now`, within a day of it, and a
    /// candidate instant within a day of the instant at which UTC shows the
    /// time of day on the local date of `now`. There is always a candidate:
    /// where the zone skips that wall clock, it is read at the offset of
    /// `now`.
    pub open spec fn zone_placement(self, now: UtcTime, wall_now: int, candidate: Option<i64>) -> bool {
        match self {
            ScheduleTime::TimeOfDay(t) => {
                &&& -SECONDS_PER_DAY < wall_now - now.timestamp < SECONDS_PER_DAY
                &&& candidate matches Some(c) && -SECONDS_PER_DAY < c - wall_clock_today(
                    wall_now,
                    t@ as int,
                ) < SECONDS_PER_DAY
            },
            _ => true,
        }
    }

    /// The Unix timestamp of this wake time at `now`, with a relative time
    /// taken through `f64` seconds and a time of day placed as in `datetime_at`.
    pub open spec fn resolved_at(self, now: UtcTime, candidate: Option<i64>) -> Result<
        i64,
        TimeError,
    > {
        match self {
            ScheduleTime::Relative(d) => Ok((now.timestamp + f64_rounded(d as int)) as i64),
            _ => match self.datetime_at(now, candidate) {
                Ok(t) => Ok(t.timestamp),
                Err(e) => Err(e),
            },
        }
    }

    /// The instant of this wake time, seen at `current_time`: a relative time
    /// added to it, an absolute time as it is, and a time of day at its next
    /// occurrence on the local wall clock.
    pub fn to_datetime(&self, current_time: UtcTime) -> (r: Result<UtcTime, TimeError>)
        requires
            current_time.wf(),
            *self matches ScheduleTime::Relative(d) ==> MIN_TIMESTAMP <= shifted_timestamp(
                current_time,
                d as int,
            ) <= MAX_TIMESTAMP,
        ensures
            exists|wall_now: int, candidate: Option<i64>|
                #[trigger] self.zone_placement(current_time, wall_now, candidate) && r
                    == self.datetime_at(current_time, candidate),
            *self matches ScheduleTime::Relative(d) ==> r == Ok::<UtcTime, TimeError>(
                plus_seconds(current_time, d as int),
            ),
            *self matches ScheduleTime::Absolute(t) ==> r == Ok::<UtcTime, TimeError>(t),
            MIN_TIMESTAMP + 2 * SECONDS_PER_DAY <= current_time.timestamp <= MAX_TIMESTAMP - 3
                * SECONDS_PER_DAY ==> r is Ok,
            *self is TimeOfDay ==> (r matches Ok(t) ==> t.nanos == 0 && current_time.timestamp
                < t.timestamp),
    {
        match self {
            ScheduleTime::Relative(d) => {
                let r = Ok(add_seconds(current_time, *d));
                assert(self.zone_placement(current_time, 0, None));
                assert(r == self.datetime_at(current_time, None));
                r
            },
            ScheduleTime::Absolute(t) => {
                assert(self.zone_placement(current_time, 0, None));
                assert(Ok::<UtcTime, TimeError>(*t) == self.datetime_at(current_time, None));
                Ok(*t)
            },
            ScheduleTime::TimeOfDay(t) => {
                let secs = t.num_seconds_from_midnight();
                let offset: i64 = match local_offset_at(current_time.timestamp) {
                    Some(o) => o as i64,
                    None => {
                        return Err(TimeError::OutOfRange);
                    },
                };
                let wall_now = current_time.timestamp + offset;
                let wall = wall_clock_on_same_day(wall_now, secs);
                // A wall clock that the zone skips (as at the start of
                // daylight saving time) is read at the offset in force now.
                let c = match local_instant_of_wall_clock(wall) {
                    Some(c) => c,
                    None => wall - offset,
                };
                if c + SECONDS_PER_DAY > current_time.timestamp {
                    let r = next_occurrence(Some(c), current_time);
                    assert(self.zone_placement(current_time, wall_now as int, Some(c)));
                    assert(r == self.datetime_at(current_time, Some(c)));
                    r
                } else {
                    // Today's occurrence lies more than a day back (the zone's
                    // offset fell during the day): tomorrow's comes next.
                    let wall_next = wall + SECONDS_PER_DAY;
                    let c_next = match local_instant_of_wall_clock(wall_next) {
                        Some(c2) => if c2 + SECONDS_PER_DAY > current_time.timestamp {
                            c2
                        } else {
                            wall_next - offset
                        },
                        None => wall_next - offset,
                    };
                    let r = next_occurrence(Some(c_next), current_time);
                    proof {
                        let w = wall_now as int;
                        let next_day = w - w % (SECONDS_PER_DAY as int) + SECONDS_PER_DAY;
                        vstd::arithmetic::div_mod::lemma_fundamental_div_mod(w, 86400);
                        let q = w / 86400;
                        assert(next_day == 86400 * (q + 1)) by (nonlinear_arith)
                            requires
                                w == 86400 * q + w % 86400,
                                next_day == w - w % 86400 + 86400,
                        ;
                        vstd::arithmetic::div_mod::lemma_mod_multiples_vanish(q + 1, 0, 86400);
                        assert(0int % 86400 == 0);
                        assert(next_day % 86400 == 0);
                        assert(wall_clock_today(next_day, secs as int) == wall_next);
                        assert(self.zone_placement(current_time, next_day, Some(c_next)));
                        assert(r == self.datetime_at(current_time, Some(c_next)));
                    }
                    r
                }
            },
        }
    }

    /// The Unix timestamp of this wake time, seen at `current_time`; a
    /// relative time goes through `f64` seconds.
    pub fn resolve(&self, current_time: UtcTime) -> (r: Result<i64, TimeError>)
        requires
            current_time.wf(),
            self.wf(),
        ensures
            *self matches ScheduleTime::Relative(d) ==> r == Ok::<i64, TimeError>(
                (current_time.timestamp + f64_rounded(d as int)) as i64,
            ),
            *self matches ScheduleTime::Absolute(t) ==> r == Ok::<i64, TimeError>(t.timestamp),
            exists|wall_now: int, candidate: Option<i64>|
                #[trigger] self.zone_placement(current_time, wall_now, candidate) && r
                    == self.resolved_at(current_time, candidate),
            MIN_TIMESTAMP + 2 * SECONDS_PER_DAY <= current_time.timestamp <= MAX_TIMESTAMP - 3
                * SECONDS_PER_DAY ==> r is Ok,
            *self is TimeOfDay ==> (r matches Ok(ts) ==> current_time.timestamp < ts),
    {
        match self {
            ScheduleTime::Relative(d) => {
                let d = *d;
                let m: i64 = if d < 0 {
                    -d
                } else {
                    d
                };
                let rounded: i64 = if m <= 0x20_0000_0000_0000 || m % 2 == 0 {
                    m
                } else if (m - 1) % 4 == 0 {
                    m - 1
                } else {
                    m + 1
                };
                let signed: i64 = if d < 0 {
                    -rounded
                } else {
                    rounded
                };
                let r = Ok(current_time.timestamp + signed);
                assert(self.zone_placement(current_time, 0, None));
                assert(r == self.resolved_at(current_time, None));
                r
            },
            ScheduleTime::Absolute(t) => {
                assert(self.zone_placement(current_time, 0, None));
                assert(Ok::<i64, TimeError>(t.timestamp) == self.resolved_at(current_time, None));
                Ok(t.timestamp)
            },
            ScheduleTime::TimeOfDay(_) => {
                let r = self.to_datetime(current_time);
                let ghost (w, c) = choose|w: int, c: Option<i64>|
                    #[trigger] self.zone_placement(current_time, w, c) && r == self.datetime_at(
                        current_time,
                        c,
                    );
                let out = match r {
                    Ok(t) => Ok(t.timestamp),
                    Err(e) => Err(e),
                };
                assert(self.zone_placement(current_time, w, c));
                assert(out == self.resolved_at(current_time, c));
                out
            },
        }
    }
}

/// `now` plus thirty-one days.
pub open spec fn month_after(now: UtcTime) -> UtcTime {
    plus_seconds(now, 31 * SECONDS_PER_DAY)
}

/// Whether a wake time at `first` (then seen again at `second`) falls within a
/// month of `now`; a wake time before `now` is an error.
pub open spec fn within_month_spec(
    now: UtcTime,
    first: Result<UtcTime, TimeError>,
    second: Result<UtcTime, TimeError>,
) -> Result<bool, TimeError> {
    match first {
        Err(e) => Err(e),
        Ok(t1) => if !now.not_after(t1) {
            Err(TimeError::BeforeCurrentTime)
        } else {
            match second {
                Err(e) => Err(e),
                Ok(t2) => Ok(t2.not_after(month_after(now))),
            }
        },
    }
}

/// Whether `time` falls within thirty-one days of `current_time`; a time
/// before `current_time` is refused.
pub fn is_less_than_month(current_time: UtcTime, time: ScheduleTime) -> (r: Result<bool, TimeError>)
    requires
        current_time.wf(),
        current_time.timestamp + 31 * SECONDS_PER_DAY <= MAX_TIMESTAMP,
        time matches ScheduleTime::Relative(d) ==> MIN_TIMESTAMP <= shifted_timestamp(
            current_time,
            d as int,
        ) <= MAX_TIMESTAMP,
    ensures
        exists|w1: int, c1: Option<i64>, w2: int, c2: Option<i64>|
            #[trigger] time.zone_placement(current_time, w1, c1) && #[trigger] time.zone_placement(
                current_time,
                w2,
                c2,
            ) && r == within_month_spec(
                current_time,
                time.datetime_at(current_time, c1),
                time.datetime_at(current_time, c2),
            ),
{
    let first = time.to_datetime(current_time);
    let ghost (w1, c1) = choose|w: int, c: Option<i64>|
        #[trigger] time.zone_placement(current_time, w, c) && first == time.datetime_at(
            current_time,
            c,
        );
    let first = match first {
        Ok(t) => t,
        Err(e) => {
            assert(time.zone_placement(current_time, w1, c1));
            return Err(e);
        },
    };
    if !current_time.is_not_after(&first) {
        assert(time.zone_placement(current_time, w1, c1));
        return Err(TimeError::BeforeCurrentTime);
    }
    let second = time.to_datetime(current_time);
    let ghost (w2, c2) = choose|w: int, c: Option<i64>|
        #[trigger] time.zone_placement(current_time, w, c) && second == time.datetime_at(
            current_time,
            c,
        );
    assert(time.zone_placement(current_time, w1, c1));
    assert(time.zone_placement(current_time, w2, c2));
    let second = match second {
        Ok(t) => t,
        Err(e) => {
            return Err(e);
        },
    };
    let limit = add_seconds(current_time, 31 * SECONDS_PER_DAY);
    Ok(second.is_not_after(&limit))
}

} // verus!
