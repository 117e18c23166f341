//! What the time notations mean, for every input of their documented shapes,
//! and how resolving a wake time relates to placing it in time.
use vstd::prelude::*;

use crate::clock::MAX_TIMESTAMP;
use crate::clock::MIN_TIMESTAMP;
use crate::clock::SECONDS_PER_DAY;
use crate::clock::hms_seconds;
use crate::clock::valid_hms;
use crate::text::all_digits;
use crate::text::digits_value;
use crate::text::ends_with_pair;
use crate::text::i32_from_text;
use crate::text::i64_from_text;
use crate::text::is_digit;
use crate::text::lemma_digits_text;
use crate::text::lemma_lower_fixed;
use crate::text::lemma_lower_idempotent;
use crate::text::lemma_split_concat;
use crate::text::lemma_split_keeps;
use crate::text::lemma_split_no_separator;
use crate::text::lemma_stray_char_text;
use crate::text::lemma_without_pairs_keeps;
use crate::text::lemma_without_pairs_prefix;
use crate::text::lower_chars;
use crate::text::split_at_char;
use crate::text::u32_from_text;
use crate::text::without_pairs;
use crate::time::time_of_day_outcome;
use crate::text::ascii_lower;
use crate::time::ScheduleTime;
use crate::time::TimeError;
use crate::time::TimeOfDay;
use crate::time::UtcTime;
use crate::time::date_fields_from_text;
use crate::time::f64_rounded;
use crate::time::wall_clock_today;
use crate::time::hms_from_text;
use crate::time::hms_pieces;
use crate::time::next_occurrence_spec;
use crate::time::relative_seconds_from_text;
use crate::time::unit_seconds;

verus! {

/// A non-empty string of digits: the shape of every number in the notations.
pub open spec fn is_numeral(s: Seq<char>) -> bool {
    s.len() > 0 && all_digits(s)
}

/// A numeral holds no capital, letter, colon or slash, and ends in a digit.
proof fn lemma_numeral_chars(a: Seq<char>)
    requires
        is_numeral(a),
    ensures
        forall|i: int| 0 <= i < a.len() ==> !('A' <= #[trigger] a[i] && a[i] <= 'Z'),
        !a.contains('a'),
        !a.contains('p'),
        !a.contains('m'),
        !a.contains(':'),
        !a.contains('/'),
        is_digit(a.last()),
{
    assert(is_digit(a[a.len() - 1]));
    assert forall|c: char| !is_digit(c) implies !a.contains(c) by {
        if a.contains(c) {
            let i = choose|i: int| 0 <= i < a.len() && a[i] == c;
            assert(is_digit(a[i]));
        }
    }
}

/// What a numeral reads as, as each of the integer types.
proof fn lemma_numeral_reads(a: Seq<char>)
    requires
        is_numeral(a),
    ensures
        digits_value(a) <= u32::MAX ==> u32_from_text(a) == Some(digits_value(a) as u32),
        digits_value(a) <= i32::MAX ==> i32_from_text(a) == Some(digits_value(a) as i32),
        digits_value(a) <= i64::MAX ==> i64_from_text(a) == Some(digits_value(a) as i64),
        digits_value(a) >= 0,
{
    lemma_digits_text(a);
    crate::text::lemma_digits_value_nonneg(a);
}

/// The pieces of a time of day made of numerals joined by colons, with no
/// `am` or `pm`.
proof fn lemma_plain_pieces(raw: Seq<char>)
    requires
        forall|i: int| 0 <= i < raw.len() ==> !('A' <= #[trigger] raw[i] && raw[i] <= 'Z'),
        !raw.contains('p'),
        raw.len() > 0,
        is_digit(raw.last()),
    ensures
        hms_pieces(raw) == split_at_char(raw, ':'),
        !ends_with_pair(lower_chars(raw), 'a', 'm'),
        !ends_with_pair(lower_chars(raw), 'p', 'm'),
{
    lemma_lower_fixed(raw);
    lemma_without_pairs_prefix(raw, Seq::empty(), 'p', 'm');
    assert(raw + Seq::<char>::empty() =~= raw);
    assert(without_pairs(Seq::<char>::empty(), 'p', 'm') =~= Seq::<char>::empty());
}

/// `HH` is hour `HH` of a 24-hour clock, minute and second zero.
pub proof fn law_hour_only(a: Seq<char>)
    requires
        is_numeral(a),
        digits_value(a) <= i32::MAX,
    ensures
        hms_from_text(a) == Ok::<(u32, u32, u32), TimeError>((digits_value(a) as u32, 0, 0)),
{
    lemma_numeral_chars(a);
    lemma_numeral_reads(a);
    lemma_plain_pieces(a);
    lemma_split_no_separator(a, ':');
    let pieces = hms_pieces(a);
    assert(pieces == seq![a]);
    assert(!exists|k: int| 0 <= k < pieces.len() && #[trigger] i32_from_text(pieces[k]) is None);
}

/// `HH:MM` is hour `HH` and minute `MM`, second zero.
pub proof fn law_hour_minute(a: Seq<char>, b: Seq<char>)
    requires
        is_numeral(a),
        is_numeral(b),
        digits_value(a) <= i32::MAX,
        digits_value(b) <= i32::MAX,
    ensures
        hms_from_text(a + seq![':'] + b) == Ok::<(u32, u32, u32), TimeError>(
            (digits_value(a) as u32, digits_value(b) as u32, 0),
        ),
{
    let raw = a + seq![':'] + b;
    lemma_numeral_chars(a);
    lemma_numeral_chars(b);
    lemma_numeral_reads(a);
    lemma_numeral_reads(b);
    assert(!raw.contains('p')) by {
        if raw.contains('p') {
            let i = choose|i: int| 0 <= i < raw.len() && raw[i] == 'p';
            if i < a.len() {
                assert(a[i] == 'p');
            } else if i > a.len() {
                assert(b[i - a.len() - 1] == 'p');
            }
        }
    }
    assert forall|i: int| 0 <= i < raw.len() implies !('A' <= #[trigger] raw[i] && raw[i]
        <= 'Z') by {
        if i < a.len() {
            assert(raw[i] == a[i]);
        } else if i > a.len() {
            assert(raw[i] == b[i - a.len() - 1]);
        }
    }
    assert(raw.last() == b.last());
    lemma_plain_pieces(raw);
    lemma_split_concat(a, b, ':');
    lemma_split_no_separator(a, ':');
    lemma_split_no_separator(b, ':');
    let pieces = hms_pieces(raw);
    assert(pieces =~= seq![a, b]);
    assert(!exists|k: int| 0 <= k < pieces.len() && #[trigger] i32_from_text(pieces[k]) is None)
        by {
        assert forall|k: int| 0 <= k < pieces.len() implies #[trigger] i32_from_text(
            pieces[k],
        ) is Some by {
            if k == 0 {
                assert(pieces[k] == a);
            } else {
                assert(pieces[k] == b);
            }
        }
    }
}

/// Three numerals joined by colons hold no capital, `a` or `p`, end in a
/// digit, and split at the colons into the three numerals.
proof fn lemma_three_numerals(a: Seq<char>, b: Seq<char>, c: Seq<char>)
    requires
        is_numeral(a),
        is_numeral(b),
        is_numeral(c),
    ensures
        ({
            let raw = a + seq![':'] + b + seq![':'] + c;
            &&& forall|i: int|
                0 <= i < raw.len() ==> (!('A' <= #[trigger] raw[i] && raw[i] <= 'Z') && raw[i]
                    != 'p' && raw[i] != 'a')
            &&& raw.len() > 0
            &&& is_digit(raw.last())
            &&& split_at_char(raw, ':') == seq![a, b, c]
        }),
{
    let ab = a + seq![':'] + b;
    let raw = ab + seq![':'] + c;
    lemma_numeral_chars(a);
    lemma_numeral_chars(b);
    lemma_numeral_chars(c);
    assert forall|i: int| 0 <= i < raw.len() implies (!('A' <= #[trigger] raw[i] && raw[i] <= 'Z')
        && raw[i] != 'p' && raw[i] != 'a') by {
        if i < a.len() {
            assert(raw[i] == a[i]);
            assert(!a.contains('p') && !a.contains('a'));
        } else if a.len() < i < ab.len() {
            assert(raw[i] == b[i - a.len() - 1]);
            assert(!b.contains('p') && !b.contains('a'));
        } else if i > ab.len() {
            assert(raw[i] == c[i - ab.len() - 1]);
            assert(!c.contains('p') && !c.contains('a'));
        }
    }
    assert(raw.last() == c.last());
    lemma_split_concat(ab, c, ':');
    lemma_split_concat(a, b, ':');
    lemma_split_no_separator(a, ':');
    lemma_split_no_separator(b, ':');
    lemma_split_no_separator(c, ':');
    assert(split_at_char(raw, ':') =~= seq![a, b, c]);
}

/// `HH:MM:SS` is hour `HH`, minute `MM` and second `SS`.
pub proof fn law_hour_minute_second(a: Seq<char>, b: Seq<char>, c: Seq<char>)
    requires
        is_numeral(a),
        is_numeral(b),
        is_numeral(c),
        digits_value(a) <= i32::MAX,
        digits_value(b) <= i32::MAX,
        digits_value(c) <= i32::MAX,
    ensures
        hms_from_text(a + seq![':'] + b + seq![':'] + c) == Ok::<(u32, u32, u32), TimeError>(
            (digits_value(a) as u32, digits_value(b) as u32, digits_value(c) as u32),
        ),
{
    let raw = a + seq![':'] + b + seq![':'] + c;
    lemma_numeral_reads(a);
    lemma_numeral_reads(b);
    lemma_numeral_reads(c);
    lemma_three_numerals(a, b, c);
    lemma_plain_pieces(raw);
    let pieces = hms_pieces(raw);
    assert(pieces =~= seq![a, b, c]);
    assert(!exists|k: int| 0 <= k < pieces.len() && #[trigger] i32_from_text(pieces[k]) is None)
        by {
        assert forall|k: int| 0 <= k < pieces.len() implies #[trigger] i32_from_text(
            pieces[k],
        ) is Some by {
            if k == 0 {
                assert(pieces[k] == a);
            } else if k == 1 {
                assert(pieces[k] == b);
            } else {
                assert(pieces[k] == c);
            }
        }
    }
}

/// The pieces of `HH` followed by a two-letter marker.
proof fn lemma_marked_hour(a: Seq<char>, x: char)
    requires
        is_numeral(a),
        x == 'a' || x == 'p',
    ensures
        lower_chars(a + seq![x, 'm']) == a + seq![x, 'm'],
        hms_pieces(a + seq![x, 'm']) == seq![a],
        ends_with_pair(a + seq![x, 'm'], x, 'm'),
{
    let raw = a + seq![x, 'm'];
    lemma_numeral_chars(a);
    assert forall|i: int| 0 <= i < raw.len() implies !('A' <= #[trigger] raw[i] && raw[i]
        <= 'Z') by {
        if i < a.len() {
            assert(raw[i] == a[i]);
        }
    }
    lemma_lower_fixed(raw);
    lemma_without_pairs_prefix(a, seq![x, 'm'], x, 'm');
    let marker = seq![x, 'm'];
    assert(marker.len() == 2 && marker[0] == x && marker[1] == 'm');
    assert(marker.skip(2) =~= Seq::<char>::empty());
    assert(without_pairs(marker, x, 'm') == without_pairs(marker.skip(2), x, 'm'));
    assert(without_pairs(Seq::<char>::empty(), x, 'm') == Seq::<char>::empty());
    assert(a + Seq::<char>::empty() =~= a);
    lemma_split_no_separator(a, ':');
}

/// `HHpm`: hours 1 to 11 move twelve hours on; any other hour stays.
pub proof fn law_pm_hour(a: Seq<char>)
    requires
        is_numeral(a),
        digits_value(a) <= i32::MAX,
    ensures
        hms_from_text(a + seq!['p', 'm']) == Ok::<(u32, u32, u32), TimeError>(
            (
                if digits_value(a) < 12 {
                    (digits_value(a) + 12) as u32
                } else {
                    digits_value(a) as u32
                },
                0,
                0,
            ),
        ),
{
    let raw = a + seq!['p', 'm'];
    lemma_marked_hour(a, 'p');
    lemma_numeral_reads(a);
    let pieces = hms_pieces(raw);
    assert(!ends_with_pair(raw, 'a', 'm'));
    assert(!exists|k: int| 0 <= k < pieces.len() && #[trigger] i32_from_text(pieces[k]) is None);
}

/// `HHam`: hour 12 is midnight; any other hour stays.
pub proof fn law_am_hour(a: Seq<char>)
    requires
        is_numeral(a),
        digits_value(a) <= i32::MAX,
    ensures
        hms_from_text(a + seq!['a', 'm']) == Ok::<(u32, u32, u32), TimeError>(
            (
                if digits_value(a) == 12 {
                    0
                } else {
                    digits_value(a) as u32
                },
                0,
                0,
            ),
        ),
{
    let raw = a + seq!['a', 'm'];
    lemma_marked_hour(a, 'a');
    lemma_numeral_reads(a);
    let pieces = hms_pieces(raw);
    assert(!ends_with_pair(raw, 'p', 'm'));
    assert(!exists|k: int| 0 <= k < pieces.len() && #[trigger] i32_from_text(pieces[k]) is None);
}

/// Times of day are read without regard to ASCII case: `3PM` is `3pm`.
pub proof fn law_case_insensitive(s: Seq<char>)
    ensures
        hms_from_text(s) == hms_from_text(lower_chars(s)),
{
    lemma_lower_idempotent(s);
}

/// A time of day that holds both an `a` and a `p` (in either case), as in
/// `7ampm`, is refused for invalid characters.
pub proof fn law_am_and_pm_rejected(s: Seq<char>)
    requires
        lower_chars(s).contains('a'),
        lower_chars(s).contains('p'),
    ensures
        hms_from_text(s) == Err::<(u32, u32, u32), TimeError>(TimeError::InvalidTimeCharacters),
{
    let t = lower_chars(s);
    let stray = if ends_with_pair(t, 'a', 'm') {
        'p'
    } else {
        'a'
    };
    let cleaned = if ends_with_pair(t, 'a', 'm') {
        without_pairs(t, 'a', 'm')
    } else {
        without_pairs(t, 'p', 'm')
    };
    if ends_with_pair(t, 'a', 'm') {
        lemma_without_pairs_keeps(t, 'a', 'm', 'p');
    } else {
        lemma_without_pairs_keeps(t, 'p', 'm', 'a');
    }
    lemma_split_keeps(cleaned, ':', stray);
    let pieces = hms_pieces(s);
    let k = choose|k: int| 0 <= k < pieces.len() && (#[trigger] pieces[k]).contains(stray);
    lemma_stray_char_text(pieces[k], stray);
    assert(i32_from_text(pieces[k]) is None);
}

/// `+NUM` followed by a unit `s`, `m`, `h` or `d` is that many seconds,
/// minutes, hours or days, in seconds.
pub proof fn law_relative_units(a: Seq<char>, unit: char)
    requires
        is_numeral(a),
        digits_value(a) <= i64::MAX,
        unit_seconds(unit) is Some,
    ensures
        relative_seconds_from_text(seq!['+'] + a + seq![unit]) == Ok::<int, TimeError>(
            digits_value(a) * (unit_seconds(unit)->0 as int),
        ),
{
    let s = seq!['+'] + a + seq![unit];
    lemma_numeral_reads(a);
    assert(s.subrange(1, s.len() - 1) =~= a);
}

/// `MM/DD/YYYY` is month `MM`, day `DD` and year `YYYY`.
pub proof fn law_date_with_year(m: Seq<char>, d: Seq<char>, y: Seq<char>)
    requires
        is_numeral(m),
        is_numeral(d),
        is_numeral(y),
        digits_value(m) <= u32::MAX,
        digits_value(d) <= u32::MAX,
        digits_value(y) <= i32::MAX,
    ensures
        date_fields_from_text(m + seq!['/'] + d + seq!['/'] + y) == Ok::<
            (u32, u32, Option<i32>),
            TimeError,
        >((digits_value(m) as u32, digits_value(d) as u32, Some(digits_value(y) as i32))),
{
    let md = m + seq!['/'] + d;
    let s = md + seq!['/'] + y;
    lemma_numeral_chars(m);
    lemma_numeral_chars(d);
    lemma_numeral_chars(y);
    lemma_numeral_reads(m);
    lemma_numeral_reads(d);
    lemma_numeral_reads(y);
    assert(s[m.len() as int] == '/');
    lemma_split_concat(md, y, '/');
    lemma_split_concat(m, d, '/');
    lemma_split_no_separator(m, '/');
    lemma_split_no_separator(d, '/');
    lemma_split_no_separator(y, '/');
    let pieces = split_at_char(s, '/');
    assert(pieces =~= seq![m, d, y]);
    assert(!exists|k: int| 0 <= k < pieces.len() && #[trigger] u32_from_text(pieces[k]) is None)
        by {
        assert forall|k: int| 0 <= k < pieces.len() implies #[trigger] u32_from_text(
            pieces[k],
        ) is Some by {
            if k == 0 {
                assert(pieces[k] == m);
            } else if k == 1 {
                assert(pieces[k] == d);
            } else {
                assert(pieces[k] == y);
            }
        }
    }
}

/// `MM/DD` is month `MM` and day `DD`, with the year left to the clock.
pub proof fn law_date_without_year(m: Seq<char>, d: Seq<char>)
    requires
        is_numeral(m),
        is_numeral(d),
        digits_value(m) <= u32::MAX,
        digits_value(d) <= u32::MAX,
    ensures
        date_fields_from_text(m + seq!['/'] + d) == Ok::<(u32, u32, Option<i32>), TimeError>(
            (digits_value(m) as u32, digits_value(d) as u32, None),
        ),
{
    let s = m + seq!['/'] + d;
    lemma_numeral_chars(m);
    lemma_numeral_chars(d);
    lemma_numeral_reads(m);
    lemma_numeral_reads(d);
    assert(s[m.len() as int] == '/');
    lemma_split_concat(m, d, '/');
    lemma_split_no_separator(m, '/');
    lemma_split_no_separator(d, '/');
    let pieces = split_at_char(s, '/');
    assert(pieces =~= seq![m, d]);
    assert(!exists|k: int| 0 <= k < pieces.len() && #[trigger] u32_from_text(pieces[k]) is None)
        by {
        assert forall|k: int| 0 <= k < pieces.len() implies #[trigger] u32_from_text(
            pieces[k],
        ) is Some by {
            if k == 0 {
                assert(pieces[k] == m);
            } else {
                assert(pieces[k] == d);
            }
        }
    }
}

/// The next occurrence of a time of day is its instant today where that is
/// still to come, else the same instant a day later; either way it lies after
/// `now` when today's instant lies less than a day before `now`.
pub proof fn law_next_occurrence_after_now(candidate: i64, now: UtcTime)
    requires
        now.wf(),
        now.timestamp - SECONDS_PER_DAY < candidate,
        MIN_TIMESTAMP <= candidate + SECONDS_PER_DAY <= MAX_TIMESTAMP,
    ensures
        next_occurrence_spec(Some(candidate), now) matches Ok(t) && !t.not_after(now) && t.nanos
            == 0 && (t.timestamp == candidate || t.timestamp == candidate + SECONDS_PER_DAY),
{
}

/// Resolving a wake time gives the timestamp of the instant it is placed at,
/// for every relative span that `f64` holds exactly (every span up to 2^53
/// seconds, and the even ones above), except a span back in time from within
/// a leap second.
pub proof fn law_resolve_is_timestamp(time: ScheduleTime, now: UtcTime, candidate: Option<i64>)
    requires
        now.wf(),
        time.wf(),
        time matches ScheduleTime::Relative(d) ==> f64_rounded(d as int) == d,
        time matches ScheduleTime::Relative(d) && d < 0 ==> now.nanos < 1_000_000_000,
    ensures
        time.resolved_at(now, candidate) == match time.datetime_at(now, candidate) {
            Ok(t) => Ok::<i64, TimeError>(t.timestamp),
            Err(e) => Err(e),
        },
{
}

/// A time of day built from an hour, minute and second gives them back:
/// `hour`, `minute` and `second` of `TimeOfDay::from_hms_opt(h, m, s)` are
/// `h`, `m` and `s`.
pub proof fn law_time_of_day_parts(hour: u32, minute: u32, second: u32)
    requires
        valid_hms(hour, minute, second),
    ensures
        hms_seconds(hour, minute, second) / 3600 == hour,
        (hms_seconds(hour, minute, second) % 3600) / 60 == minute,
        hms_seconds(hour, minute, second) % 60 == second,
        hms_seconds(hour, minute, second) < 86400,
{
    let t = hms_seconds(hour, minute, second);
    assert(t / 3600 == hour && (t % 3600) / 60 == minute && t % 60 == second && t < 86400)
        by (nonlinear_arith)
        requires
            t == hour * 3600 + minute * 60 + second,
            hour < 24,
            minute < 60,
            second < 60,
    ;
}

/// In a time zone whose offset from UTC stays `offset` seconds, the placement
/// that `to_datetime` makes of a time of day (the wall clock of `now`, the
/// time of day on that local date, and the instant that shows it) gives the
/// first instant after `now` at which the local wall clock shows that time of
/// day: it lies after `now`, at most a day after it, and its wall clock reads
/// the time of day.
pub proof fn law_next_local_occurrence(t: TimeOfDay, now: UtcTime, offset: int)
    requires
        now.wf(),
        t@ < 86400,
        -SECONDS_PER_DAY < offset < SECONDS_PER_DAY,
        MIN_TIMESTAMP <= wall_clock_today(now.timestamp + offset, t@ as int) - offset
            + SECONDS_PER_DAY <= MAX_TIMESTAMP,
    ensures
        ({
            let wall_now = now.timestamp + offset;
            let candidate = (wall_clock_today(wall_now, t@ as int) - offset) as i64;
            &&& ScheduleTime::TimeOfDay(t).zone_placement(now, wall_now, Some(candidate))
            &&& ScheduleTime::TimeOfDay(t).datetime_at(now, Some(candidate)) matches Ok(r)
                && !r.not_after(now) && r.timestamp <= now.timestamp + SECONDS_PER_DAY && (
            r.timestamp + offset) % (SECONDS_PER_DAY as int) == t@
        }),
{
    let tod = t@ as int;
    let w = now.timestamp + offset;
    let r = w % 86400;
    let start = w - r;
    vstd::arithmetic::div_mod::lemma_fundamental_div_mod(w, 86400);
    let k = w / 86400;
    assert(start == 86400 * k);
    vstd::arithmetic::div_mod::lemma_mod_multiples_vanish(k, tod, 86400);
    vstd::arithmetic::div_mod::lemma_mod_multiples_vanish(k + 1, tod, 86400);
    assert(86400 * (k + 1) == 86400 * k + 86400) by (nonlinear_arith);
    assert(tod % 86400 == tod) by {
        vstd::arithmetic::div_mod::lemma_small_mod(tod as nat, 86400);
    }
}

/// The two-digit numeral of a number below one hundred, as chrono's `%H`,
/// `%I`, `%M` and `%S` write it.
pub open spec fn two_digits(v: int) -> Seq<char> {
    seq![(48 + v / 10) as char, (48 + v % 10) as char]
}

/// A time of day as `%H:%M:%S` writes it (24-hour clock).
pub open spec fn clock_24(hour: u32, minute: u32, second: u32) -> Seq<char> {
    two_digits(hour as int) + seq![':'] + two_digits(minute as int) + seq![':'] + two_digits(
        second as int,
    )
}

/// A time of day as `%I:%M:%S%p` writes it (12-hour clock, `AM` or `PM`).
pub open spec fn clock_12(hour: u32, minute: u32, second: u32) -> Seq<char> {
    let h12 = if hour % 12 == 0 {
        12
    } else {
        hour % 12
    };
    two_digits(h12 as int) + seq![':'] + two_digits(minute as int) + seq![':'] + two_digits(
        second as int,
    ) + if hour < 12 {
        seq!['A', 'M']
    } else {
        seq!['P', 'M']
    }
}

/// A two-digit numeral is a numeral worth its number.
proof fn lemma_two_digits(v: int)
    requires
        0 <= v < 100,
    ensures
        is_numeral(two_digits(v)),
        digits_value(two_digits(v)) == v,
{
    let s = two_digits(v);
    let hi = seq![s[0]];
    assert(s.drop_last() =~= hi);
    assert(hi.drop_last() =~= Seq::<char>::empty());
    assert(digits_value(hi) == 10 * digits_value(hi.drop_last()) + crate::text::digit_value(
        hi.last(),
    ));
    assert(is_digit(s[0]) && is_digit(s[1]));
    assert(all_digits(s));
}

/// A time of day written out on the 24-hour clock (`%H:%M:%S`, as `09:05:00`)
/// or the 12-hour clock (`%I:%M:%S%p`, as `12:05:00AM`) reads back as that
/// time of day, and `parse_time_of_day` gives it back.
pub proof fn law_time_of_day_renderings(hour: u32, minute: u32, second: u32)
    requires
        valid_hms(hour, minute, second),
    ensures
        hms_from_text(clock_24(hour, minute, second)) == Ok::<(u32, u32, u32), TimeError>(
            (hour, minute, second),
        ),
        hms_from_text(clock_12(hour, minute, second)) == Ok::<(u32, u32, u32), TimeError>(
            (hour, minute, second),
        ),
        forall|r: Result<ScheduleTime, TimeError>|
            #[trigger] time_of_day_outcome(clock_24(hour, minute, second), r) ==> (r matches Ok(
                ScheduleTime::TimeOfDay(t),
            ) && t@ == hms_seconds(hour, minute, second)),
        forall|r: Result<ScheduleTime, TimeError>|
            #[trigger] time_of_day_outcome(clock_12(hour, minute, second), r) ==> (r matches Ok(
                ScheduleTime::TimeOfDay(t),
            ) && t@ == hms_seconds(hour, minute, second)),
{
    let h12: u32 = if hour % 12 == 0 {
        12
    } else {
        hour % 12
    };
    let a = two_digits(hour as int);
    let a12 = two_digits(h12 as int);
    let b = two_digits(minute as int);
    let c = two_digits(second as int);
    lemma_two_digits(hour as int);
    lemma_two_digits(h12 as int);
    lemma_two_digits(minute as int);
    lemma_two_digits(second as int);
    law_hour_minute_second(a, b, c);
    assert(clock_24(hour, minute, second) == a + seq![':'] + b + seq![':'] + c);
    // The 12-hour form.
    let body = a12 + seq![':'] + b + seq![':'] + c;
    let x: char = if hour < 12 {
        'a'
    } else {
        'p'
    };
    let upper = if hour < 12 {
        seq!['A', 'M']
    } else {
        seq!['P', 'M']
    };
    let raw = body + upper;
    assert(raw == clock_12(hour, minute, second));
    lemma_three_numerals(a12, b, c);
    lemma_numeral_reads(a12);
    lemma_numeral_reads(b);
    lemma_numeral_reads(c);
    lemma_lower_fixed(body);
    let marker = seq![x, 'm'];
    assert(lower_chars(raw) =~= body + marker) by {
        assert(ascii_lower('A') == 'a');
        assert(ascii_lower('P') == 'p');
        assert(ascii_lower('M') == 'm');
        assert forall|i: int| 0 <= i < raw.len() implies #[trigger] lower_chars(raw)[i] == (
        body + marker)[i] by {
            if i < body.len() {
                assert(raw[i] == body[i]);
                assert(lower_chars(body)[i] == ascii_lower(body[i]));
            }
        }
    }
    let t = lower_chars(raw);
    assert(ends_with_pair(t, x, 'm'));
    assert(!body.contains(x));
    lemma_without_pairs_prefix(body, marker, x, 'm');
    assert(marker.skip(2) =~= Seq::<char>::empty());
    assert(without_pairs(marker, x, 'm') == without_pairs(marker.skip(2), x, 'm'));
    assert(without_pairs(Seq::<char>::empty(), x, 'm') == Seq::<char>::empty());
    assert(body + Seq::<char>::empty() =~= body);
    let pieces = hms_pieces(raw);
    assert(pieces =~= seq![a12, b, c]);
    assert(!exists|k: int| 0 <= k < pieces.len() && #[trigger] i32_from_text(pieces[k]) is None)
        by {
        assert forall|k: int| 0 <= k < pieces.len() implies #[trigger] i32_from_text(
            pieces[k],
        ) is Some by {
            if k == 0 {
                assert(pieces[k] == a12);
            } else if k == 1 {
                assert(pieces[k] == b);
            } else {
                assert(pieces[k] == c);
            }
        }
    }
}

/// An absolute wake time names its instant whatever the current time, and a
/// relative one lies its span after the current time: for an instant
/// outside a leap second, exactly that many seconds later with the same
/// fraction of a second.
pub proof fn law_fixed_wake_times(
    a: UtcTime,
    d: i64,
    n1: UtcTime,
    n2: UtcTime,
    c1: Option<i64>,
    c2: Option<i64>,
)
    requires
        n1.wf(),
        n1.nanos < 1_000_000_000,
        MIN_TIMESTAMP <= n1.timestamp + d <= MAX_TIMESTAMP,
    ensures
        ScheduleTime::Absolute(a).datetime_at(n1, c1) == Ok::<UtcTime, TimeError>(a),
        ScheduleTime::Absolute(a).datetime_at(n1, c1) == ScheduleTime::Absolute(a).datetime_at(
            n2,
            c2,
        ),
        ScheduleTime::Relative(d).datetime_at(n1, c1) matches Ok(t) && t.timestamp - n1.timestamp
            == d && t.nanos == n1.nanos && t.wf(),
{
}

/// Two numerals joined by a colon hold no capital, `a` or `p`, end in a
/// digit, and split at the colon into the two numerals.
proof fn lemma_two_numerals(a: Seq<char>, b: Seq<char>)
    requires
        is_numeral(a),
        is_numeral(b),
    ensures
        ({
            let raw = a + seq![':'] + b;
            &&& forall|i: int|
                0 <= i < raw.len() ==> (!('A' <= #[trigger] raw[i] && raw[i] <= 'Z') && raw[i]
                    != 'p' && raw[i] != 'a')
            &&& split_at_char(raw, ':') == seq![a, b]
        }),
{
    let raw = a + seq![':'] + b;
    lemma_numeral_chars(a);
    lemma_numeral_chars(b);
    assert forall|i: int| 0 <= i < raw.len() implies (!('A' <= #[trigger] raw[i] && raw[i] <= 'Z')
        && raw[i] != 'p' && raw[i] != 'a') by {
        if i < a.len() {
            assert(raw[i] == a[i]);
            assert(!a.contains('p') && !a.contains('a'));
        } else if i > a.len() {
            assert(raw[i] == b[i - a.len() - 1]);
            assert(!b.contains('p') && !b.contains('a'));
        }
    }
    lemma_split_concat(a, b, ':');
    lemma_split_no_separator(a, ':');
    lemma_split_no_separator(b, ':');
    assert(split_at_char(raw, ':') =~= seq![a, b]);
}

/// A body without capitals, `a` or `p`, followed by `am` or `pm`: the
/// marker is the one detected, and the pieces are those of the body.
proof fn lemma_marked_body(body: Seq<char>, x: char)
    requires
        x == 'a' || x == 'p',
        forall|i: int|
            0 <= i < body.len() ==> (!('A' <= #[trigger] body[i] && body[i] <= 'Z') && body[i]
                != 'p' && body[i] != 'a'),
    ensures
        lower_chars(body + seq![x, 'm']) == body + seq![x, 'm'],
        ends_with_pair(body + seq![x, 'm'], x, 'm'),
        hms_pieces(body + seq![x, 'm']) == split_at_char(body, ':'),
{
    let marker = seq![x, 'm'];
    let raw = body + marker;
    assert forall|i: int| 0 <= i < raw.len() implies !('A' <= #[trigger] raw[i] && raw[i]
        <= 'Z') by {
        if i < body.len() {
            assert(raw[i] == body[i]);
        }
    }
    lemma_lower_fixed(raw);
    assert(!body.contains(x));
    lemma_without_pairs_prefix(body, marker, x, 'm');
    assert(marker.skip(2) =~= Seq::<char>::empty());
    assert(without_pairs(marker, x, 'm') == without_pairs(marker.skip(2), x, 'm'));
    assert(without_pairs(Seq::<char>::empty(), x, 'm') == Seq::<char>::empty());
    assert(body + Seq::<char>::empty() =~= body);
}

/// `HH:MMpm` is minute `MM` of hour `HH`, twelve hours on for hours 1 to 11;
/// `HH:MMam` is minute `MM` of hour `HH`, with hour 12 as midnight.
pub proof fn law_marked_hour_minute(a: Seq<char>, b: Seq<char>)
    requires
        is_numeral(a),
        is_numeral(b),
        digits_value(a) <= i32::MAX,
        digits_value(b) <= i32::MAX,
    ensures
        hms_from_text(a + seq![':'] + b + seq!['p', 'm']) == Ok::<(u32, u32, u32), TimeError>(
            (
                if digits_value(a) < 12 {
                    (digits_value(a) + 12) as u32
                } else {
                    digits_value(a) as u32
                },
                digits_value(b) as u32,
                0,
            ),
        ),
        hms_from_text(a + seq![':'] + b + seq!['a', 'm']) == Ok::<(u32, u32, u32), TimeError>(
            (
                if digits_value(a) == 12 {
                    0
                } else {
                    digits_value(a) as u32
                },
                digits_value(b) as u32,
                0,
            ),
        ),
{
    let body = a + seq![':'] + b;
    lemma_two_numerals(a, b);
    lemma_numeral_reads(a);
    lemma_numeral_reads(b);
    lemma_marked_body(body, 'p');
    lemma_marked_body(body, 'a');
    let pp = hms_pieces(body + seq!['p', 'm']);
    let pa = hms_pieces(body + seq!['a', 'm']);
    assert(pp =~= seq![a, b]);
    assert(pa =~= seq![a, b]);
    assert(!ends_with_pair(body + seq!['p', 'm'], 'a', 'm'));
    assert(!ends_with_pair(body + seq!['a', 'm'], 'p', 'm'));
    assert(!exists|k: int| 0 <= k < pp.len() && #[trigger] i32_from_text(pp[k]) is None) by {
        assert forall|k: int| 0 <= k < pp.len() implies #[trigger] i32_from_text(pp[k]) is Some by {
            if k == 0 {
                assert(pp[k] == a);
            } else {
                assert(pp[k] == b);
            }
        }
    }
    assert(!exists|k: int| 0 <= k < pa.len() && #[trigger] i32_from_text(pa[k]) is None) by {
        assert forall|k: int| 0 <= k < pa.len() implies #[trigger] i32_from_text(pa[k]) is Some by {
            if k == 0 {
                assert(pa[k] == a);
            } else {
                assert(pa[k] == b);
            }
        }
    }
}

/// `HH:MM:SSpm` is second `SS` of minute `MM` of hour `HH`, twelve hours on
/// for hours 1 to 11; `HH:MM:SSam` is the same with hour 12 as midnight.
pub proof fn law_marked_hour_minute_second(a: Seq<char>, b: Seq<char>, c: Seq<char>)
    requires
        is_numeral(a),
        is_numeral(b),
        is_numeral(c),
        digits_value(a) <= i32::MAX,
        digits_value(b) <= i32::MAX,
        digits_value(c) <= i32::MAX,
    ensures
        hms_from_text(a + seq![':'] + b + seq![':'] + c + seq!['p', 'm']) == Ok::<
            (u32, u32, u32),
            TimeError,
        >(
            (
                if digits_value(a) < 12 {
                    (digits_value(a) + 12) as u32
                } else {
                    digits_value(a) as u32
                },
                digits_value(b) as u32,
                digits_value(c) as u32,
            ),
        ),
        hms_from_text(a + seq![':'] + b + seq![':'] + c + seq!['a', 'm']) == Ok::<
            (u32, u32, u32),
            TimeError,
        >(
            (
                if digits_value(a) == 12 {
                    0
                } else {
                    digits_value(a) as u32
                },
                digits_value(b) as u32,
                digits_value(c) as u32,
            ),
        ),
{
    let body = a + seq![':'] + b + seq![':'] + c;
    lemma_three_numerals(a, b, c);
    lemma_numeral_reads(a);
    lemma_numeral_reads(b);
    lemma_numeral_reads(c);
    lemma_marked_body(body, 'p');
    lemma_marked_body(body, 'a');
    let pp = hms_pieces(body + seq!['p', 'm']);
    let pa = hms_pieces(body + seq!['a', 'm']);
    assert(pp =~= seq![a, b, c]);
    assert(pa =~= seq![a, b, c]);
    assert(!ends_with_pair(body + seq!['p', 'm'], 'a', 'm'));
    assert(!ends_with_pair(body + seq!['a', 'm'], 'p', 'm'));
    assert(!exists|k: int| 0 <= k < pp.len() && #[trigger] i32_from_text(pp[k]) is None) by {
        assert forall|k: int| 0 <= k < pp.len() implies #[trigger] i32_from_text(pp[k]) is Some by {
            if k == 0 {
                assert(pp[k] == a);
            } else if k == 1 {
                assert(pp[k] == b);
            } else {
                assert(pp[k] == c);
            }
        }
    }
    assert(!exists|k: int| 0 <= k < pa.len() && #[trigger] i32_from_text(pa[k]) is None) by {
        assert forall|k: int| 0 <= k < pa.len() implies #[trigger] i32_from_text(pa[k]) is Some by {
            if k == 0 {
                assert(pa[k] == a);
            } else if k == 1 {
                assert(pa[k] == b);
            } else {
                assert(pa[k] == c);
            }
        }
    }
}

} // verus!
