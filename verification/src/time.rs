//! Clock readings, local-time parsing and the rendering of times and durations.

use vstd::prelude::*;
use crate::text::{digit_char, int_text, int_to_string, push_char};
use chrono::{Datelike, TimeZone, Timelike};

verus! {

/// Integer division rounding toward zero, as Rust's `/` does on signed integers.
pub open spec fn trunc_div(a: int, b: int) -> int {
    if a >= 0 { a / b } else { -((-a) / b) }
}

/// The remainder that goes with `trunc_div`, as Rust's `%` does on signed integers.
pub open spec fn trunc_rem(a: int, b: int) -> int {
    a - b * trunc_div(a, b)
}

/// A duration in seconds as `"{h}h {m}m"`, or `"{m}m"` when there is no whole positive hour.
pub open spec fn duration_text(secs: int) -> Seq<char> {
    let h = trunc_div(secs, 3600);
    let m = trunc_div(trunc_rem(secs, 3600), 60);
    if h > 0 {
        int_text(h) + seq!['h', ' '] + int_text(m) + seq!['m']
    } else {
        int_text(m) + seq!['m']
    }
}

fn div_toward_zero(a: i128, b: i128) -> (q: i128)
    requires
        b > 0,
        -0x1_0000_0000_0000_0000i128 <= a <= 0x1_0000_0000_0000_0000i128,
    ensures
        q == trunc_div(a as int, b as int),
        -0x1_0000_0000_0000_0000i128 <= q <= 0x1_0000_0000_0000_0000i128,
{
    if a >= 0 {
        assert(a / b <= a) by (nonlinear_arith)
            requires a >= 0, b > 0;
        a / b
    } else {
        let n = -a;
        assert(n / b <= n) by (nonlinear_arith)
            requires n >= 0, b > 0;
        -(n / b)
    }
}

/// Renders a duration in seconds: whole hours and minutes, `"1h 23m"`, or only minutes, `"45m"`.
pub fn format_duration(secs: i64) -> (s: String)
    ensures
        s@ == duration_text(secs as int),
{
    let a = secs as i128;
    let h = div_toward_zero(a, 3600);
    proof {
        let ai = a as int;
        if ai >= 0 {
            assert(0 <= ai - 3600 * (ai / 3600) < 3600) by (nonlinear_arith)
                requires ai >= 0;
        } else {
            assert(-3600 < ai + 3600 * ((-ai) / 3600) <= 0) by (nonlinear_arith)
                requires ai < 0;
        }
    }
    let r = a - 3600 * h;
    let m = div_toward_zero(r, 60);
    proof {
        let ri = r as int;
        if ri >= 0 {
            assert(ri / 60 < 60) by (nonlinear_arith) requires 0 <= ri < 3600;
        } else {
            assert((-ri) / 60 < 60) by (nonlinear_arith) requires 0 < -ri < 3600;
        }
    }
    let mut s = if h > 0 {
        let mut t = int_to_string(h as i64);
        push_char(&mut t, 'h');
        push_char(&mut t, ' ');
        let ms = int_to_string(m as i64);
        t.append(ms.as_str());
        t
    } else {
        int_to_string(m as i64)
    };
    push_char(&mut s, 'm');
    assert(s@ =~= duration_text(secs as int));
    s
}


#[verifier::external_type_specification]
#[verifier::external_body]
pub struct ExSystemTime(std::time::SystemTime);

#[verifier::external_type_specification]
#[verifier::external_body]
pub struct ExSystemTimeError(std::time::SystemTimeError);

/// `std::time::SystemTime::now()`: the system clock's reading. It rests on the clock alone, so
/// nothing is stated of it.
#[verifier::external_body]
fn system_time_now() -> (t: std::time::SystemTime) {
    std::time::SystemTime::now()
}

/// `t.duration_since(std::time::UNIX_EPOCH)`: how long after the Unix epoch `t` lies, or an error
/// where it lies before. The reading is opaque here, so nothing is stated of the result.
#[verifier::external_body]
fn since_unix_epoch(t: &std::time::SystemTime) -> (r: Result<core::time::Duration, std::time::SystemTimeError>) {
    t.duration_since(std::time::UNIX_EPOCH)
}

/// `Duration::as_secs`: the whole seconds of a duration. The duration is opaque here, so nothing
/// is stated of the result.
#[verifier::external_body]
fn whole_seconds(d: &core::time::Duration) -> (s: u64) {
    d.as_secs()
}

/// The text of the error given where the system clock cannot be read as a timestamp.
pub open spec fn clock_failure_text() -> Seq<char> {
    "system time out of range"@
}

/// The error text given where the system clock cannot be read as a timestamp.
pub fn clock_failure() -> (s: String)
    ensures
        s@ == clock_failure_text(),
{
    String::from_str("system time out of range")
}

/// The whole seconds since the Unix epoch that the system clock reads (what chrono's
/// `Utc::now().timestamp()` gives); `None` where the clock reads before the epoch or further
/// than an `i64` counts.
pub fn unix_now() -> (r: Option<i64>)
    ensures
        r matches Some(t) ==> 0 <= t,
{
    let now = system_time_now();
    match since_unix_epoch(&now) {
        Ok(d) => {
            let secs = whole_seconds(&d);
            if secs <= 9_223_372_036_854_775_807u64 {
                Some(secs as i64)
            } else {
                None
            }
        },
        Err(_) => None,
    }
}

/// The number of days from 1970-01-01 to the given date of the proleptic Gregorian calendar.
pub open spec fn days_from_civil(y: int, m: int, d: int) -> int {
    let yy = if m <= 2 { y - 1 } else { y };
    let era = yy / 400;
    let yoe = yy - era * 400;
    let mp = if m > 2 { m - 3 } else { m + 9 };
    let doy = (153 * mp + 2) / 5 + d - 1;
    let doe = yoe * 365 + yoe / 4 - yoe / 100 + doy;
    era * 146097 + doe - 719468
}

/// The seconds from the Unix epoch to a wall-clock date and time read as if it were UTC.
pub open spec fn naive_seconds(dt: (i32, u32, u32, u32, u32)) -> int {
    days_from_civil(dt.0 as int, dt.1 as int, dt.2 as int) * 86_400 + dt.3 * 3_600 + dt.4 * 60
}

/// The first second of year 1 plus a day, and the last second of year 9999 less a day: between
/// them, a timestamp falls in the years 1 to 9999 at every offset from UTC.
pub open spec fn in_four_digit_years(ts: int) -> bool {
    -62_135_596_800 + 86_400 <= ts <= 253_402_300_799 - 86_400
}

/// `(y, m, d)` can be a local calendar date of `ts`: a date of the years 1 to 9999 whose day
/// starts less than a day before `ts` plus a day and ends after it less a day, as a local date
/// does under an offset from UTC of less than a day.
pub open spec fn is_local_day_of(ts: int, y: int, m: int, d: int) -> bool {
    &&& 1 <= y <= 9999
    &&& 1 <= m <= 12
    &&& 1 <= d <= 31
    &&& days_from_civil(y, m, d) * 86_400 - 86_400 < ts < days_from_civil(y, m, d) * 86_400 + 172_800
}

/// `day` can be a local calendar date of `ts`: a date whose day starts less than a day before `ts`
/// plus a day and ends after it less a day, as a local date does under an offset from UTC of
/// less than a day.
pub open spec fn local_day_bounds(ts: int, day: (i32, u32, u32)) -> bool {
    &&& 1 <= day.1 <= 12
    &&& 1 <= day.2 <= 31
    &&& days_from_civil(day.0 as int, day.1 as int, day.2 as int) * 86_400 - 86_400 < ts
    &&& ts < days_from_civil(day.0 as int, day.1 as int, day.2 as int) * 86_400 + 172_800
}

/// `t` lies within a day of the time of day `hm` on `day` read as UTC, as the timestamp of that
/// wall-clock time does under an offset from UTC of less than a day.
pub open spec fn near_wall_clock(t: int, day: (i32, u32, u32), hm: (u32, u32)) -> bool {
    naive_seconds((day.0, day.1, day.2, hm.0, hm.1)) - 86_400 < t < naive_seconds((day.0, day.1, day.2, hm.0, hm.1)) + 86_400
}

/// The calendar date of a timestamp in the machine's time zone, as `(year, month, day)`:
/// `chrono::Local.timestamp_opt(ts, 0).single()`, its UTC time moved by its offset with
/// `checked_add_offset` (`None` where that leaves chrono's range), and that time's date. chrono
/// documents that `timestamp_opt` gives a single time for every timestamp in its range, which
/// holds the years 1 to 9999, and an offset is less than a day (the bound of `FixedOffset`).
/// Which of the dates around the UTC date it is rests on the time zone and is not stated.
#[verifier::external_body]
fn local_ymd(ts: i64) -> (r: Option<(i32, u32, u32)>)
    ensures
        r is Some || !in_four_digit_years(ts as int),
        r matches Some(d) ==> local_day_bounds(ts as int, d),
        r matches Some(d) ==> (in_four_digit_years(ts as int) ==> is_local_day_of(ts as int, d.0 as int, d.1 as int, d.2 as int)),
{
    match chrono::Local.timestamp_opt(ts, 0).single() {
        Some(t) => match t.naive_utc().checked_add_offset(*t.offset()) {
            Some(n) => Some((n.year(), n.month(), n.day())),
            None => None,
        },
        None => None,
    }
}

/// What `chrono::NaiveDateTime::parse_from_str(input, "%Y-%m-%d %H:%M")` gives for `input`,
/// as `(year, month, day, hour, minute)`, or `None` where it fails.
pub uninterp spec fn chrono_date_time(input: Seq<char>) -> Option<(i32, u32, u32, u32, u32)>;

/// What `chrono::NaiveTime::parse_from_str(input, "%H:%M")` gives for `input`, as
/// `(hour, minute)`, or `None` where it fails.
pub uninterp spec fn chrono_time_of_day(input: Seq<char>) -> Option<(u32, u32)>;

/// Calls `chrono::NaiveDateTime::parse_from_str(input, "%Y-%m-%d %H:%M")`. Claimed: the result
/// is `chrono_date_time(input)`, and a parsed value has a month in 1..=12, a day in 1..=31, an
/// hour below 24 and a minute below 60, the ranges of chrono's date and time types.
#[verifier::external_body]
fn parse_date_time(input: &str) -> (r: Option<(i32, u32, u32, u32, u32)>)
    ensures
        r == chrono_date_time(input@),
        r matches Some(v) ==> 1 <= v.1 <= 12 && 1 <= v.2 <= 31 && v.3 < 24 && v.4 < 60,
{
    match chrono::NaiveDateTime::parse_from_str(input, "%Y-%m-%d %H:%M") {
        Ok(dt) => Some((dt.year(), dt.month(), dt.day(), dt.hour(), dt.minute())),
        Err(_) => None,
    }
}

/// Calls `chrono::NaiveTime::parse_from_str(input, "%H:%M")`. Claimed: the result is
/// `chrono_time_of_day(input)`, with an hour below 24 and a minute below 60.
#[verifier::external_body]
fn parse_time_of_day(input: &str) -> (r: Option<(u32, u32)>)
    ensures
        r == chrono_time_of_day(input@),
        r matches Some(v) ==> v.0 < 24 && v.1 < 60,
{
    match chrono::NaiveTime::parse_from_str(input, "%H:%M") {
        Ok(t) => Some((t.hour(), t.minute())),
        Err(_) => None,
    }
}

/// The timestamp of a wall-clock time in the machine's time zone:
/// `chrono::Local.from_local_datetime(..).single()`, after `NaiveDate::from_ymd_opt` and
/// `and_hms_opt` (`None` for a date or time that does not exist). It is `None` where that time is
/// skipped or repeated by a change of offset. chrono takes the offset from the wall-clock time
/// (`checked_sub_offset`), and an offset is less than a day (the bound of `FixedOffset`); which
/// offset it is rests on the time zone and is not stated.
#[verifier::external_body]
fn local_timestamp(dt: (i32, u32, u32, u32, u32)) -> (r: Option<i64>)
    ensures
        r matches Some(t) ==> naive_seconds(dt) - 86_400 < t < naive_seconds(dt) + 86_400,
{
    let date = match chrono::NaiveDate::from_ymd_opt(dt.0, dt.1, dt.2) {
        Some(d) => d,
        None => return None,
    };
    let naive = match date.and_hms_opt(dt.3, dt.4, 0) {
        Some(n) => n,
        None => return None,
    };
    match chrono::Local.from_local_datetime(&naive).single() {
        Some(local) => Some(local.timestamp()),
        None => None,
    }
}

/// A time of day written `HH:MM`, the hour and the minute each with two digits.
pub open spec fn clock_text(h: int, m: int) -> Seq<char> {
    seq![digit_char(h / 10), digit_char(h % 10), ':', digit_char(m / 10), digit_char(m % 10)]
}

/// `s` is a time of day written `HH:MM`, with an hour below 24 and a minute below 60.
pub open spec fn is_clock_text(s: Seq<char>) -> bool {
    exists|h: int, m: int| 0 <= h < 24 && 0 <= m < 60 && s == #[trigger] clock_text(h, m)
}

/// `s` is how a timestamp is shown as a time: a time of day, which it always is for the years 1
/// to 9999, or else the decimal timestamp.
pub open spec fn time_text(ts: int, s: Seq<char>) -> bool {
    &&& in_four_digit_years(ts) ==> is_clock_text(s)
    &&& is_clock_text(s) || s == int_text(ts)
}

/// `"HH:MM"` of a timestamp in the machine's time zone, through
/// `chrono::DateTime::from_timestamp(ts, 0)`, `with_timezone(&Local)` and `format("%H:%M")`;
/// `None` where the timestamp is out of chrono's range, which holds the years 1 to 9999 (chrono
/// documents that `from_timestamp` fails only there). `%H` writes the hour 00 to 23 and `%M` the
/// minute 00 to 59. Which time of day it is rests on the time zone and is not stated.
#[verifier::external_body]
fn local_clock_text(ts: i64) -> (r: Option<String>)
    ensures
        r is Some || !in_four_digit_years(ts as int),
        r matches Some(s) ==> is_clock_text(s@),
{
    match chrono::DateTime::from_timestamp(ts, 0) {
        Some(dt) => Some(dt.with_timezone(&chrono::Local).format("%H:%M").to_string()),
        None => None,
    }
}

/// A time of day in the machine's time zone, or the decimal timestamp where it cannot be had.
pub fn format_time(ts: i64) -> (s: String)
    ensures
        time_text(ts as int, s@),
{
    let clock = local_clock_text(ts);
    format_time_from(ts, clock)
}

/// The rendering of a timestamp once the local clock text is known: that text, or else
/// the decimal timestamp.
pub fn format_time_from(ts: i64, clock: Option<String>) -> (s: String)
    ensures
        match clock {
            Some(c) => s@ == c@,
            None => s@ == int_text(ts as int),
        },
{
    match clock {
        Some(c) => c,
        None => int_to_string(ts),
    }
}

/// Which bound a parsed time must keep.
#[derive(Clone, Copy, Debug, PartialEq, Eq, Structural)]
pub enum FutureCheck {
    /// Any time is accepted.
    Unchecked,
    /// A start time may not lie after now.
    Start,
    /// A stop time may not lie after now.
    Stop,
}

/// Why a time given by the user was refused.
#[derive(Debug)]
pub enum TimeError {
    /// Neither `HH:MM` nor `YYYY-MM-DD HH:MM`; holds the input.
    InvalidFormat(String),
    /// The wall-clock time is skipped or repeated in the local time zone.
    AmbiguousLocalTime,
    /// A start time after now.
    StartInFuture,
    /// A stop time after now.
    StopInFuture,
    /// The system clock reads before the Unix epoch, or beyond the dates that can be had.
    ClockUnavailable,
}

/// Whether `c` occurs in `s`.
pub open spec fn has_char(s: Seq<char>, c: char) -> bool {
    exists|i: int| 0 <= i < s.len() && s[i] == c
}

/// The wall-clock date and time that an input names: with a `-` in it, a full
/// `YYYY-MM-DD HH:MM`; otherwise `HH:MM` on the day `today`.
pub open spec fn input_date_time(input: Seq<char>, today: (i32, u32, u32)) -> Option<(i32, u32, u32, u32, u32)> {
    if has_char(input, '-') {
        chrono_date_time(input)
    } else {
        match chrono_time_of_day(input) {
            Some(t) => Some((today.0, today.1, today.2, t.0, t.1)),
            None => None,
        }
    }
}

/// The outcome of a parse once the local timestamp of the named wall-clock time is known.
pub open spec fn checked_time(local: Option<i64>, now: i64, check: FutureCheck) -> Result<i64, TimeError> {
    match local {
        None => Err(TimeError::AmbiguousLocalTime),
        Some(t) => if t > now && check == FutureCheck::Start {
            Err(TimeError::StartInFuture)
        } else if t > now && check == FutureCheck::Stop {
            Err(TimeError::StopInFuture)
        } else {
            Ok(t)
        },
    }
}

fn contains_dash(s: &str) -> (b: bool)
    ensures
        b == has_char(s@, '-'),
{
    let n = s.unicode_len();
    let mut i: usize = 0;
    while i < n
        invariant
            n == s@.len(),
            i <= n,
            forall|k: int| 0 <= k < i ==> s@[k] != '-',
        decreases n - i,
    {
        if s.get_char(i) == '-' {
            return true;
        }
        i += 1;
    }
    false
}

/// Combines the outcomes of the two chrono parses into the wall-clock time the input names.
pub fn combine_parses(
    dashed: bool,
    date_time: Option<(i32, u32, u32, u32, u32)>,
    time_of_day: Option<(u32, u32)>,
    today: (i32, u32, u32),
) -> (r: Option<(i32, u32, u32, u32, u32)>)
    ensures
        r == (if dashed {
            date_time
        } else {
            match time_of_day {
                Some(t) => Some((today.0, today.1, today.2, t.0, t.1)),
                None => None,
            }
        }),
{
    if dashed {
        date_time
    } else {
        match time_of_day {
            Some(t) => Some((today.0, today.1, today.2, t.0, t.1)),
            None => None,
        }
    }
}

/// Applies the future bound to a local timestamp.
pub fn check_time(local: Option<i64>, now: i64, check: FutureCheck) -> (r: Result<i64, TimeError>)
    ensures
        r == checked_time(local, now, check),
{
    match local {
        None => Err(TimeError::AmbiguousLocalTime),
        Some(t) => {
            if t > now {
                match check {
                    FutureCheck::Start => return Err(TimeError::StartInFuture),
                    FutureCheck::Stop => return Err(TimeError::StopInFuture),
                    FutureCheck::Unchecked => {},
                }
            }
            Ok(t)
        },
    }
}

/// The input names a time: with a `-` in it, chrono reads it as `YYYY-MM-DD HH:MM`; otherwise
/// as `HH:MM`.
pub open spec fn names_a_time(input: Seq<char>) -> bool {
    if has_char(input, '-') {
        chrono_date_time(input) is Some
    } else {
        chrono_time_of_day(input) is Some
    }
}

/// Parses a time given as `HH:MM` (on the local day of `now`) or `YYYY-MM-DD HH:MM`, in the local
/// time zone, into a timestamp; with `check` set, a time after `now` is refused.
pub fn parse_time_at(input: &str, check: FutureCheck, now: i64) -> (r: Result<i64, TimeError>)
    ensures
        r matches Err(TimeError::InvalidFormat(s)) ==> s@ == input@,
        (r matches Err(TimeError::InvalidFormat(_))) ==> !names_a_time(input@),
        !names_a_time(input@) ==> (r matches Err(TimeError::InvalidFormat(_))) || (r matches Err(
            TimeError::ClockUnavailable,
        )),
        r is Ok || (r matches Err(TimeError::AmbiguousLocalTime)) || (r matches Err(TimeError::StartInFuture))
            || (r matches Err(TimeError::StopInFuture)) ==> names_a_time(input@),
        (r matches Err(TimeError::ClockUnavailable)) ==> !in_four_digit_years(now as int),
        r matches Ok(t) ==> (check != FutureCheck::Unchecked ==> t <= now),
        r matches Ok(t) ==> (has_char(input@, '-') ==> (chrono_date_time(input@) matches Some(dt)
            && naive_seconds(dt) - 86_400 < t < naive_seconds(dt) + 86_400)),
        r matches Ok(t) ==> (!has_char(input@, '-') ==> (chrono_time_of_day(input@) matches Some(hm)
            && exists|day: (i32, u32, u32)| #[trigger] local_day_bounds(now as int, day) && near_wall_clock(t as int, day, hm))),
        r matches Err(TimeError::StartInFuture) ==> check == FutureCheck::Start,
        r matches Err(TimeError::StopInFuture) ==> check == FutureCheck::Stop,
{
    let today = match local_ymd(now) {
        Some(d) => d,
        None => return Err(TimeError::ClockUnavailable),
    };
    let dashed = contains_dash(input);
    let date_time = if dashed { parse_date_time(input) } else { None };
    let time_of_day = if dashed { None } else { parse_time_of_day(input) };
    let named = combine_parses(dashed, date_time, time_of_day, today);
    match named {
        None => Err(TimeError::InvalidFormat(input.to_string())),
        Some(dt) => {
            let local = local_timestamp(dt);
            check_time(local, now, check)
        },
    }
}

/// Parses a time given as `HH:MM` (today) or `YYYY-MM-DD HH:MM`, in the local time zone,
/// into a timestamp; with `check` set, a time after now is refused. This is `parse_time_at` at
/// the system clock's reading, or `ClockUnavailable` where the clock cannot be read.
pub fn parse_time(input: &str, check: FutureCheck) -> (r: Result<i64, TimeError>)
    ensures
        r matches Err(TimeError::InvalidFormat(s)) ==> s@ == input@,
        (r matches Err(TimeError::InvalidFormat(_))) ==> !names_a_time(input@),
        !names_a_time(input@) ==> (r matches Err(TimeError::InvalidFormat(_))) || (r matches Err(
            TimeError::ClockUnavailable,
        )),
        r is Ok || (r matches Err(TimeError::AmbiguousLocalTime)) || (r matches Err(TimeError::StartInFuture))
            || (r matches Err(TimeError::StopInFuture)) ==> names_a_time(input@),
        r matches Ok(t) ==> (has_char(input@, '-') ==> (chrono_date_time(input@) matches Some(dt)
            && naive_seconds(dt) - 86_400 < t < naive_seconds(dt) + 86_400)),
        r matches Ok(t) ==> (!has_char(input@, '-') ==> (chrono_time_of_day(input@) matches Some(hm)
            && exists|now: int, day: (i32, u32, u32)|
            0 <= now <= i64::MAX && #[trigger] local_day_bounds(now, day) && near_wall_clock(t as int, day, hm))),
        r matches Err(TimeError::StartInFuture) ==> check == FutureCheck::Start,
        r matches Err(TimeError::StopInFuture) ==> check == FutureCheck::Stop,
{
    match unix_now() {
        Some(now) => parse_time_at(input, check, now),
        None => Err(TimeError::ClockUnavailable),
    }
}

/// The text of a time error, as it is shown to the user.
pub open spec fn time_error_text(e: TimeError) -> Seq<char> {
    match e {
        TimeError::InvalidFormat(s) => "invalid time format: '"@ + s@ + "'. Use HH:MM or YYYY-MM-DD HH:MM"@,
        TimeError::AmbiguousLocalTime => "ambiguous or invalid local time"@,
        TimeError::StartInFuture => "cannot start in the future"@,
        TimeError::StopInFuture => "cannot stop in the future"@,
        TimeError::ClockUnavailable => clock_failure_text(),
    }
}

impl TimeError {
    /// The error's text, as it is shown to the user.
    pub fn message(&self) -> (m: String)
        ensures
            m@ == time_error_text(*self),
    {
        match self {
            TimeError::InvalidFormat(s) => {
                let mut m = String::from_str("invalid time format: '");
                m.append(s.as_str());
                m.append("'. Use HH:MM or YYYY-MM-DD HH:MM");
                m
            },
            TimeError::AmbiguousLocalTime => String::from_str("ambiguous or invalid local time"),
            TimeError::StartInFuture => String::from_str("cannot start in the future"),
            TimeError::StopInFuture => String::from_str("cannot stop in the future"),
            TimeError::ClockUnavailable => clock_failure(),
        }
    }
}


/// A date of the years 1 to 9999 written as `YYYY-MM-DD`.
pub open spec fn date_text(y: int, m: int, d: int) -> Seq<char> {
    seq![
        digit_char(y / 1000),
        digit_char((y / 100) % 10),
        digit_char((y / 10) % 10),
        digit_char(y % 10),
        '-',
        digit_char(m / 10),
        digit_char(m % 10),
        '-',
        digit_char(d / 10),
        digit_char(d % 10),
    ]
}

/// `s` is the text of a local calendar date of `ts`: a date of the years 1 to 9999, written
/// `YYYY-MM-DD`, whose day starts less than a day before `ts` plus a day, and ends after it less
/// a day, as a local date does under an offset from UTC of less than a day.
pub open spec fn is_local_date_of(ts: int, s: Seq<char>) -> bool {
    exists|y: int, m: int, d: int| is_local_day_of(ts, y, m, d) && s == #[trigger] date_text(y, m, d)
}

/// The calendar date of a timestamp in the machine's time zone: `chrono::Local.timestamp_opt(ts, 0)`,
/// its `single()` UTC time moved by its offset with `checked_add_offset` (`None` where that leaves
/// chrono's range), and that time's date, written by `to_string()`. chrono documents that
/// `timestamp_opt` gives a single time for every timestamp in its range, which holds the years 1
/// to 9999; a local time is the UTC time moved by an offset of less than a day (the bound of
/// `FixedOffset`), and `NaiveDate` writes a year in 0..=9999 with four digits, then the month and
/// the day with two. Which of the dates around the UTC date it is rests on the time zone and is
/// not stated; nor is the text outside those years.
#[verifier::external_body]
fn local_date_text(ts: i64) -> (r: Option<String>)
    ensures
        r is Some || !in_four_digit_years(ts as int),
        r matches Some(s) ==> (in_four_digit_years(ts as int) ==> is_local_date_of(ts as int, s@)),
{
    match chrono::Local.timestamp_opt(ts, 0).single() {
        Some(t) => match t.naive_utc().checked_add_offset(*t.offset()) {
            Some(n) => Some(n.date().to_string()),
            None => None,
        },
        None => None,
    }
}

/// The calendar date of a timestamp in the local time zone, written `YYYY-MM-DD`; it is had
/// for every timestamp of the years 1 to 9999.
pub fn local_date(ts: i64) -> (r: Option<String>)
    ensures
        in_four_digit_years(ts as int) ==> (r matches Some(s) && is_local_date_of(ts as int, s@)),
{
    local_date_text(ts)
}

/// The wall-clock time that begins a day: its midnight.
pub fn midnight(day: (i32, u32, u32)) -> (r: (i32, u32, u32, u32, u32))
    ensures
        r == (day.0, day.1, day.2, 0u32, 0u32),
{
    (day.0, day.1, day.2, 0, 0)
}

/// `t` lies within a day of the midnight that begins a local calendar date of `now`.
pub open spec fn near_local_midnight(now: int, t: int) -> bool {
    exists|y: int, m: int, d: int|
        #[trigger] is_local_day_of(now, y, m, d) && days_from_civil(y, m, d) * 86_400 - 86_400 < t
            < days_from_civil(y, m, d) * 86_400 + 86_400
}

/// The timestamp of the local midnight that begins the local day of `now`, where that day can
/// be had and its midnight exists once in the local time zone.
pub fn start_of_day(now: i64) -> (r: Option<i64>)
    ensures
        r matches Some(t) ==> (in_four_digit_years(now as int) ==> near_local_midnight(now as int, t as int)),
{
    match local_ymd(now) {
        None => None,
        Some(today) => {
            let wall = midnight(today);
            local_timestamp(wall)
        },
    }
}

/// The timestamp of today's midnight in the local time zone: `start_of_day` of the system clock's
/// reading, where the clock can be read (at or after the Unix epoch), that day can be had and its
/// midnight exists once. Which reading the clock gives is not known here, and every timestamp is
/// near the midnight of the day of some reading, so no clause is stated of the result; what is
/// done with the reading is `start_of_day`'s contract.
pub fn start_of_today() -> (r: Option<i64>) {
    match unix_now() {
        None => None,
        Some(now) => start_of_day(now),
    }
}

} // verus!
