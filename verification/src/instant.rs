//! Absolute instants, and the resolution of a local calendar date to one.

use vstd::prelude::*;
use vstd::string::*;
use chrono::TimeZone;
use vstd::arithmetic::div_mod::{lemma_hoist_over_denominator, lemma_mod_multiples_vanish};

verus! {

/// The seconds of a day.
pub const SECONDS_PER_DAY: i64 = 86_400;

/// A moment on the UTC time line: whole seconds since 1970-01-01T00:00:00Z
/// and the nanoseconds past that second.
#[derive(Clone, Copy, Debug, PartialEq, Eq, Structural)]
pub struct UtcInstant {
    pub seconds: i64,
    pub nanos: u32,
}

/// What a local wall-clock time maps to on the UTC time line.
#[derive(Clone, Copy, Debug, PartialEq, Eq, Structural)]
pub enum LocalResolution {
    /// The local time names exactly one instant.
    Single(UtcInstant),
    /// The local time occurs twice (the clock was turned back): the two
    /// instants that it names.
    Ambiguous(UtcInstant, UtcInstant),
    /// The local time does not exist.
    Missing,
}

/// Whether `year` is a leap year of the proleptic Gregorian calendar.
pub open spec fn is_leap_year(year: int) -> bool {
    year % 4 == 0 && (year % 100 != 0 || year % 400 == 0)
}

/// The number of days of `month` in `year`; 0 where `month` is no month.
pub open spec fn days_in_month(year: int, month: int) -> int {
    if month == 2 {
        if is_leap_year(year) { 29 } else { 28 }
    } else if month == 4 || month == 6 || month == 9 || month == 11 {
        30
    } else if 1 <= month <= 12 {
        31
    } else {
        0
    }
}

/// Whether the triple names a day of the proleptic Gregorian calendar.
pub open spec fn is_calendar_date(year: int, month: int, day: int) -> bool {
    1 <= month <= 12 && 1 <= day <= days_in_month(year, month)
}

/// Whether the triple names a second of the day.
pub open spec fn is_time_of_day(hour: int, minute: int, second: int) -> bool {
    0 <= hour < 24 && 0 <= minute < 60 && 0 <= second < 60
}

/// The days from 1970-01-01 to the first day of `year`: 365 for each year
/// since year 1, one more for each leap year among them, less the 719162 days
/// from the first day of year 1 to 1970-01-01.
pub open spec fn days_before_year(year: int) -> int {
    let past = year - 1;
    365 * past + past / 4 - past / 100 + past / 400 - 719_162
}

/// The days of `year` that lie before the first day of `month`.
pub open spec fn days_before_month(year: int, month: int) -> int
    decreases month,
{
    if month <= 1 {
        0
    } else {
        days_before_month(year, month - 1) + days_in_month(year, month - 1)
    }
}

/// The seconds from 1970-01-01T00:00:00Z to the UTC midnight at which the
/// calendar day begins.
pub open spec fn utc_midnight_seconds(year: int, month: int, day: int) -> int {
    SECONDS_PER_DAY * (days_before_year(year) + days_before_month(year, month) + day - 1)
}

/// The seconds from 1970-01-01T00:00:00Z to the time that a clock set to UTC
/// shows as the given date and time of day.
pub open spec fn wall_clock_seconds(
    year: int,
    month: int,
    day: int,
    hour: int,
    minute: int,
    second: int,
) -> int {
    utc_midnight_seconds(year, month, day) + 3600 * hour + 60 * minute + second
}

/// Whether the instant falls on a whole second, less than a day before or
/// after `wall`: no zone's clock is a day or more off UTC.
pub open spec fn within_a_day_of(at: UtcInstant, wall: int) -> bool {
    at.nanos == 0 && wall - SECONDS_PER_DAY < at.seconds < wall + SECONDS_PER_DAY
}

/// Whether every instant that the resolution names lies within a day of `wall`.
pub open spec fn resolves_near(resolution: LocalResolution, wall: int) -> bool {
    match resolution {
        LocalResolution::Single(at) => within_a_day_of(at, wall),
        LocalResolution::Ambiguous(first, second) => within_a_day_of(first, wall)
            && within_a_day_of(second, wall),
        LocalResolution::Missing => true,
    }
}

/// Whether `year` is a leap year of the proleptic Gregorian calendar.
pub fn is_leap(year: i32) -> (leap: bool)
    ensures
        leap == is_leap_year(year as int),
{
    // A multiple of 400 years later the calendar repeats, and the year is not negative.
    let shifted: i64 = year as i64 + 2_400_000_000;
    proof {
        lemma_mod_multiples_vanish(600_000_000, year as int, 4);
        lemma_mod_multiples_vanish(24_000_000, year as int, 100);
        lemma_mod_multiples_vanish(6_000_000, year as int, 400);
    }
    shifted % 4 == 0 && (shifted % 100 != 0 || shifted % 400 == 0)
}

/// Whether the triple names a day of the proleptic Gregorian calendar.
pub fn is_calendar_day(year: i32, month: u32, day: u32) -> (valid: bool)
    ensures
        valid == is_calendar_date(year as int, month as int, day as int),
{
    let days: u32 = if month == 2 {
        if is_leap(year) { 29 } else { 28 }
    } else if month == 4 || month == 6 || month == 9 || month == 11 {
        30
    } else if 1 <= month && month <= 12 {
        31
    } else {
        0
    };
    1 <= day && day <= days
}

/// The seconds from 1970-01-01T00:00:00Z to the UTC midnight at which the
/// calendar day begins; nothing where the triple names no calendar day.
pub fn utc_midnight(year: i32, month: u32, day: u32) -> (seconds: Option<i64>)
    ensures
        seconds is Some <==> is_calendar_date(year as int, month as int, day as int),
        seconds is Some ==> seconds->Some_0 == utc_midnight_seconds(
            year as int,
            month as int,
            day as int,
        ),
{
    if !is_calendar_day(year, month, day) {
        return None;
    }
    let past: i64 = year as i64 - 1;
    // A multiple of 400 years is added before dividing, so that no dividend is negative.
    let shifted: i64 = past + 2_400_000_000;
    let fourth: i64 = shifted / 4 - 600_000_000;
    let hundredth: i64 = shifted / 100 - 24_000_000;
    let four_hundredth: i64 = shifted / 400 - 6_000_000;
    proof {
        lemma_hoist_over_denominator(past as int, 600_000_000, 4);
        lemma_hoist_over_denominator(past as int, 24_000_000, 100);
        lemma_hoist_over_denominator(past as int, 6_000_000, 400);
        assert(fourth == (past as int) / 4);
        assert(hundredth == (past as int) / 100);
        assert(four_hundredth == (past as int) / 400);
    }
    let before_year: i64 = 365 * past + fourth - hundredth + four_hundredth - 719_162;
    let leap_day: i64 = if month > 2 && is_leap(year) { 1 } else { 0 };
    let before_month: i64 = if month == 1 {
        0
    } else if month == 2 {
        31
    } else if month == 3 {
        59
    } else if month == 4 {
        90
    } else if month == 5 {
        120
    } else if month == 6 {
        151
    } else if month == 7 {
        181
    } else if month == 8 {
        212
    } else if month == 9 {
        243
    } else if month == 10 {
        273
    } else if month == 11 {
        304
    } else {
        334
    };
    proof {
        reveal_with_fuel(days_before_month, 13);
        assert(before_month + leap_day == days_before_month(year as int, month as int));
    }
    Some(SECONDS_PER_DAY * (before_year + before_month + leap_day + (day as i64 - 1)))
}

/// The message for a local date that occurs twice.
pub open spec fn ambiguous_message() -> Seq<char> {
    "Given date was ambiguous"@
}

/// The message for a local date that does not exist.
pub open spec fn invalid_message() -> Seq<char> {
    "Given date was invalid"@
}

/// The instant that a resolution stands for, or the reason why it stands for none.
pub open spec fn resolved(resolution: LocalResolution) -> Result<UtcInstant, Seq<char>> {
    match resolution {
        LocalResolution::Single(at) => Ok(at),
        LocalResolution::Ambiguous(_, _) => Err(ambiguous_message()),
        LocalResolution::Missing => Err(invalid_message()),
    }
}

/// Whether `result` is `expected`, the error taken by its characters.
pub open spec fn matches_resolved(
    result: Result<UtcInstant, String>,
    expected: Result<UtcInstant, Seq<char>>,
) -> bool {
    match (result, expected) {
        (Ok(a), Ok(b)) => a == b,
        (Err(e), Err(m)) => e@ == m,
        _ => false,
    }
}

/// Accepts a resolution only where it names exactly one instant: an
/// ambiguous or missing local time is an error, never a silent choice.
pub fn require_single(resolution: LocalResolution) -> (result: Result<UtcInstant, String>)
    ensures
        matches_resolved(result, resolved(resolution)),
{
    match resolution {
        LocalResolution::Single(at) => Ok(at),
        LocalResolution::Ambiguous(_, _) => Err(String::from_str("Given date was ambiguous")),
        LocalResolution::Missing => Err(String::from_str("Given date was invalid")),
    }
}

/// The local time zone's reading of a date and time of day.
///
/// Trusted: the body calls chrono's `TimeZone::with_ymd_and_hms` on `Local`
/// and hands each instant over as its UTC timestamp (`DateTime::timestamp`
/// and `DateTime::timestamp_subsec_nanos`). The answer depends on the
/// machine's time zone, so the contract states only what chrono gives in
/// every zone. A date that the calendar lacks, or a time that the day lacks,
/// maps to no instant. An instant that is named is the wall-clock time less
/// the zone's offset from UTC, which chrono keeps in whole seconds and
/// strictly within a day.
#[verifier::external_body]
fn local_date_time(
    year: i32,
    month: u32,
    day: u32,
    hour: u32,
    minute: u32,
    second: u32,
) -> (resolution: LocalResolution)
    ensures
        !is_calendar_date(year as int, month as int, day as int) ==> resolution
            == LocalResolution::Missing,
        !is_time_of_day(hour as int, minute as int, second as int) ==> resolution
            == LocalResolution::Missing,
        resolves_near(
            resolution,
            wall_clock_seconds(
                year as int,
                month as int,
                day as int,
                hour as int,
                minute as int,
                second as int,
            ),
        ),
{
    match chrono::Local.with_ymd_and_hms(year, month, day, hour, minute, second) {
        chrono::LocalResult::Single(t) => LocalResolution::Single(
            UtcInstant { seconds: t.timestamp(), nanos: t.timestamp_subsec_nanos() },
        ),
        chrono::LocalResult::Ambiguous(a, b) => LocalResolution::Ambiguous(
            UtcInstant { seconds: a.timestamp(), nanos: a.timestamp_subsec_nanos() },
            UtcInstant { seconds: b.timestamp(), nanos: b.timestamp_subsec_nanos() },
        ),
        chrono::LocalResult::None => LocalResolution::Missing,
    }
}

/// The present moment.
///
/// Trusted: the body reads the system clock with std's `SystemTime::now` and
/// has chrono turn the reading into a UTC date and time
/// (`From<SystemTime> for DateTime<Utc>`), which it hands over as its UTC
/// timestamp. A clock that reads a time before 1970 is converted like any
/// other; chrono keeps the reading as a date, and its dates reach some 262
/// thousand years either side of year 0. Nothing is promised of the value: it
/// is the system clock's.
#[verifier::external_body]
pub(crate) fn utc_now() -> (now: UtcInstant) {
    let t = chrono::DateTime::<chrono::Utc>::from(std::time::SystemTime::now());
    UtcInstant { seconds: t.timestamp(), nanos: t.timestamp_subsec_nanos() }
}

/// Converts midnight at the start of a calendar day of the local time zone to
/// the instant it names.
///
/// The date is accepted only where it names exactly one instant. Which dates
/// do depends on the local time zone. Whatever the zone, the outcome is that
/// of [`require_single`] on the zone's answer for the time 00:00:00. An
/// instant that comes out falls on a whole second, less than a day from the
/// UTC midnight of the same date. A triple that names no calendar day is
/// refused as invalid.
pub fn convert_ymd_to_utc_ymd_hms(year: i32, month: u32, day: u32) -> (result: Result<
    UtcInstant,
    String,
>)
    ensures
        match result {
            Ok(at) => {
                &&& is_calendar_date(year as int, month as int, day as int)
                &&& within_a_day_of(
                    at,
                    utc_midnight_seconds(year as int, month as int, day as int),
                )
            },
            Err(message) => message@ == ambiguous_message() || message@ == invalid_message(),
        },
        !is_calendar_date(year as int, month as int, day as int) ==> matches_resolved(
            result,
            Err(invalid_message()),
        ),
{
    let resolution = local_date_time(year, month, day, 0, 0, 0);
    require_single(resolution)
}

} // verus!
