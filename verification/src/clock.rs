//! The wall clock and a monotonic clock, read as whole nanoseconds.

use vstd::prelude::*;

verus! {

/// A moment in time: nanoseconds since the Unix epoch.
pub type Time = i128;

pub const SECOND: i128 = 1_000_000_000;

pub const MINUTE: i128 = 60_000_000_000;

pub const HOUR: i128 = 3_600_000_000_000;

pub const DAY: i128 = 86_400_000_000_000;

/// The first moment of the calendar that the wall clock is read with: the
/// start of the year -262143.
pub const TIME_MIN: i128 = -8_334_601_228_800_000_000_000;

/// The last moment of that calendar: the end of the year 262142.
pub const TIME_MAX: i128 = 8_210_266_876_799_999_999_999;

/// `chrono::Utc::now`, as whole seconds since the Unix epoch and nanoseconds
/// within the second. The clock is read as a duration since the epoch, so the
/// seconds are not negative and the nanoseconds stay below one second; the
/// calendar of chrono ends with the year 262142. Nothing else is claimed of
/// what the clock shows.
#[verifier::external_body]
fn utc_now_parts() -> (r: (i64, u32))
    ensures
        0 <= r.0 <= 8_210_266_876_799,
        r.1 < 1_000_000_000,
{
    let now = chrono::Utc::now();
    (now.timestamp(), now.timestamp_subsec_nanos())
}

/// The wall clock was read, and `t` is what it may have shown.
pub closed spec fn wall_clock_shows(t: Time) -> bool {
    exists|parts: (i64, u32)| #[trigger]
        call_ensures(crate::clock::utc_now_parts, (), parts) && t == parts.0 * SECOND + parts.1
}

/// The moment that the wall clock shows.
pub fn utc_now() -> (r: Time)
    ensures
        0 <= r <= TIME_MAX,
        wall_clock_shows(r),
{
    let parts = utc_now_parts();
    parts.0 as i128 * SECOND + parts.1 as i128
}

/// The whole seconds of a moment, since the Unix epoch.
pub fn whole_seconds(t: Time) -> (r: i64)
    requires
        TIME_MIN <= t <= TIME_MAX,
    ensures
        r == t as int / SECOND as int,
{
    if t >= 0 {
        (t / SECOND) as i64
    } else {
        let up: i128 = (-t + SECOND - 1) / SECOND;
        proof {
            let n = -(t as int);
            let s = SECOND as int;
            vstd::arithmetic::div_mod::lemma_fundamental_div_mod(n + s - 1, s);
            vstd::arithmetic::div_mod::lemma_fundamental_div_mod_converse(
                t as int,
                s,
                -(up as int),
                t as int + up * s,
            );
        }
        (-up) as i64
    }
}

/// A leap year of the Gregorian calendar.
pub open spec fn is_leap_year(year: int) -> bool {
    year % 4 == 0 && (year % 100 != 0 || year % 400 == 0)
}

/// The days of a month, January being month 0.
pub open spec fn month_length(year: int, month: nat) -> int {
    if month == 1 {
        if is_leap_year(year) {
            29
        } else {
            28
        }
    } else if month == 3 || month == 5 || month == 8 || month == 10 {
        30
    } else {
        31
    }
}

/// The days of a year before a month.
pub open spec fn days_before_month(year: int, month: nat) -> int
    decreases month,
{
    if month == 0 {
        0
    } else {
        days_before_month(year, (month - 1) as nat) + month_length(year, (month - 1) as nat)
    }
}

/// The days from the start of the year 1 to the start of a year: 365 for each year
/// between, and one for each leap year.
pub open spec fn days_before_year(year: int) -> int {
    365 * (year - 1) + (year - 1) / 4 - (year - 1) / 100 + (year - 1) / 400
}

/// The day, counted from the first of January 1970, is one of a month, from 0 for
/// January to 11 for December, of some year.
pub open spec fn falls_in_month(day: int, month: nat) -> bool {
    month < 12 && exists|year: int| #[trigger] is_day_of(day, year, month)
}

/// The day, counted from the first of January 1970, is one of a month of a year.
pub open spec fn is_day_of(day: int, year: int, month: nat) -> bool {
    0 <= day - (days_before_year(year) - days_before_year(1970) + days_before_month(year, month))
        < month_length(year, month)
}

/// The month of a day, counted from the first of January 1970.
pub open spec fn month0_of_day(day: int) -> nat {
    choose|month: nat| #[trigger] falls_in_month(day, month)
}

/// The month of a moment, from 0 for January to 11 for December, by the
/// seconds since the Unix epoch.
pub open spec fn month0_at(secs: int) -> nat {
    month0_of_day(secs / 86_400)
}

proof fn lemma_year_length(year: int)
    ensures
        days_before_month(year, 12) == if is_leap_year(year) {
            366int
        } else {
            365
        },
        days_before_year(year + 1) == days_before_year(year) + days_before_month(year, 12),
{
    reveal_with_fuel(days_before_month, 13);
}

proof fn lemma_years_in_order(earlier: int, later: int)
    requires
        earlier < later,
    ensures
        days_before_year(earlier) + days_before_month(earlier, 12) <= days_before_year(later),
    decreases later - earlier,
{
    lemma_year_length(earlier);
    if earlier + 1 < later {
        lemma_year_length(earlier + 1);
        lemma_years_in_order(earlier + 1, later);
    }
}

proof fn lemma_months_in_order(year: int, earlier: nat, later: nat)
    requires
        earlier < later,
    ensures
        days_before_month(year, earlier) + month_length(year, earlier) <= days_before_month(
            year,
            later,
        ),
    decreases later,
{
    if earlier + 1 < later {
        lemma_months_in_order(year, earlier, (later - 1) as nat);
    }
}

/// A day falls in one month only.
pub proof fn days_fall_in_one_month(day: int, a: nat, b: nat)
    requires
        falls_in_month(day, a),
        falls_in_month(day, b),
    ensures
        a == b,
{
    let year_a = choose|year: int| #[trigger] is_day_of(day, year, a);
    let year_b = choose|year: int| #[trigger] is_day_of(day, year, b);
    lemma_months_in_order(year_a, a, 12);
    lemma_months_in_order(year_b, b, 12);
    lemma_months_not_negative(year_a, a);
    lemma_months_not_negative(year_b, b);
    if year_a < year_b {
        lemma_years_in_order(year_a, year_b);
    } else if year_b < year_a {
        lemma_years_in_order(year_b, year_a);
    } else if a < b {
        lemma_months_in_order(year_a, a, b);
    } else if b < a {
        lemma_months_in_order(year_a, b, a);
    }
}

proof fn lemma_months_not_negative(year: int, month: nat)
    ensures
        days_before_month(year, month) >= 0,
    decreases month,
{
    if month > 0 {
        lemma_months_not_negative(year, (month - 1) as nat);
    }
}

/// `chrono::Timelike::hour` of a moment in UTC: the hours that have passed of
/// its day.
#[verifier::external_body]
fn hour_of(secs: i64) -> (r: u32)
    requires
        -8_334_601_228_800 <= secs <= 8_210_266_876_799,
    ensures
        r == (secs as int % 86_400) / 3_600,
{
    chrono::Timelike::hour(&chrono::DateTime::from_timestamp(secs, 0).unwrap())
}

/// `chrono::Weekday::num_days_from_monday` of the weekday of a moment in UTC.
/// The epoch was a Thursday.
#[verifier::external_body]
fn weekday_of(secs: i64) -> (r: u32)
    requires
        -8_334_601_228_800 <= secs <= 8_210_266_876_799,
    ensures
        r == (secs as int / 86_400 + 3) % 7,
{
    chrono::Datelike::weekday(&chrono::DateTime::from_timestamp(secs, 0).unwrap()).num_days_from_monday()
}

/// `chrono::Datelike::month0` of a moment in UTC: the month of its day in the
/// proleptic Gregorian calendar.
#[verifier::external_body]
fn month_of(secs: i64) -> (r: u32)
    requires
        -8_334_601_228_800 <= secs <= 8_210_266_876_799,
    ensures
        falls_in_month(secs as int / 86_400, r as nat),
{
    chrono::Datelike::month0(&chrono::DateTime::from_timestamp(secs, 0).unwrap())
}

/// The hour of a moment in UTC.
pub fn hour_of_day(t: Time) -> (r: u32)
    requires
        TIME_MIN <= t <= TIME_MAX,
    ensures
        r == ((t as int / SECOND as int) % 86_400) / 3_600,
        r < 24,
{
    hour_of(whole_seconds(t))
}

/// The weekday of a moment in UTC, from 0 for Monday.
pub fn day_of_week(t: Time) -> (r: u32)
    requires
        TIME_MIN <= t <= TIME_MAX,
    ensures
        r == ((t as int / SECOND as int) / 86_400 + 3) % 7,
        r < 7,
{
    weekday_of(whole_seconds(t))
}

/// The month of a moment in UTC, from 0 for January.
pub fn month_of_year(t: Time) -> (r: u32)
    requires
        TIME_MIN <= t <= TIME_MAX,
    ensures
        r == month0_at(t as int / SECOND as int),
        r < 12,
{
    let secs = whole_seconds(t);
    let month = month_of(secs);
    proof {
        let day = secs as int / 86_400;
        days_fall_in_one_month(day, month as nat, month0_at(secs as int));
    }
    month
}

/// A reading of the monotonic clock.
#[verifier::external_type_specification]
#[verifier::external_body]
pub struct ExInstant(std::time::Instant);

/// `std::time::Instant::now`: a reading of the monotonic clock.
#[verifier::external_body]
pub(crate) fn monotonic_now() -> (r: std::time::Instant) {
    std::time::Instant::now()
}

/// `std::time::Instant::elapsed`, in nanoseconds. A duration holds a `u64` of
/// seconds and less than a second of nanoseconds, which bounds the result.
#[verifier::external_body]
fn elapsed_nanos(origin: &std::time::Instant) -> (r: u128)
    ensures
        r < 18_446_744_073_709_551_616_000_000_000,
{
    origin.elapsed().as_nanos()
}

/// The steady clock was read, and `nanos` is what may have passed since `origin`.
pub closed spec fn steady_clock_shows(origin: std::time::Instant, nanos: u128) -> bool {
    call_ensures(crate::clock::elapsed_nanos, (&origin,), nanos)
}

/// The nanoseconds since `origin`.
pub(crate) fn nanos_since(origin: &std::time::Instant) -> (r: u128)
    ensures
        r < 18_446_744_073_709_551_616_000_000_000,
        steady_clock_shows(*origin, r),
{
    elapsed_nanos(origin)
}

} // verus!
