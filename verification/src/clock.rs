//! Instants in time, and the time that has passed from one to another.
//!
//! An instant is a pair: whole seconds since the Unix epoch, which count no
//! leap second, and nanoseconds past that second. An instant within a leap
//! second stands at the second before it, with nanoseconds that run on past
//! one second. The time between two instants counts such a leap second
//! where it lies between them by their times of day.

use vstd::arithmetic::div_mod::lemma_mod_multiples_vanish;
use vstd::prelude::*;

verus! {

/// Nanoseconds in a second.
pub const NANOS_PER_SECOND: i128 = 1_000_000_000;

/// The instant that a text denotes when read as an RFC 3339 date and time,
/// or `None` if it is not one.
pub uninterp spec fn rfc3339_instant(text: Seq<char>) -> Option<(i64, u32)>;

/// Reads an RFC 3339 date and time with `chrono::DateTime::parse_from_rfc3339`
/// and hands out its `timestamp` and `timestamp_subsec_nanos`.
///
/// Trusted: that the outcome is a function of the text alone, by the name
/// [`rfc3339_instant`]. Nothing is claimed of which texts are accepted.
#[verifier::external_body]
pub(crate) fn parse_rfc3339(text: &str) -> (instant: Option<(i64, u32)>)
    ensures
        instant == rfc3339_instant(text@),
{
    match chrono::DateTime::parse_from_rfc3339(text) {
        Ok(parsed) => Some((parsed.timestamp(), parsed.timestamp_subsec_nanos())),
        Err(_) => None,
    }
}

/// Reads the system clock with `chrono::Utc::now` and hands out its
/// `timestamp` and `timestamp_subsec_nanos`.
///
/// Trusted: nothing; every instant is a possible outcome.
#[verifier::external_body]
pub(crate) fn utc_now() -> (instant: (i64, u32)) {
    let now = chrono::Utc::now();
    (now.timestamp(), now.timestamp_subsec_nanos())
}

/// Reads the system clock with `chrono::Utc::now` and writes it out with
/// `to_rfc3339`.
///
/// Trusted: nothing; every text is a possible outcome.
#[verifier::external_body]
pub(crate) fn utc_now_rfc3339() -> (text: String) {
    chrono::Utc::now().to_rfc3339()
}

/// An instant as nanoseconds since the epoch.
pub open spec fn instant_nanos(instant: (i64, u32)) -> int {
    instant.0 as int * 1_000_000_000 + instant.1 as int
}

/// Seconds in a day.
pub const SECONDS_PER_DAY: u128 = 86_400;

/// The second of its day at which an instant stands.
pub open spec fn second_of_day(instant: (i64, u32)) -> int {
    instant.0 as int % 86_400
}

/// Whether an instant lies within a leap second.
pub open spec fn in_leap_second(instant: (i64, u32)) -> bool {
    instant.1 >= 1_000_000_000
}

/// The leap second to count between two instants: one more where the
/// earlier time of day lies within a leap second, one less where the later
/// one does, seen from `now`.
pub open spec fn leap_second_between(now: (i64, u32), seen: (i64, u32)) -> int {
    if second_of_day(now) > second_of_day(seen) && in_leap_second(seen) {
        1
    } else if second_of_day(now) < second_of_day(seen) && in_leap_second(now) {
        -1
    } else {
        0
    }
}

/// The nanoseconds that have passed at `now` since `seen`. Negative if
/// `seen` lies in the future.
pub open spec fn elapsed_nanos(now: (i64, u32), seen: (i64, u32)) -> int {
    instant_nanos(now) - instant_nanos(seen) + leap_second_between(now, seen) * 1_000_000_000
}

/// The second of its day at which a second since the epoch stands.
fn day_second(seconds: i64) -> (second: u128)
    ensures
        second == seconds as int % 86_400,
{
    let days_before: i128 = 106_751_991_167_301;
    let shifted: i128 = seconds as i128 + days_before * 86_400;
    proof {
        lemma_mod_multiples_vanish(days_before as int, seconds as int, 86_400);
    }
    shifted as u128 % SECONDS_PER_DAY
}

/// Whether no more than `timeout_seconds` have passed at `now` since
/// `seen`.
pub fn is_no_older_than(now: (i64, u32), seen: (i64, u32), timeout_seconds: u64) -> (within: bool)
    ensures
        within == (elapsed_nanos(now, seen) <= timeout_seconds * 1_000_000_000),
{
    let now_second = day_second(now.0);
    let seen_second = day_second(seen.0);
    let leap: i128 = if now_second > seen_second && seen.1 >= 1_000_000_000 {
        1
    } else if now_second < seen_second && now.1 >= 1_000_000_000 {
        -1
    } else {
        0
    };
    let seconds: i128 = now.0 as i128 - seen.0 as i128 + leap;
    let nanos: i128 = now.1 as i128 - seen.1 as i128;
    let span: i128 = seconds * NANOS_PER_SECOND + nanos;
    assert(span == elapsed_nanos(now, seen));
    span <= timeout_seconds as i128 * NANOS_PER_SECOND
}

} // verus!
