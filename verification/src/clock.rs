//! The monotonic clock.
//!
//! What the clock says is never promised: every decision that depends on it is made by a
//! function that takes the reading as an argument.

use std::time::{Duration, Instant};

use vstd::prelude::*;

verus! {

/// `std::time::Instant`, carried through unread.
#[verifier::external_type_specification]
#[verifier::external_body]
pub struct ExInstant(std::time::Instant);

/// `Instant` is `Copy`: a clone is the same instant.
pub assume_specification[ <std::time::Instant as Clone>::clone ](t: &std::time::Instant) -> (r:
    std::time::Instant)
    ensures
        r == *t,
;

/// `Instant::now`.
#[verifier::external_body]
pub(crate) fn now() -> Instant {
    Instant::now()
}

/// The time from `start` to `end`, as `Instant::saturating_duration_since` has it: none at all
/// where `end` is the earlier one.
pub uninterp spec fn duration_between(start: Instant, end: Instant) -> Duration;

/// `Instant::saturating_duration_since`: it depends on the two instants alone.
#[verifier::external_body]
fn time_between(start: &Instant, end: &Instant) -> (d: Duration)
    ensures
        d == duration_between(*start, *end),
{
    end.saturating_duration_since(*start)
}

/// The whole milliseconds in a duration, as `Duration::as_millis` counts them.
pub uninterp spec fn whole_millis(d: Duration) -> u128;

/// `Duration::as_millis`: it depends on the duration alone.
#[verifier::external_body]
fn millis_in(d: &Duration) -> (ms: u128)
    ensures
        ms == whole_millis(*d),
{
    d.as_millis()
}

/// The whole milliseconds from `start` to `end`; of a number that is too large for 64 bits, the
/// low ones.
pub open spec fn millis_between(start: Instant, end: Instant) -> u64 {
    whole_millis(duration_between(start, end)) as u64
}

/// Whether `ms` is how long ago `start` was at some reading of the clock.
pub open spec fn elapsed_reading(start: Instant, ms: u64) -> bool {
    exists|end: Instant| ms == #[trigger] millis_between(start, end)
}

/// The whole milliseconds from `start` to `end`.
pub(crate) fn millis_until(start: &Instant, end: &Instant) -> (ms: u64)
    ensures
        ms == millis_between(*start, *end),
{
    let d = time_between(start, end);
    millis_in(&d) as u64
}

/// How long ago `start` was, in whole milliseconds.
pub(crate) fn millis_since(start: &Instant) -> (ms: u64)
    ensures
        elapsed_reading(*start, ms),
{
    let end = now();
    millis_until(start, &end)
}

/// The duration of `secs` seconds, as `Duration::from_secs` makes it.
pub uninterp spec fn duration_of_secs(secs: u64) -> Duration;

/// `Duration::from_secs`: the same number of seconds always gives the same duration.
#[verifier::external_body]
pub(crate) fn seconds(secs: u64) -> (d: Duration)
    ensures
        d == duration_of_secs(secs),
{
    Duration::from_secs(secs)
}

/// A reading of the clock says how many whole milliseconds lie between a start and some end, and
/// nothing else is one.
pub proof fn readings_are_durations(start: Instant, end: Instant, ms: u64)
    ensures
        millis_between(start, end) == whole_millis(duration_between(start, end)) as u64,
        elapsed_reading(start, millis_between(start, end)),
        elapsed_reading(start, ms) ==> exists|e: Instant| ms == #[trigger] millis_between(start, e),
{
}

} // verus!
