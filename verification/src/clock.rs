//! Monotonic time for the budget trackers: what the trackers read from
//! `std::time` and what is known of it.
use vstd::prelude::*;
use std::time::{Duration, Instant};

verus! {

#[verifier::external_type_specification]
#[verifier::external_body]
pub struct ExInstant(Instant);

/// The whole number of nanoseconds of a duration, as `Duration::as_nanos`
/// reports it.
pub uninterp spec fn duration_nanos(d: Duration) -> u128;

/// `Duration::as_nanos`: the total number of nanoseconds.
#[verifier::external_body]
pub fn duration_as_nanos(d: Duration) -> (r: u128)
    ensures
        r == duration_nanos(d),
{
    d.as_nanos()
}

/// `Duration::from_millis`: a duration of `ms` milliseconds.
#[verifier::external_body]
pub fn duration_from_millis(ms: u64) -> (r: Duration)
    ensures
        duration_nanos(r) == ms as int * 1_000_000,
{
    Duration::from_millis(ms)
}

/// `Duration::from_secs`: a duration of `secs` seconds.
#[verifier::external_body]
pub fn duration_from_secs(secs: u64) -> (r: Duration)
    ensures
        duration_nanos(r) == secs as int * 1_000_000_000,
{
    Duration::from_secs(secs)
}

/// `Duration::saturating_sub`: `a - b`, or zero when `b` is longer.
#[verifier::external_body]
pub fn duration_saturating_sub(a: Duration, b: Duration) -> (r: Duration)
    ensures
        duration_nanos(r) == if duration_nanos(a) >= duration_nanos(b) {
            duration_nanos(a) - duration_nanos(b)
        } else {
            0
        },
{
    a.saturating_sub(b)
}

/// `Instant::now`: the current instant of the monotonic clock.
#[verifier::external_body]
pub fn instant_now() -> (r: Instant) {
    Instant::now()
}

/// `Instant::elapsed`: the time since `started`; it depends on the clock,
/// so nothing is claimed of its value.
#[verifier::external_body]
pub fn instant_elapsed(started: &Instant) -> (r: Duration) {
    started.elapsed()
}

} // verus!
