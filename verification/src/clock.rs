//! Wall-clock readings for the time limit of a run.

use web_time::{Duration, Instant};
use vstd::prelude::*;

verus! {

/// `web_time::Instant`, a reading of the monotonic clock (std's own
/// `Instant` wherever std has a clock): carried through as it is, nothing
/// is known of what it holds.
#[verifier::external_type_specification]
#[verifier::external_body]
pub struct ExInstant(web_time::Instant);

/// The current instant, by `web_time::Instant::now`.
#[verifier::external_body]
pub(crate) fn now() -> (instant: Instant) {
    Instant::now()
}

/// The time that has passed since `start`, by
/// `web_time::Instant::elapsed`.
#[verifier::external_body]
pub(crate) fn elapsed_since(start: &Instant) -> (elapsed: Duration) {
    start.elapsed()
}

/// Whether a time of `elapsed` has reached the limit `limit`: what the
/// `>=` of `Duration` says of the two.
pub uninterp spec fn limit_reached(elapsed: Duration, limit: Duration) -> bool;

/// What is left of the limit `limit` after a time of `elapsed`: what
/// `Duration::saturating_sub` makes of the two.
pub uninterp spec fn time_left(limit: Duration, elapsed: Duration) -> Duration;

/// Whether `elapsed` has reached `limit`, by the `>=` of `Duration`, which
/// depends on the two durations alone.
#[verifier::external_body]
pub(crate) fn reached(elapsed: &Duration, limit: &Duration) -> (over: bool)
    ensures
        over == limit_reached(*elapsed, *limit),
{
    elapsed >= limit
}

/// What is left of `limit` after `elapsed`, zero if nothing is, by
/// `Duration::saturating_sub`, which depends on the two durations alone.
#[verifier::external_body]
pub(crate) fn remaining(limit: &Duration, elapsed: &Duration) -> (left: Duration)
    ensures
        left == time_left(*limit, *elapsed),
{
    limit.saturating_sub(*elapsed)
}

} // verus!
