//! The monotonic clock, as std keeps it: the points and spans of time that
//! the rate limiter and the status bar read.

use vstd::prelude::*;

use std::time::{Duration, Instant};

verus! {

/// A point on the monotonic clock, as std keeps it.
#[verifier::external_type_specification]
#[verifier::external_body]
pub struct ExInstant(Instant);

/// The current instant of the monotonic clock (`Instant::now`); nothing is
/// claimed of the value.
#[verifier::external_body]
pub(crate) fn instant_now() -> Instant {
    Instant::now()
}

/// The time that has passed since `origin` (`Instant::elapsed`); nothing is
/// claimed of the value.
#[verifier::external_body]
pub(crate) fn elapsed_since(origin: &Instant) -> Duration {
    origin.elapsed()
}

/// A duration in whole nanoseconds (`Duration::as_nanos`); the type is
/// opaque here, so nothing is claimed of the value.
#[verifier::external_body]
pub(crate) fn duration_nanos(d: &Duration) -> u128 {
    d.as_nanos()
}

/// A duration in whole seconds (`Duration::as_secs`); the type is opaque
/// here, so nothing is claimed of the value.
#[verifier::external_body]
pub(crate) fn duration_secs(d: &Duration) -> u64 {
    d.as_secs()
}

} // verus!
