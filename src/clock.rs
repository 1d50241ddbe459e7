//! The monotonic clock that the store reads. Nothing is known of the
//! instants it returns: the store's contracts hold whatever time it gives.
use vstd::prelude::*;
use std::time::{Duration, Instant};

verus! {

/// The instants of the monotonic clock, opaque to proofs.
#[verifier::external_type_specification]
#[verifier::external_body]
pub struct ExInstant(Instant);

/// Relies on `std::time::Instant::now`: the current instant of the
/// monotonic clock.
#[verifier::external_body]
pub(crate) fn start_clock() -> Instant {
    Instant::now()
}

/// Relies on `std::time::Instant::elapsed`: the time that has passed since
/// `origin`.
#[verifier::external_body]
pub(crate) fn elapsed_since(origin: &Instant) -> Duration {
    origin.elapsed()
}

/// Relies on `std::time::Duration::as_millis`: the whole milliseconds in `d`.
#[verifier::external_body]
pub(crate) fn whole_millis(d: &Duration) -> u128 {
    d.as_millis()
}

/// The whole milliseconds since `origin`, held at `u64::MAX`.
pub(crate) fn millis_since(origin: &Instant) -> u64 {
    let ms = whole_millis(&elapsed_since(origin));
    if ms > u64::MAX as u128 {
        u64::MAX
    } else {
        ms as u64
    }
}

} // verus!
