//! The monotonic clock and lengths of time.

use vstd::prelude::*;

verus! {

/// `std::time::Instant`, held as a value that only its own functions look into.
#[verifier::external_type_specification]
#[verifier::external_body]
pub struct ExInstant(std::time::Instant);

/// The length of a `Duration` in nanoseconds.
pub uninterp spec fn duration_nanos(d: std::time::Duration) -> nat;

/// Reads the monotonic clock.
///
/// Wraps `Instant::now`. Nothing is promised of the reading.
#[verifier::external_body]
pub(crate) fn instant_now() -> std::time::Instant {
    std::time::Instant::now()
}

/// The time that has passed since `origin` was read.
///
/// Wraps `Instant::elapsed`. Nothing is promised of the result: it depends
/// on when the call is made.
#[verifier::external_body]
pub(crate) fn instant_elapsed(origin: &std::time::Instant) -> std::time::Duration {
    origin.elapsed()
}

/// Wraps `Duration::as_nanos`: the whole length in nanoseconds.
#[verifier::external_body]
pub(crate) fn duration_as_nanos(d: &std::time::Duration) -> (n: u128)
    ensures
        n == duration_nanos(*d),
{
    d.as_nanos()
}

/// Wraps `Duration::from_secs`: a length of `secs` whole seconds.
#[verifier::external_body]
pub(crate) fn duration_from_secs(secs: u64) -> (d: std::time::Duration)
    ensures
        duration_nanos(d) == secs * 1_000_000_000,
{
    std::time::Duration::from_secs(secs)
}

} // verus!
