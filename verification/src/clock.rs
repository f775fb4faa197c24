//! Readings of the monotonic clock.
use std::time::Instant;
use vstd::prelude::*;

verus! {

/// A reading of the monotonic clock. Nothing is known of what it holds.
#[verifier::external_type_specification]
#[verifier::external_body]
pub struct ExInstant(std::time::Instant);

/// `std::time::Instant::now` reads the clock. Nothing is claimed of the reading.
pub assume_specification[ std::time::Instant::now ]() -> Instant;

/// Calls `std::time::Instant::elapsed` and gives the duration in nanoseconds.
/// Nothing is claimed of the number: it depends on the moment of the call.
#[verifier::external_body]
pub(crate) fn nanos_since(epoch: &Instant) -> (nanos: u128)
{
    epoch.elapsed().as_nanos()
}

} // verus!
