use vstd::prelude::*;

use std::time::Duration;
use std::time::Instant;

verus! {

/// `std::time::Instant`, a reading of the monotonic clock; opaque to the
/// library.
#[verifier::external_type_specification]
#[verifier::external_body]
pub struct ExInstant(Instant);

/// Relies on `Instant::now` to read the monotonic clock. Nothing is known of
/// the reading.
pub assume_specification[ Instant::now ]() -> Instant;

/// Relies on `Instant::elapsed` for the time passed since a reading. Nothing
/// is known of the duration: it depends on the machine and the moment.
pub assume_specification[ Instant::elapsed ](start: &Instant) -> Duration;

/// Relies on `Duration::as_nanos` for a duration in whole nanoseconds.
pub assume_specification[ Duration::as_nanos ](d: &Duration) -> u128;

/// Nanoseconds passed since `start`, saturated at `u64::MAX`.
pub fn nanos_since(start: &Instant) -> u64 {
    let nanos = start.elapsed().as_nanos();
    if nanos > u64::MAX as u128 {
        u64::MAX
    } else {
        nanos as u64
    }
}

} // verus!
