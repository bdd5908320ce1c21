//! Wall-clock measurement of a walk's elapsed time. The reading is advisory
//! only: no contract in this library depends on it.

use vstd::prelude::*;

verus! {

#[verifier::external_type_specification]
#[verifier::external_body]
pub struct ExInstant(std::time::Instant);

/// Relies on `std::time::Instant::now`. Nothing can be promised of a clock
/// reading.
pub assume_specification[ std::time::Instant::now ]() -> std::time::Instant;

/// Relies on `std::time::Instant::elapsed`, which saturates rather than
/// panics. Nothing can be promised of the returned duration.
pub assume_specification[ std::time::Instant::elapsed ](i: &std::time::Instant) -> std::time::Duration;

/// Relies on `std::time::Duration::as_millis`. Nothing is promised of the
/// result beyond its type.
pub assume_specification[ std::time::Duration::as_millis ](d: &std::time::Duration) -> u128;

} // verus!
