//! Wall-clock timing of a run.

use vstd::prelude::*;
use std::time::{Duration, Instant};

verus! {

#[verifier::external_type_specification]
#[verifier::external_body]
pub struct ExInstant(std::time::Instant);

/// Relies on `Instant::now`: the current instant of a monotonic clock.
pub assume_specification[ std::time::Instant::now ]() -> std::time::Instant;

/// Relies on `Instant::elapsed`: the time since the instant.
pub assume_specification[ std::time::Instant::elapsed ](this: &std::time::Instant) -> std::time::Duration;

/// Relies on `Duration::as_micros`: the whole microseconds of the duration.
pub assume_specification[ std::time::Duration::as_micros ](this: &std::time::Duration) -> u128;

/// Microseconds since `start`.
pub fn elapsed_micros(start: &Instant) -> u128 {
    let d: Duration = start.elapsed();
    d.as_micros()
}

} // verus!
