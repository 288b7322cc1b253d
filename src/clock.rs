//! The monotonic clock of std, declared for use in verified code.
use vstd::prelude::*;
use std::time::{Duration, Instant};

verus! {

/// std's `Instant`, carried as an opaque value.
#[verifier::external_type_specification]
#[verifier::external_body]
pub struct ExInstant(Instant);

/// Relies on `Instant::now`: the current instant; nothing is known of its value.
pub assume_specification[ Instant::now ]() -> Instant;

/// Relies on `Instant::elapsed`: the time since the instant; nothing is known of its value.
pub assume_specification[ Instant::elapsed ](i: &Instant) -> Duration;

/// Relies on `Duration::as_millis`: whole milliseconds of the duration.
pub assume_specification[ Duration::as_millis ](d: &Duration) -> u128;

} // verus!
