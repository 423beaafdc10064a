//! Monotonic clock readings, for the elapsed time a subagent block shows.
use vstd::prelude::*;

verus! {

/// `std::time::Instant`, carried as an opaque value.
#[verifier::external_type_specification]
#[verifier::external_body]
pub struct ExInstant(std::time::Instant);

/// `Instant::now`: the current reading of the monotonic clock. Nothing is
/// stated of the value, since it depends on when the call runs.
#[verifier::external_body]
pub fn instant_now() -> std::time::Instant {
    std::time::Instant::now()
}

/// `Instant::elapsed` in whole milliseconds (`Duration::as_millis`,
/// truncated to `u64`). Nothing is stated of the value: it depends on the
/// clock at the moment of the call.
#[verifier::external_body]
pub fn elapsed_millis(start: &std::time::Instant) -> u64 {
    start.elapsed().as_millis() as u64
}

} // verus!
