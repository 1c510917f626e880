use vstd::prelude::*;

verus! {

#[verifier::external_type_specification]
#[verifier::external_body]
pub struct ExInstant(std::time::Instant);

/// Relies on std's `Instant::now`. Nothing can be promised of a clock
/// reading, so this carries no contract.
#[verifier::external_body]
fn instant_now() -> std::time::Instant {
    std::time::Instant::now()
}

/// Relies on std's `Instant::elapsed`. The result depends on the clock, so
/// nothing can be promised of it.
#[verifier::external_body]
fn instant_elapsed(start: &std::time::Instant) -> core::time::Duration {
    start.elapsed()
}

/// Relies on std's `Duration::as_millis`.
#[verifier::external_body]
fn duration_as_millis(d: &core::time::Duration) -> u128 {
    d.as_millis()
}

/// A wall-clock stopwatch for reporting how long a run took. Timing is
/// incidental to the analysis: no result of the engine depends on it.
pub struct Timer {
    start_time: std::time::Instant,
}

impl Timer {
    pub fn new() -> Timer {
        Timer { start_time: instant_now() }
    }

    pub fn elapsed_millis(&self) -> u128 {
        let d = instant_elapsed(&self.start_time);
        duration_as_millis(&d)
    }
}

} // verus!
