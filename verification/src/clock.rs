//! The wall clock, and a clock that never goes back.

use vstd::prelude::*;

verus! {

/// The monotonic clock of the standard library, carried as an opaque value.
#[verifier::external_type_specification]
#[verifier::external_body]
pub struct ExStdInstant(std::time::Instant);

/// Calls `SystemTime::elapsed` on the Unix epoch: how many whole seconds the wall clock is
/// past it, and zero when the wall clock is set before it. Nothing is promised of the value.
#[verifier::external_body]
pub(crate) fn unix_seconds() -> (r: u64) {
    std::time::SystemTime::UNIX_EPOCH.elapsed().unwrap_or_default().as_secs()
}

/// Calls `Instant::now`. Nothing is promised of the value.
#[verifier::external_body]
fn std_now() -> (r: std::time::Instant) {
    std::time::Instant::now()
}

/// Calls `Instant::elapsed`: the nanoseconds passed since `start`, cut off at the largest
/// value that fits. Nothing is promised of the value.
#[verifier::external_body]
fn nanos_since(start: &std::time::Instant) -> (r: u64) {
    u64::try_from(start.elapsed().as_nanos()).unwrap_or(u64::MAX)
}

/// A point on a clock that never goes back, in nanoseconds since the clock was started.
#[derive(Debug, Clone, Copy, PartialEq, Eq, Structural)]
pub struct Instant(pub u64);

/// Nanoseconds in a second.
pub const NANOS_PER_SEC: u64 = 1_000_000_000;

impl Instant {
    /// The whole seconds that passed from `earlier` to this point; none when `earlier` is not
    /// earlier.
    pub open spec fn secs_after(self, earlier: Instant) -> int {
        if earlier.0 <= self.0 {
            (self.0 - earlier.0) / NANOS_PER_SEC as int
        } else {
            0
        }
    }

    /// The nanoseconds that passed from `earlier` to this point; none when `earlier` is not
    /// earlier.
    pub open spec fn nanos_after(self, earlier: Instant) -> int {
        if earlier.0 <= self.0 {
            self.0 - earlier.0
        } else {
            0
        }
    }

    /// The nanoseconds that passed from `earlier` to this point.
    pub fn duration_since(&self, earlier: Instant) -> (r: u64)
        ensures
            r == self.nanos_after(earlier),
    {
        if earlier.0 <= self.0 {
            self.0 - earlier.0
        } else {
            0
        }
    }

    /// The whole seconds that passed from `earlier` to this point.
    pub fn secs_since(&self, earlier: Instant) -> (r: u64)
        ensures
            r == self.secs_after(earlier),
    {
        if earlier.0 <= self.0 {
            (self.0 - earlier.0) / NANOS_PER_SEC
        } else {
            0
        }
    }
}

/// A running monotonic clock.
pub struct Clock {
    start: std::time::Instant,
}

impl Clock {
    /// Starts a clock.
    pub fn start() -> (r: Clock) {
        Clock { start: std_now() }
    }

    /// The time on this clock. Nothing is promised of the value.
    pub fn now(&self) -> (r: Instant) {
        Instant(nanos_since(&self.start))
    }
}

} // verus!
