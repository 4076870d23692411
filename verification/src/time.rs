//! Spans and points of time, counted in whole nanoseconds.

use vstd::prelude::*;

verus! {

/// A span of time.
#[derive(Clone, Copy, Debug, PartialEq, Eq, Structural)]
pub struct Duration {
    pub nanos: u128,
}

impl Duration {
    /// The span of `nanos` nanoseconds.
    pub fn from_nanos(nanos: u128) -> (span: Duration)
        ensures
            span.nanos == nanos,
    {
        Duration { nanos }
    }

    /// The span of `secs` seconds.
    pub fn from_secs(secs: u64) -> (span: Duration)
        ensures
            span.nanos == secs * 1_000_000_000,
    {
        Duration { nanos: secs as u128 * 1_000_000_000 }
    }

    /// The span of `millis` milliseconds.
    pub fn from_millis(millis: u64) -> (span: Duration)
        ensures
            span.nanos == millis * 1_000_000,
    {
        Duration { nanos: millis as u128 * 1_000_000 }
    }

    /// How many nanoseconds the span has.
    pub fn as_nanos(self) -> (nanos: u128)
        ensures
            nanos == self.nanos,
    {
        self.nanos
    }
}

/// A point of time on a monotonic clock, as its distance from the clock's
/// origin.
#[derive(Clone, Copy, Debug, PartialEq, Eq, Structural)]
pub struct Instant {
    pub nanos: u128,
}

impl Instant {
    /// The point `nanos` nanoseconds after the clock's origin.
    pub fn from_nanos(nanos: u128) -> (at: Instant)
        ensures
            at.nanos == nanos,
    {
        Instant { nanos }
    }

    /// The span from `earlier` to this point, or nothing if `earlier` is later.
    pub fn saturating_duration_since(self, earlier: Instant) -> (span: Duration)
        ensures
            span.nanos == elapsed_nanos(earlier, self),
    {
        if self.nanos >= earlier.nanos {
            Duration { nanos: self.nanos - earlier.nanos }
        } else {
            Duration { nanos: 0 }
        }
    }
}

/// The nanoseconds between two points, zero when they are not in order.
pub open spec fn elapsed_nanos(from: Instant, to: Instant) -> int {
    if to.nanos >= from.nanos {
        to.nanos - from.nanos
    } else {
        0
    }
}

} // verus!
