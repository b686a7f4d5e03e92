//! Spans of time and points on a monotonic clock, in whole nanoseconds.
//!
//! The caller reads the clock: it hands over how long after an epoch of its own choosing "now"
//! is, and the library compares and adds.

use vstd::prelude::*;

verus! {

pub const NANOS_PER_SEC: u128 = 1_000_000_000;

pub const NANOS_PER_MILLI: u128 = 1_000_000;

/// A span of time.
#[derive(Debug, Clone, Copy, PartialEq, Eq, PartialOrd, Ord, Structural)]
pub struct Duration {
    pub nanos: u128,
}

/// A span of `s` seconds.
pub open spec fn secs(s: nat) -> Duration {
    Duration { nanos: (s * NANOS_PER_SEC) as u128 }
}

/// The shorter of two spans.
pub open spec fn shorter(a: Duration, b: Duration) -> Duration {
    if b.nanos < a.nanos {
        b
    } else {
        a
    }
}

/// The longer of two spans.
pub open spec fn longer(a: Duration, b: Duration) -> Duration {
    if b.nanos > a.nanos {
        b
    } else {
        a
    }
}

impl Duration {
    pub fn from_secs(s: u64) -> (d: Duration)
        ensures
            d == secs(s as nat),
            d.nanos == s * NANOS_PER_SEC,
    {
        Duration { nanos: s as u128 * NANOS_PER_SEC }
    }

    pub fn from_millis(ms: u64) -> (d: Duration)
        ensures
            d.nanos == ms * NANOS_PER_MILLI,
    {
        Duration { nanos: ms as u128 * NANOS_PER_MILLI }
    }

    /// The whole seconds of the span.
    pub fn as_secs(&self) -> (s: u128)
        ensures
            s == self.nanos / NANOS_PER_SEC,
    {
        self.nanos / NANOS_PER_SEC
    }

    /// The whole milliseconds of the span.
    pub fn as_millis(&self) -> (ms: u128)
        ensures
            ms == self.nanos / NANOS_PER_MILLI,
    {
        self.nanos / NANOS_PER_MILLI
    }

    pub fn plus(self, other: Duration) -> (d: Duration)
        requires
            self.nanos + other.nanos <= u128::MAX,
        ensures
            d.nanos == self.nanos + other.nanos,
    {
        Duration { nanos: self.nanos + other.nanos }
    }

    pub fn times(self, n: u32) -> (d: Duration)
        requires
            self.nanos * n <= u128::MAX,
        ensures
            d.nanos == self.nanos * n,
    {
        Duration { nanos: self.nanos * n as u128 }
    }

    /// Half the span, rounded down to a nanosecond.
    pub fn half(self) -> (d: Duration)
        ensures
            d.nanos == self.nanos / 2,
    {
        Duration { nanos: self.nanos / 2 }
    }

    pub fn shorter(self, other: Duration) -> (d: Duration)
        ensures
            d == shorter(self, other),
    {
        if other.nanos < self.nanos {
            other
        } else {
            self
        }
    }

    pub fn longer(self, other: Duration) -> (d: Duration)
        ensures
            d == longer(self, other),
    {
        if other.nanos > self.nanos {
            other
        } else {
            self
        }
    }
}

/// A point on the caller's monotonic clock.
#[derive(Debug, Clone, Copy, PartialEq, Eq, PartialOrd, Ord, Structural)]
pub struct Instant {
    /// How long after the caller's epoch.
    pub nanos: u128,
}

/// The time from `earlier` to `later`, zero when they are the other way round.
pub open spec fn elapsed(earlier: Instant, later: Instant) -> Duration {
    if later.nanos >= earlier.nanos {
        Duration { nanos: (later.nanos - earlier.nanos) as u128 }
    } else {
        Duration { nanos: 0 }
    }
}

impl Instant {
    /// The point `since_epoch` after the caller's epoch.
    pub fn at(since_epoch: Duration) -> (i: Instant)
        ensures
            i.nanos == since_epoch.nanos,
    {
        Instant { nanos: since_epoch.nanos }
    }

    pub fn duration_since(self, earlier: Instant) -> (d: Duration)
        ensures
            d == elapsed(earlier, self),
    {
        if self.nanos >= earlier.nanos {
            Duration { nanos: self.nanos - earlier.nanos }
        } else {
            Duration { nanos: 0 }
        }
    }
}

} // verus!
