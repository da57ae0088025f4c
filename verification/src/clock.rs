//! Points in time and spans of time, as counts of nanoseconds.
//!
//! The clock itself is read outside: whoever needs the present takes it as an
//! argument.

use vstd::prelude::*;

verus! {

/// A span of time.
#[derive(Clone, Copy, Debug, PartialEq, Eq, Structural)]
pub struct Duration {
    pub nanos: u128,
}

/// A point in time, counted from an origin that all points share.
#[derive(Clone, Copy, Debug, PartialEq, Eq, Structural)]
pub struct Instant {
    pub nanos: u128,
}

pub const NANOS_PER_SEC: u128 = 1_000_000_000;

pub const NANOS_PER_MILLI: u128 = 1_000_000;

/// A span of `s` seconds.
pub open spec fn secs(s: int) -> int {
    s * NANOS_PER_SEC
}

/// A span of `ms` milliseconds.
pub open spec fn millis(ms: int) -> int {
    ms * NANOS_PER_MILLI
}

/// The time from `earlier` to `later`, nothing where `later` comes first.
pub open spec fn elapsed(later: Instant, earlier: Instant) -> int {
    if later.nanos >= earlier.nanos {
        later.nanos - earlier.nanos
    } else {
        0
    }
}

impl Duration {
    pub fn from_secs(s: u64) -> (r: Duration)
        ensures
            r.nanos == secs(s as int),
    {
        Duration { nanos: s as u128 * NANOS_PER_SEC }
    }

    pub fn from_millis(ms: u64) -> (r: Duration)
        ensures
            r.nanos == millis(ms as int),
    {
        Duration { nanos: ms as u128 * NANOS_PER_MILLI }
    }

    pub fn zero() -> (r: Duration)
        ensures
            r.nanos == 0,
    {
        Duration { nanos: 0 }
    }

    /// Whole seconds.
    pub fn as_secs(self) -> (r: u128)
        ensures
            r == self.nanos as int / NANOS_PER_SEC as int,
    {
        self.nanos / NANOS_PER_SEC
    }

    /// Whole milliseconds.
    pub fn as_millis(self) -> (r: u128)
        ensures
            r == self.nanos as int / NANOS_PER_MILLI as int,
    {
        self.nanos / NANOS_PER_MILLI
    }
}

impl Instant {
    /// `ms` milliseconds after the origin.
    pub fn from_millis(ms: u64) -> (r: Instant)
        ensures
            r.nanos == millis(ms as int),
    {
        Instant { nanos: ms as u128 * NANOS_PER_MILLI }
    }

    /// The time from `earlier` to here, nothing where `earlier` is later.
    pub fn since(self, earlier: Instant) -> (r: Duration)
        ensures
            r.nanos == elapsed(self, earlier),
    {
        if self.nanos >= earlier.nanos {
            Duration { nanos: self.nanos - earlier.nanos }
        } else {
            Duration { nanos: 0 }
        }
    }

    /// `span` later; the end of the clock where that lies beyond it.
    pub fn after(self, span: Duration) -> (r: Instant)
        ensures
            r.nanos == (if self.nanos + span.nanos <= u128::MAX {
                self.nanos + span.nanos
            } else {
                u128::MAX as int
            }),
    {
        if span.nanos <= u128::MAX - self.nanos {
            Instant { nanos: self.nanos + span.nanos }
        } else {
            Instant { nanos: u128::MAX }
        }
    }

    /// `span` earlier, if the clock reaches back that far.
    pub fn before(self, span: Duration) -> (r: Option<Instant>)
        ensures
            r == (if span.nanos <= self.nanos {
                Some(Instant { nanos: (self.nanos - span.nanos) as u128 })
            } else {
                None::<Instant>
            }),
    {
        if span.nanos <= self.nanos {
            Some(Instant { nanos: self.nanos - span.nanos })
        } else {
            None
        }
    }
}

} // verus!
