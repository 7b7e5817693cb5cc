//! Time, as the device's monotonic clock gives it.

use vstd::prelude::*;

verus! {

/// A length of time, in microseconds.
#[derive(Debug, Clone, Copy, PartialEq, Eq, Structural)]
pub struct Duration {
    /// How many microseconds.
    pub micros: u64,
}

impl Duration {
    /// So many seconds.
    pub fn from_secs(seconds: u32) -> (d: Self)
        ensures
            d.micros == seconds * 1_000_000,
    {
        Duration { micros: seconds as u64 * 1_000_000 }
    }

    /// So many milliseconds.
    pub fn from_millis(millis: u32) -> (d: Self)
        ensures
            d.micros == millis * 1_000,
    {
        Duration { micros: millis as u64 * 1_000 }
    }

    /// Whole milliseconds.
    pub fn as_millis(self) -> (ms: u64)
        ensures
            ms == self.micros / 1_000,
    {
        self.micros / 1_000
    }
}

/// A moment, in microseconds since the clock's start.
#[derive(Debug, Clone, Copy, PartialEq, Eq, Structural)]
pub struct Instant {
    /// How many microseconds.
    pub micros: u64,
}

/// The moment `micros` after `t`, or the last moment there is.
pub open spec fn later(t: Instant, micros: int) -> Instant {
    if t.micros + micros > u64::MAX {
        Instant { micros: u64::MAX }
    } else {
        Instant { micros: (t.micros + micros) as u64 }
    }
}

impl Instant {
    /// The moment `d` from here, or the last moment there is.
    pub fn saturating_add(self, d: Duration) -> (t: Self)
        ensures
            t == later(self, d.micros as int),
    {
        if d.micros > u64::MAX - self.micros {
            Instant { micros: u64::MAX }
        } else {
            Instant { micros: self.micros + d.micros }
        }
    }

    /// Whole milliseconds since the clock's start.
    pub fn as_millis(self) -> (ms: u64)
        ensures
            ms == self.micros / 1_000,
    {
        self.micros / 1_000
    }

    /// How long `earlier` is past; nothing where it is yet to come.
    pub fn saturating_duration_since(self, earlier: Instant) -> (d: Duration)
        ensures
            d.micros == (if earlier.micros >= self.micros { 0 } else { self.micros - earlier.micros }),
    {
        if earlier.micros >= self.micros {
            Duration { micros: 0 }
        } else {
            Duration { micros: self.micros - earlier.micros }
        }
    }
}

} // verus!
