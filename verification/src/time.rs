//! Lengths of time.

use vstd::prelude::*;

verus! {

/// A length of time, in nanoseconds.
#[derive(Debug, Clone, Copy, PartialEq, Eq, PartialOrd, Ord, Hash, Structural)]
pub struct Duration {
    /// Nanoseconds.
    pub nanos: u128,
}

impl Duration {
    /// No time at all.
    pub fn zero() -> (r: Duration)
        ensures
            r.nanos == 0,
    {
        Duration { nanos: 0 }
    }

    /// That many seconds.
    pub fn from_secs(secs: u64) -> (r: Duration)
        ensures
            r.nanos == secs * 1_000_000_000,
    {
        Duration { nanos: secs as u128 * 1_000_000_000 }
    }

    /// That many milliseconds.
    pub fn from_millis(ms: u64) -> (r: Duration)
        ensures
            r.nanos == ms * 1_000_000,
    {
        Duration { nanos: ms as u128 * 1_000_000 }
    }
}

} // verus!
