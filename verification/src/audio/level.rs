//! When a microphone level is due.
//!
//! The level itself is a sum of squares and a logarithm, and is computed where
//! the samples are; what is decided here is when a reading is made, and over
//! which samples.

use vstd::prelude::*;

verus! {

/// The shortest time between two readings, in nanoseconds.
pub const LEVEL_INTERVAL_NANOS: u64 = 33_000_000;

/// How many readings may wait for whoever reads them.
pub const LEVEL_QUEUE: usize = 8;

/// What to do with the running sum after a buffer.
#[derive(Debug, Clone, Copy, PartialEq, Eq, Structural)]
pub enum MeterStep {
    /// No recording is live: forget what was summed, and leave the buffer out.
    Reset,
    /// The buffer is summed; no reading is due yet.
    Hold,
    /// The buffer is summed; a reading over that many samples is due, and the
    /// sum starts again.
    Report { samples: u64 },
}

/// Decides when a level is due. Times are nanoseconds on a clock that never
/// goes back.
#[derive(Debug, Clone, Copy, PartialEq, Eq, Structural)]
pub struct LevelMeter {
    /// Samples summed since the last reading.
    pub samples: u64,
    /// When the last reading was made.
    pub last_sent: u64,
}

/// How much later `now` is than `then`.
pub open spec fn later_by(now: u64, then: u64) -> int {
    if now >= then {
        now - then
    } else {
        0
    }
}

/// The meter after a buffer of `len` samples at `now`, and what to do.
pub open spec fn metered(m: LevelMeter, len: u64, recording: bool, now: u64) -> (
    LevelMeter,
    MeterStep,
) {
    let total = m.samples + len;
    if !recording {
        (LevelMeter { samples: 0, ..m }, MeterStep::Reset)
    } else if total == 0 || later_by(now, m.last_sent) < LEVEL_INTERVAL_NANOS {
        (LevelMeter { samples: total as u64, ..m }, MeterStep::Hold)
    } else {
        (LevelMeter { samples: 0, last_sent: now }, MeterStep::Report { samples: total as u64 })
    }
}

impl LevelMeter {
    /// A meter that starts counting now.
    pub fn new(now: u64) -> (r: LevelMeter)
        ensures
            r == (LevelMeter { samples: 0, last_sent: now }),
    {
        LevelMeter { samples: 0, last_sent: now }
    }

    /// Takes note of a buffer.
    pub fn observe(&mut self, len: u64, recording: bool, now: u64) -> (r: MeterStep)
        requires
            old(self).samples + len <= u64::MAX,
        ensures
            *final(self) == metered(*old(self), len, recording, now).0,
            r == metered(*old(self), len, recording, now).1,
    {
        if !recording {
            self.samples = 0;
            return MeterStep::Reset;
        }
        self.samples = self.samples + len;
        let waited: u64 = if now >= self.last_sent {
            now - self.last_sent
        } else {
            0
        };
        if self.samples == 0 || waited < LEVEL_INTERVAL_NANOS {
            return MeterStep::Hold;
        }
        let samples: u64 = self.samples;
        self.samples = 0;
        self.last_sent = now;
        MeterStep::Report { samples }
    }
}

/// Two readings are never closer together than the interval.
pub proof fn readings_are_spaced(m: LevelMeter, len: u64, now: u64, next_len: u64, next: u64)
    requires
        metered(m, len, true, now).1 is Report,
        metered(metered(m, len, true, now).0, next_len, true, next).1 is Report,
    ensures
        next >= now + LEVEL_INTERVAL_NANOS,
{
}

/// A recording starts from its own audio: after a buffer that was not recorded,
/// nothing summed before it is left.
pub proof fn silence_between_recordings_forgets(m: LevelMeter, len: u64, now: u64)
    ensures
        metered(m, len, false, now).0.samples == 0,
        metered(m, len, false, now).1 == MeterStep::Reset,
{
}

} // verus!
