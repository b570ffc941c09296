//! Rolling counters of the health monitor: between two ticks, how many frames
//! and bytes arrived. Rates are derived from these by the caller.
use vstd::prelude::*;

verus! {

/// The counter readings of the previous tick.
pub struct HealthTracker {
    prev_frames: u64,
    prev_bytes: u64,
}

/// Frames and bytes since the previous tick.
pub struct HealthDelta {
    pub frames: u64,
    pub bytes: u64,
}

/// The difference of two readings of a counter, zero when it went back.
pub open spec fn counter_delta(now: u64, prev: u64) -> u64 {
    if now >= prev {
        (now - prev) as u64
    } else {
        0
    }
}

impl HealthTracker {
    /// A tracker whose previous readings are zero.
    pub fn new() -> (r: Self)
        ensures
            r.prev_frames() == 0 && r.prev_bytes() == 0,
    {
        HealthTracker { prev_frames: 0, prev_bytes: 0 }
    }

    pub closed spec fn prev_frames(&self) -> u64 {
        self.prev_frames
    }

    pub closed spec fn prev_bytes(&self) -> u64 {
        self.prev_bytes
    }

    /// Takes the readings of this tick and returns the deltas since the last.
    pub fn tick(&mut self, frames: u64, bytes: u64) -> (d: HealthDelta)
        ensures
            d.frames == counter_delta(frames, old(self).prev_frames()),
            d.bytes == counter_delta(bytes, old(self).prev_bytes()),
            final(self).prev_frames() == frames,
            final(self).prev_bytes() == bytes,
    {
        let d = HealthDelta {
            frames: frames.saturating_sub(self.prev_frames),
            bytes: bytes.saturating_sub(self.prev_bytes),
        };
        self.prev_frames = frames;
        self.prev_bytes = bytes;
        d
    }
}

/// Uptime as reported: at least one second.
pub fn reported_uptime(elapsed_secs: u64) -> (r: u64)
    ensures
        r == if elapsed_secs >= 1 {
            elapsed_secs
        } else {
            1
        },
{
    if elapsed_secs >= 1 {
        elapsed_secs
    } else {
        1
    }
}

} // verus!
