//! Counts of successful and failed reads.
use vstd::prelude::*;

verus! {

/// Read outcome counters; each wraps around at `u64::MAX` like an atomic
/// counter does.
pub struct ReadStats {
    pub success: u64,
    pub failure: u64,
}

impl ReadStats {
    pub fn new() -> (r: ReadStats)
        ensures
            r.success == 0 && r.failure == 0,
    {
        ReadStats { success: 0, failure: 0 }
    }

    pub fn track_read_success(&mut self)
        ensures
            final(self).success == (old(self).success + 1) % 0x1_0000_0000_0000_0000,
            final(self).failure == old(self).failure,
    {
        self.success = if self.success == u64::MAX { 0 } else { self.success + 1 };
    }

    pub fn track_read_failure(&mut self)
        ensures
            final(self).failure == (old(self).failure + 1) % 0x1_0000_0000_0000_0000,
            final(self).success == old(self).success,
    {
        self.failure = if self.failure == u64::MAX { 0 } else { self.failure + 1 };
    }

    /// `(successes, failures)`.
    pub fn get_read_stats(&self) -> (r: (u64, u64))
        ensures
            r == (self.success, self.failure),
    {
        (self.success, self.failure)
    }

    pub fn reset_read_stats(&mut self)
        ensures
            final(self).success == 0 && final(self).failure == 0,
    {
        self.success = 0;
        self.failure = 0;
    }
}

} // verus!
