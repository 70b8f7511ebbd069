//! Hybrid logical clock: wall-clock milliseconds in the high bits and a
//! 32-bit logical counter in the low 32 bits of a 96-bit timestamp.

use vstd::prelude::*;
use crate::types::time::EpochMillis;

verus! {

/// A hybrid logical clock: the last wall-clock millisecond it advanced to,
/// and its logical counter.
pub struct Hlc {
    pub last_ms: u64,
    pub logical: u32,
}

/// The timestamp of wall-clock `ms` and logical count `logical`:
/// `(ms << 32) | logical`.
pub open spec fn hlc_stamp(ms: u64, logical: u32) -> u128 {
    (ms * 0x1_0000_0000 + logical) as u128
}

/// One clock reading at wall-clock `ms`: `(last_ms, logical, timestamp)`
/// afterwards. A reading past the last advances `last_ms` and stamps logical
/// zero; any other reading (the same millisecond, or a wall clock that
/// stepped back) stays at `last_ms`, bumps the logical counter and stamps
/// its new value, so stamps never go backwards (the counter itself is
/// never reset).
pub open spec fn hlc_step(last_ms: u64, logical: u32, ms: u64) -> (u64, u32, u128) {
    if ms > last_ms {
        (ms, logical, hlc_stamp(ms, 0))
    } else {
        (last_ms, (logical + 1) as u32, hlc_stamp(last_ms, (logical + 1) as u32))
    }
}

impl Hlc {
    /// A clock that has seen nothing.
    pub fn new() -> (r: Self)
        ensures
            r.last_ms == 0,
            r.logical == 0,
    {
        Hlc { last_ms: 0, logical: 0 }
    }

    /// Stamp a reading of wall-clock `ms`.
    pub fn now_at(&mut self, ms: u64) -> (t: u128)
        requires
            ms > old(self).last_ms || old(self).logical < u32::MAX,
        ensures
            (final(self).last_ms, final(self).logical, t) == hlc_step(
                old(self).last_ms,
                old(self).logical,
                ms,
            ),
    {
        let logical: u32 = if ms > self.last_ms {
            self.last_ms = ms;
            0
        } else {
            self.logical = self.logical + 1;
            self.logical
        };
        (self.last_ms as u128) * 0x1_0000_0000 + (logical as u128)
    }

    /// Stamp the current wall-clock time.
    pub fn now(&mut self) -> (t: u128)
        requires
            old(self).logical < u32::MAX,
        ensures
            exists|ms: u64|
                (final(self).last_ms, final(self).logical, t) == #[trigger] hlc_step(
                    old(self).last_ms,
                    old(self).logical,
                    ms,
                ),
    {
        let ms = EpochMillis::now().0;
        self.now_at(ms)
    }
}

impl Default for Hlc {
    fn default() -> (r: Self)
        ensures
            r.last_ms == 0,
            r.logical == 0,
    {
        Self::new()
    }
}

/// Monotonicity: two consecutive readings give strictly increasing
/// timestamps, whatever the wall clock reads (also when it steps back).
pub proof fn lemma_hlc_monotonic(last_ms: u64, logical: u32, ms1: u64, ms2: u64)
    requires
        logical < u32::MAX - 1,
    ensures
        ({
            let s1 = hlc_step(last_ms, logical, ms1);
            let s2 = hlc_step(s1.0, s1.1, ms2);
            s1.2 < s2.2
        }),
{
    let s1 = hlc_step(last_ms, logical, ms1);
    assert(ms2 > s1.0 ==> s1.0 * 0x1_0000_0000 + 0x1_0000_0000 <= ms2 * 0x1_0000_0000) by (nonlinear_arith);
}

} // verus!
