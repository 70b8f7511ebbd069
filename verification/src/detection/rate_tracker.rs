//! Pulse-wave correlation tracker: counts over-threshold batch samples inside
//! a sliding window of `window_secs` and fires once `threshold` of them land
//! in one window — catching bursts spaced just under per-window detection.
//! (The EWMA and CUSUM steps of the rate tracker are floating-point and live
//! outside this crate.)

use vstd::prelude::*;
use crate::arith::{sat_mul_u64, sat_mul_u64_spec, sat_sub_u64_spec};

verus! {

/// Samples a record must observe before CUSUM arms (baseline warm-up).
pub const CUSUM_WARMUP_SAMPLES: u8 = 6;

/// Whether the window starting at `start` has expired at `now` (a zero
/// start means no window is open).
pub open spec fn window_expired(start: u64, now: u64, window_secs: u64) -> bool {
    start == 0 || sat_sub_u64_spec(now, start) > sat_mul_u64_spec(window_secs, 1_000_000_000)
}

/// One tracker step: `(count, window_start, fired)`.
pub open spec fn pulse_step_spec(
    prev_count: u8,
    prev_window_start_ns: u64,
    now_ns: u64,
    over_threshold: bool,
    window_secs: u64,
    threshold: u8,
) -> (u8, u64, bool) {
    let expired = window_expired(prev_window_start_ns, now_ns, window_secs);
    let count = if expired {
        0u8
    } else {
        prev_count
    };
    let start = if expired {
        now_ns
    } else {
        prev_window_start_ns
    };
    if over_threshold {
        let c: u8 = if count == u8::MAX {
            u8::MAX
        } else {
            (count + 1) as u8
        };
        (c, start, c >= threshold && count < threshold)
    } else {
        (count, start, false)
    }
}

/// One step of the pulse-wave tracker. Returns the new sample count, the new
/// window start and whether the tracker fired: the window restarts at
/// `now_ns` when none is open or the open one is older than `window_secs`;
/// an over-threshold sample adds one (saturating) and fires when the count
/// reaches `threshold` from below (a count already at or above it does not
/// fire again within the window).
pub fn pulse_tracker_step(
    prev_count: u8,
    prev_window_start_ns: u64,
    now_ns: u64,
    over_threshold: bool,
    window_secs: u64,
    threshold: u8,
) -> (r: (u8, u64, bool))
    ensures
        r == pulse_step_spec(
            prev_count,
            prev_window_start_ns,
            now_ns,
            over_threshold,
            window_secs,
            threshold,
        ),
{
    let window_ns: u64 = sat_mul_u64(window_secs, 1_000_000_000);
    let window_age_exceeded: bool = now_ns.saturating_sub(prev_window_start_ns) > window_ns;
    let expired: bool = prev_window_start_ns == 0 || window_age_exceeded;
    let (mut count, start) = if expired {
        (0u8, now_ns)
    } else {
        (prev_count, prev_window_start_ns)
    };
    let mut fired: bool = false;
    if over_threshold {
        let before: u8 = count;
        count = count.saturating_add(1);
        if count >= threshold && before < threshold {
            fired = true;
        }
    }
    (count, start, fired)
}

/// A sample under the threshold never fires the tracker.
pub proof fn lemma_quiet_never_fires(c: u8, s: u64, now: u64, w: u64, t: u8)
    ensures
        !pulse_step_spec(c, s, now, false, w, t).2,
{
}

/// Once the tracker has fired in a window, further over-threshold samples
/// in the same window do not fire it again.
pub proof fn lemma_fires_once_per_window(c: u8, s: u64, now: u64, w: u64, t: u8)
    requires
        !window_expired(s, now, w),
        c >= t,
    ensures
        !pulse_step_spec(c, s, now, true, w, t).2,
{
}

/// Pulse-wave law: an over-threshold sample that opens a window, followed
/// by a second over-threshold sample inside that window, fires a tracker
/// whose threshold is two.
pub proof fn lemma_two_samples_in_window_fire(
    c: u8,
    s: u64,
    t1: u64,
    t2: u64,
    w: u64,
    threshold: u8,
)
    requires
        window_expired(s, t1, w),
        t1 > 0,
        t1 <= t2,
        t2 - t1 <= sat_mul_u64_spec(w, 1_000_000_000),
        threshold == 2,
    ensures
        ({
            let first = pulse_step_spec(c, s, t1, true, w, threshold);
            pulse_step_spec(first.0, first.1, t2, true, w, threshold).2
        }),
{
}

} // verus!
