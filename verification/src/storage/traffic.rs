//! Incremental traffic counters: written at each detection flush and read
//! by the forecaster without scanning the store.

use vstd::prelude::*;
use crate::types::net::IpAddr;

verus! {

/// Slots in the per-subnet event window.
pub const SUBNET_WINDOW_SLOTS: usize = 256;

/// The window a flush's subnet counts leave: slot `i` holds the `i`-th
/// count when there is one, else zero.
pub open spec fn window_of(counts: Seq<u64>) -> Seq<u64> {
    Seq::new(256, |i: int| if i < counts.len() { counts[i] } else { 0u64 })
}

/// Counters of the latest flush window. High-threat samples are queued as
/// the bit patterns of their `f32` threat scores.
pub struct TrafficCounters {
    pub events_last_second: u64,
    pub unique_ips_window: u64,
    pub promoted_ips: u64,
    pub subnet_window: Vec<u64>,
    pub threat_sample: Vec<(IpAddr, u32)>,
    pub ram_limit_mb: usize,
    pub used_bytes: u64,
    pub uptime_secs: u64,
}

impl TrafficCounters {
    /// The per-subnet event counts of the latest flush, one per slot.
    pub open spec fn window(&self) -> Seq<u64> {
        self.subnet_window@
    }

    /// The queued threat samples, oldest first.
    pub open spec fn threats(&self) -> Seq<(IpAddr, u32)> {
        self.threat_sample@
    }

    /// The window has its fixed number of slots.
    pub open spec fn wf(&self) -> bool {
        self.subnet_window@.len() == SUBNET_WINDOW_SLOTS
    }

    /// All counters zero, an empty window and no samples.
    pub fn new() -> (r: Self)
        ensures
            r.wf(),
            r.window() == Seq::new(256, |i: int| 0u64),
            r.threats() == Seq::<(IpAddr, u32)>::empty(),
            r.events_last_second == 0 && r.unique_ips_window == 0 && r.promoted_ips == 0,
            r.ram_limit_mb == 0 && r.used_bytes == 0 && r.uptime_secs == 0,
    {
        let mut w: Vec<u64> = Vec::new();
        let mut i: usize = 0;
        while i < SUBNET_WINDOW_SLOTS
            invariant
                i <= SUBNET_WINDOW_SLOTS,
                w@ == Seq::new(i as nat, |j: int| 0u64),
            decreases SUBNET_WINDOW_SLOTS - i,
        {
            w.push(0);
            i = i + 1;
        }
        TrafficCounters {
            events_last_second: 0,
            unique_ips_window: 0,
            promoted_ips: 0,
            subnet_window: w,
            threat_sample: Vec::new(),
            ram_limit_mb: 0,
            used_bytes: 0,
            uptime_secs: 0,
        }
    }

    /// Record a flush: its event rate, its distinct addresses, and its
    /// subnet counts, which replace the whole window (counts past the last
    /// slot are dropped, slots past the last count are zeroed).
    pub fn record_flush(&mut self, total_events: u64, unique_ips: u64, subnet_counts: &[u64])
        requires
            old(self).wf(),
        ensures
            final(self).wf(),
            final(self).events_last_second == total_events,
            final(self).unique_ips_window == unique_ips,
            final(self).window() == window_of(subnet_counts@),
            final(self).threats() == old(self).threats(),
            final(self).promoted_ips == old(self).promoted_ips,
            final(self).ram_limit_mb == old(self).ram_limit_mb,
            final(self).used_bytes == old(self).used_bytes,
            final(self).uptime_secs == old(self).uptime_secs,
    {
        self.events_last_second = total_events;
        self.unique_ips_window = unique_ips;
        let n = subnet_counts.len();
        let mut i: usize = 0;
        while i < SUBNET_WINDOW_SLOTS
            invariant
                i <= SUBNET_WINDOW_SLOTS,
                n == subnet_counts@.len(),
                self.subnet_window@.len() == SUBNET_WINDOW_SLOTS,
                forall|j: int| 0 <= j < i ==> self.subnet_window@[j] == window_of(subnet_counts@)[j],
                self.threat_sample == old(self).threat_sample,
                self.events_last_second == total_events,
                self.unique_ips_window == unique_ips,
                self.promoted_ips == old(self).promoted_ips,
                self.ram_limit_mb == old(self).ram_limit_mb,
                self.used_bytes == old(self).used_bytes,
                self.uptime_secs == old(self).uptime_secs,
            decreases SUBNET_WINDOW_SLOTS - i,
        {
            let v: u64 = if i < n { subnet_counts[i] } else { 0 };
            self.subnet_window.set(i, v);
            i = i + 1;
        }
        assert(self.subnet_window@ =~= window_of(subnet_counts@));
    }

    /// A copy of the window.
    pub fn subnet_window(&self) -> (r: Vec<u64>)
        ensures
            r@ == self.window(),
    {
        self.subnet_window.clone()
    }

    /// Queue threat samples behind those already queued.
    pub fn push_threat_samples(&mut self, samples: Vec<(IpAddr, u32)>)
        ensures
            final(self).threats() == old(self).threats() + samples@,
            final(self).window() == old(self).window(),
            final(self).wf() == old(self).wf(),
    {
        let mut s = samples;
        self.threat_sample.append(&mut s);
    }

    /// Take every queued sample, oldest first, leaving none.
    pub fn drain_threat_sample(&mut self) -> (r: Vec<(IpAddr, u32)>)
        ensures
            r@ == old(self).threats(),
            final(self).threats() == Seq::<(IpAddr, u32)>::empty(),
            final(self).window() == old(self).window(),
            final(self).wf() == old(self).wf(),
    {
        let mut out: Vec<(IpAddr, u32)> = Vec::new();
        std::mem::swap(&mut out, &mut self.threat_sample);
        out
    }
}

} // verus!
