//! The detection engine's per-flush decisions: which addresses are
//! promoted to full tracking, the event rate of a flush, the integer
//! counters merged into a tracked record, the block debounce, and the
//! subnet swarm gate. The float-valued rate estimators and the store,
//! channel and thread plumbing are driven by the caller.

use vstd::prelude::*;
use crate::arith::{sat_add_u64_spec, sat_mul_u64, sat_mul_u64_spec, sat_sub_u64_spec};
use crate::detection::batch::IpAgg;
use crate::types::ip_network::{subnet_of, IpNetwork};
use crate::types::net::IpAddr;
use crate::detection::aggregate::SubnetCount;
use crate::storage::store::{window_merged, Store, SubnetRecord};
use crate::storage::traffic::window_of;

verus! {

/// Capacity of the ingest channel.
pub const CHANNEL_CAPACITY: u64 = 64_000;

/// Worker-local buffers merge into the shared pre-aggregation at least
/// this often (in unique addresses).
pub const LOCAL_MERGE_SOFT_CAP: usize = 8_192;

/// The network a subnet key stands for: keys up to 2^32 - 1 are IPv4 /24
/// keys, larger ones IPv6 /64 keys.
pub open spec fn network_of_key_spec(sk: u128) -> IpNetwork {
    if sk <= 0xFFFF_FFFF {
        subnet_of(IpAddr::V4(sk as u32))
    } else {
        subnet_of(IpAddr::V6(sk))
    }
}

/// Rebuild the network of a subnet key (when the flush carries no network
/// for it).
pub fn network_of_key(sk: u128) -> (r: IpNetwork)
    ensures
        r == network_of_key_spec(sk),
{
    if sk <= 0xFFFF_FFFF {
        IpNetwork::of_ip(IpAddr::V4(sk as u32))
    } else {
        IpNetwork::of_ip(IpAddr::V6(sk))
    }
}

/// The events-per-second rate of a flush of `total_events` over `window_ns`
/// nanoseconds (the product saturates).
pub fn flush_rate(total_events: u64, window_ns: u64) -> (r: u64)
    requires
        window_ns > 0,
    ensures
        r == sat_mul_u64_spec(total_events, 1_000_000_000) / window_ns,
{
    sat_mul_u64(total_events, 1_000_000_000) / window_ns
}

/// What the flush knows of one address before promoting it.
#[derive(Debug, Clone, Copy)]
pub struct IpGate {
    /// Events of the address in this flush.
    pub count: u32,
    /// Whether its subnet reached the subnet window threshold.
    pub subnet_hot: bool,
    /// Whether the bloom filter has seen it (blocked recently).
    pub bloom_hit: bool,
}

/// Whether an address is promoted to full tracking: enough events, a hot
/// subnet, or a bloom hit; otherwise it is skipped cold.
pub open spec fn promoted_spec(g: IpGate, promote_min_events: u32) -> bool {
    !(g.count < promote_min_events && !g.subnet_hot && !g.bloom_hit)
}

/// Whether a subnet's event count makes it hot.
pub fn subnet_is_hot(events: u32, subnet_window_threshold: u64) -> (r: bool)
    ensures
        r == (events >= subnet_window_threshold),
{
    events as u64 >= subnet_window_threshold
}

/// Counts over a flush's gates: promoted addresses, skipped addresses, and
/// the events of each.
pub open spec fn tally(gs: Seq<IpGate>, promote_min_events: u32) -> (nat, nat, nat, nat)
    decreases gs.len(),
{
    if gs.len() == 0 {
        (0, 0, 0, 0)
    } else {
        let t = tally(gs.drop_last(), promote_min_events);
        let g = gs.last();
        if promoted_spec(g, promote_min_events) {
            (t.0 + 1, t.1, t.2 + g.count as nat, t.3)
        } else {
            (t.0, t.1 + 1, t.2, t.3 + g.count as nat)
        }
    }
}

/// The flush plan: for each address whether it is promoted, and the
/// promoted / cold-skipped counts and their events.
pub struct FlushPlan {
    pub promote: Vec<bool>,
    pub promoted: u32,
    pub cold_skipped: u32,
    pub promoted_events: u32,
    pub cold_skipped_events: u32,
}

proof fn lemma_tally_prefix(gs: Seq<IpGate>, k: int, m: u32)
    requires
        0 <= k <= gs.len(),
    ensures
        tally(gs.take(k), m).0 <= tally(gs, m).0,
        tally(gs.take(k), m).1 <= tally(gs, m).1,
        tally(gs.take(k), m).2 <= tally(gs, m).2,
        tally(gs.take(k), m).3 <= tally(gs, m).3,
    decreases gs.len(),
{
    if k < gs.len() {
        assert(gs.drop_last().take(k) =~= gs.take(k));
        lemma_tally_prefix(gs.drop_last(), k, m);
    } else {
        assert(gs.take(k) =~= gs);
    }
}

/// Decide promotion for every address of a flush and tally the batch
/// record's counters.
pub fn plan_flush(gates: &[IpGate], promote_min_events: u32) -> (r: FlushPlan)
    requires
        tally(gates@, promote_min_events).0 <= u32::MAX,
        tally(gates@, promote_min_events).1 <= u32::MAX,
        tally(gates@, promote_min_events).2 <= u32::MAX,
        tally(gates@, promote_min_events).3 <= u32::MAX,
    ensures
        r.promote@.len() == gates@.len(),
        forall|i: int|
            0 <= i < gates@.len() ==> r.promote@[i] == promoted_spec(
                #[trigger] gates@[i],
                promote_min_events,
            ),
        r.promoted == tally(gates@, promote_min_events).0,
        r.cold_skipped == tally(gates@, promote_min_events).1,
        r.promoted_events == tally(gates@, promote_min_events).2,
        r.cold_skipped_events == tally(gates@, promote_min_events).3,
{
    let n: usize = gates.len();
    let mut plan = FlushPlan {
        promote: Vec::new(),
        promoted: 0,
        cold_skipped: 0,
        promoted_events: 0,
        cold_skipped_events: 0,
    };
    let mut i: usize = 0;
    while i < n
        invariant
            n == gates@.len(),
            i <= n,
            plan.promote@.len() == i,
            forall|j: int|
                0 <= j < i ==> plan.promote@[j] == promoted_spec(
                    #[trigger] gates@[j],
                    promote_min_events,
                ),
            tally(gates@, promote_min_events).0 <= u32::MAX,
            tally(gates@, promote_min_events).1 <= u32::MAX,
            tally(gates@, promote_min_events).2 <= u32::MAX,
            tally(gates@, promote_min_events).3 <= u32::MAX,
            plan.promoted == tally(gates@.take(i as int), promote_min_events).0,
            plan.cold_skipped == tally(gates@.take(i as int), promote_min_events).1,
            plan.promoted_events == tally(gates@.take(i as int), promote_min_events).2,
            plan.cold_skipped_events == tally(gates@.take(i as int), promote_min_events).3,
        decreases n - i,
    {
        let g = gates[i];
        assert(gates@.take(i + 1).drop_last() =~= gates@.take(i as int));
        proof {
            lemma_tally_prefix(gates@, i + 1, promote_min_events);
        }
        let p: bool = !(g.count < promote_min_events && !g.subnet_hot && !g.bloom_hit);
        if p {
            plan.promoted = plan.promoted + 1;
            plan.promoted_events = plan.promoted_events + g.count;
        } else {
            plan.cold_skipped = plan.cold_skipped + 1;
            plan.cold_skipped_events = plan.cold_skipped_events + g.count;
        }
        plan.promote.push(p);
        i = i + 1;
    }
    assert(gates@.take(n as int) =~= gates@);
    plan
}

/// The integer counters of a tracked address.
#[derive(Debug, Clone, Copy)]
pub struct IpCounters {
    pub request_count: u64,
    pub first_seen_ns: u64,
    pub last_seen_ns: u64,
    pub bytes_in: u64,
    pub status_dist: [u32; 5],
    /// Flush samples observed (saturating); gates the CUSUM warm-up.
    pub sample_count: u8,
    /// Debounce latch: the previous sample was over the threshold.
    pub prev_sample_hot: bool,
    pub pulse_samples_in_window: u8,
    pub pulse_window_start_ns: u64,
}

/// Merge one flush's aggregate into the counters at `now`: request count,
/// bytes and status buckets add (saturating), the last-seen time moves,
/// one more sample is counted (saturating), and once the tracking window
/// of `window_ns` has passed since first seen the request count is halved
/// and the window restarts at `now`.
pub fn merge_counters(c: &mut IpCounters, agg: &IpAgg, now: u64, window_ns: u64)
    ensures
        final(c).last_seen_ns == agg.last_ts_ns,
        final(c).bytes_in == sat_add_u64_spec(old(c).bytes_in, agg.bytes),
        forall|i: int|
            0 <= i < 5 ==> final(c).status_dist[i] == (if old(c).status_dist[i] + agg.status_dist[i]
                > u32::MAX {
                u32::MAX
            } else {
                (old(c).status_dist[i] + agg.status_dist[i]) as u32
            }),
        final(c).sample_count == (if old(c).sample_count == u8::MAX {
            u8::MAX
        } else {
            (old(c).sample_count + 1) as u8
        }),
        ({
            let added = sat_add_u64_spec(old(c).request_count, agg.count as u64);
            if sat_sub_u64_spec(now, old(c).first_seen_ns) > window_ns {
                final(c).request_count == added / 2 && final(c).first_seen_ns == now
            } else {
                final(c).request_count == added && final(c).first_seen_ns == old(c).first_seen_ns
            }
        }),
        final(c).prev_sample_hot == old(c).prev_sample_hot,
        final(c).pulse_samples_in_window == old(c).pulse_samples_in_window,
        final(c).pulse_window_start_ns == old(c).pulse_window_start_ns,
{
    c.request_count = c.request_count.saturating_add(agg.count as u64);
    c.last_seen_ns = agg.last_ts_ns;
    c.bytes_in = c.bytes_in.saturating_add(agg.bytes);
    let mut i: usize = 0;
    while i < 5
        invariant
            i <= 5,
            forall|j: int|
                0 <= j < i ==> c.status_dist[j] == (if old(c).status_dist[j] + agg.status_dist[j]
                    > u32::MAX {
                    u32::MAX
                } else {
                    (old(c).status_dist[j] + agg.status_dist[j]) as u32
                }),
            forall|j: int| i <= j < 5 ==> c.status_dist[j] == old(c).status_dist[j],
            c.request_count == sat_add_u64_spec(old(c).request_count, agg.count as u64),
            c.last_seen_ns == agg.last_ts_ns,
            c.bytes_in == sat_add_u64_spec(old(c).bytes_in, agg.bytes),
            c.first_seen_ns == old(c).first_seen_ns,
            c.sample_count == old(c).sample_count,
            c.prev_sample_hot == old(c).prev_sample_hot,
            c.pulse_samples_in_window == old(c).pulse_samples_in_window,
            c.pulse_window_start_ns == old(c).pulse_window_start_ns,
        decreases 5 - i,
    {
        c.status_dist[i] = c.status_dist[i].saturating_add(agg.status_dist[i]);
        i = i + 1;
    }
    c.sample_count = c.sample_count.saturating_add(1);
    if now.saturating_sub(c.first_seen_ns) > window_ns {
        c.request_count = c.request_count / 2;
        c.first_seen_ns = now;
    }
}

/// The block debounce: `(hot, latch)` after a sample. A sample is hot only
/// when it and the previous one are over the threshold; the latch keeps
/// whether this one was.
pub open spec fn debounce_spec(prev_hot: bool, over: bool) -> (bool, bool) {
    (over && prev_hot, over)
}

/// Whether a tracked address is blocked this flush: a hot (debounced) rate,
/// accumulated CUSUM drift, or a pulse-wave fire.
pub fn block_decision(over_threshold: bool, prev_hot: bool, cusum_fired: bool, pulse_fired: bool) -> (r: (bool, bool))
    ensures
        r.1 == debounce_spec(prev_hot, over_threshold).1,
        r.0 == (debounce_spec(prev_hot, over_threshold).0 || cusum_fired || pulse_fired),
{
    let hot = over_threshold && prev_hot;
    (hot || cusum_fired || pulse_fired, over_threshold)
}

/// Whether CUSUM is armed after `samples` samples (its warm-up).
pub fn cusum_armed(samples: u8) -> (r: bool)
    ensures
        r == (samples >= crate::detection::rate_tracker::CUSUM_WARMUP_SAMPLES),
{
    samples >= crate::detection::rate_tracker::CUSUM_WARMUP_SAMPLES
}

/// The subnet dual gate: enough unique addresses and enough events in the
/// window; either alone misfires.
pub fn subnet_gate(unique_ips: u64, total_events: u64, ip_threshold: u64, ev_threshold: u64) -> (r: bool)
    ensures
        r == (unique_ips >= ip_threshold && total_events >= ev_threshold),
{
    unique_ips >= ip_threshold && total_events >= ev_threshold
}

/// The status-class bucket of a code in 100..600 (`code / 100 - 1`), or
/// 255 for any other code.
pub fn status_bucket(code: u16) -> (r: u8)
    ensures
        r == (if 100 <= code < 600 {
            (code / 100 - 1) as u8
        } else {
            255u8
        }),
{
    if code >= 100 && code < 600 {
        (code / 100 - 1) as u8
    } else {
        255
    }
}

/// Debounce law: a single over-threshold sample after a quiet one never
/// blocks by rate alone; two in a row do.
pub proof fn lemma_debounce_needs_two(over1: bool, over2: bool)
    ensures
        !debounce_spec(false, over1).0,
        debounce_spec(debounce_spec(false, over1).1, over2).0 == (over1 && over2),
{
}

/// The network a flush gives for subnet `k`: the first one listed for it,
/// or the one its key stands for.
pub open spec fn net_for(ns: Seq<(u128, IpNetwork)>, k: u128) -> IpNetwork
    decreases ns.len(),
{
    if ns.len() == 0 {
        network_of_key_spec(k)
    } else if ns[0].0 == k {
        ns[0].1
    } else {
        net_for(ns.drop_first(), k)
    }
}

fn network_for(ns: &Vec<(u128, IpNetwork)>, k: u128) -> (r: IpNetwork)
    ensures
        r == net_for(ns@, k),
{
    let n = ns.len();
    let mut i: usize = 0;
    assert(ns@.skip(0) =~= ns@);
    while i < n
        invariant
            n == ns@.len(),
            i <= n,
            net_for(ns@, k) == net_for(ns@.skip(i as int), k),
        decreases n - i,
    {
        assert(ns@.skip(i as int).drop_first() =~= ns@.skip(i + 1));
        if ns[i].0 == k {
            return ns[i].1;
        }
        i = i + 1;
    }
    assert(ns@.skip(n as int) =~= Seq::<(u128, IpNetwork)>::empty());
    network_of_key(k)
}

/// The per-subnet event counts of a flush, in order.
pub open spec fn subnet_events(cs: Seq<SubnetCount>) -> Seq<u64> {
    Seq::new(cs.len(), |i: int| cs[i].events as u64)
}

/// The record that subnet `k` had before a flush, if any.
pub open spec fn prior(m: Map<u128, SubnetRecord>, k: u128) -> Option<SubnetRecord> {
    if m.contains_key(k) {
        Some(m[k])
    } else {
        None
    }
}

/// Record a flush window in the store: the traffic counters take the
/// flush's event rate over `window_ns`, its distinct addresses and its
/// subnet counts; each subnet's window record merges its events and
/// members at `now_ns` (under the network listed for it, or the one its
/// key stands for); nothing else in the store changes.
pub fn flush_windows(
    store: &mut Store,
    subnets: &Vec<SubnetCount>,
    networks: &Vec<(u128, IpNetwork)>,
    total_events: u64,
    unique_ips: u64,
    window_ns: u64,
    now_ns: u64,
)
    requires
        old(store).traffic.wf(),
        window_ns > 0,
        forall|i: int, j: int| 0 <= i < j < subnets@.len() ==> #[trigger] subnets@[i].key != #[trigger] subnets@[j].key,
    ensures
        final(store).traffic.wf(),
        final(store).traffic.events_last_second == sat_mul_u64_spec(total_events, 1_000_000_000) / window_ns,
        final(store).traffic.unique_ips_window == unique_ips,
        final(store).traffic.window() == window_of(subnet_events(subnets@)),
        final(store).traffic.threats() == old(store).traffic.threats(),
        forall|i: int|
            0 <= i < subnets@.len() ==> {
                let c = #[trigger] subnets@[i];
                &&& final(store).subnets().contains_key(c.key)
                &&& window_merged(
                    prior(old(store).subnets(), c.key),
                    net_for(networks@, c.key),
                    c.events,
                    c.members@,
                    now_ns,
                    final(store).subnets()[c.key],
                )
            },
        forall|k: u128|
            (forall|i: int| 0 <= i < subnets@.len() ==> (#[trigger] subnets@[i]).key != k)
                ==> #[trigger] final(store).subnets().get(k) == old(store).subnets().get(k),
        final(store).entries() == old(store).entries(),
        final(store).members() == old(store).members(),
        final(store).counts() == old(store).counts(),
{
    let rate = flush_rate(total_events, window_ns);
    let mut vals: Vec<u64> = Vec::new();
    let n = subnets.len();
    let mut i: usize = 0;
    while i < n
        invariant
            n == subnets@.len(),
            i <= n,
            vals@ == subnet_events(subnets@).take(i as int),
        decreases n - i,
    {
        vals.push(subnets[i].events as u64);
        assert(vals@ =~= subnet_events(subnets@).take(i + 1));
        i = i + 1;
    }
    assert(vals@ =~= subnet_events(subnets@));
    store.traffic.record_flush(rate, unique_ips, vals.as_slice());
    let ghost s0 = store.subnets();
    let ghost t1 = store.traffic;
    let mut j: usize = 0;
    while j < n
        invariant
            n == subnets@.len(),
            j <= n,
            s0 == old(store).subnets(),
            store.traffic == t1,
            store.entries() == old(store).entries(),
            store.members() == old(store).members(),
            store.counts() == old(store).counts(),
            forall|a: int, b: int| 0 <= a < b < subnets@.len() ==> #[trigger] subnets@[a].key != #[trigger] subnets@[b].key,
            forall|a: int|
                0 <= a < j ==> {
                    let c = #[trigger] subnets@[a];
                    &&& store.subnets().contains_key(c.key)
                    &&& window_merged(
                        prior(s0, c.key),
                        net_for(networks@, c.key),
                        c.events,
                        c.members@,
                        now_ns,
                        store.subnets()[c.key],
                    )
                },
            forall|k: u128|
                (forall|a: int| 0 <= a < j ==> (#[trigger] subnets@[a]).key != k) ==> #[trigger] store.subnets().get(k)
                    == s0.get(k),
        decreases n - j,
    {
        let c = &subnets[j];
        let net = network_for(networks, c.key);
        proof {
            assert(forall|a: int| 0 <= a < j ==> (#[trigger] subnets@[a]).key != c.key);
            assert(store.subnets().get(c.key) == s0.get(c.key));
            assert(prior(store.subnets(), c.key) == prior(s0, c.key));
        }
        let ghost before = store.subnets();
        store.merge_subnet_window(c.key, net, c.events, Some(c.members.as_slice()), now_ns);
        proof {
            assert forall|a: int|
                0 <= a < j + 1 implies {
                    let c2 = #[trigger] subnets@[a];
                    &&& store.subnets().contains_key(c2.key)
                    &&& window_merged(
                        prior(s0, c2.key),
                        net_for(networks@, c2.key),
                        c2.events,
                        c2.members@,
                        now_ns,
                        store.subnets()[c2.key],
                    )
                } by {
                if a < j {
                    assert(subnets@[a].key != subnets@[j as int].key);
                    assert(before.contains_key(subnets@[a].key));
                }
            }
            assert forall|k: u128|
                (forall|a: int| 0 <= a < j + 1 ==> (#[trigger] subnets@[a]).key != k) implies #[trigger] store.subnets().get(k)
                == s0.get(k) by {
                assert(subnets@[j as int].key != k);
                assert(before.get(k) == s0.get(k));
            }
        }
        j = j + 1;
    }
}

} // verus!
