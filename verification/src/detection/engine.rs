//! The detection engine's per-flush step: promote addresses past the cold
//! gate, merge each promoted address's flush into its tracked record, decide
//! blocks (debounced rate, CUSUM drift, pulse wave), and account the batch.
//! The floating-point rate estimators (EWMA, slow baseline, CUSUM, threat
//! score) run before the step; their results come in as a `RateVerdict`.

use vstd::prelude::*;
use crate::arith::{sat_add_u64_spec, sat_mul_u64, sat_mul_u64_spec, sat_sub_u64_spec};
use crate::detection::batch::IpAgg;
use crate::detection::aggregate::SubnetCount;
use crate::detection::bloom::BloomFilter;
use crate::detection::flush::{
    block_decision, flush_windows, merge_counters, net_for, plan_flush, prior, promoted_spec, subnet_events, tally,
    IpCounters, IpGate,
};
use crate::enforcement::new_decision_id;
use crate::metrics::{BatchRecord, Metrics, HISTORY};
use crate::storage::store::{window_merged, lemma_index_add_keeps};
use crate::storage::traffic::window_of;
use crate::types::command::{EnforceAction, EnforceCommand};
use crate::types::ip_network::IpNetwork;
use crate::types::net::ip_to_string;
use crate::types::util::bounded_push;
use crate::detection::rate_tracker::{pulse_step_spec, pulse_tracker_step};
use crate::enforcement::stored;
use crate::storage::store::{expired_at, index_after, BlockState, EntryModel, IpRecord, Store, Value, ValueModel};
use crate::storage::subnet::subnet_key_u128;
use crate::types::ip_network::{pack_spec, subnet_of};
use crate::types::net::IpAddr;

verus! {

/// What the floating-point estimators concluded for one promoted address:
/// the new EWMA rate, slow baseline, CUSUM statistic and threat score (as
/// IEEE-754 bit patterns), whether the EWMA rate is over the threshold, and
/// whether the CUSUM statistic fired.
#[derive(Debug, Clone, Copy)]
pub struct RateVerdict {
    pub ewma_rps_bits: u64,
    pub baseline_rps_bits: u64,
    pub cusum_s_bits: u64,
    pub threat_score_bits: u32,
    pub over_threshold: bool,
    pub cusum_fired: bool,
}

/// What merging one address's flush did.
#[derive(Debug, Clone, Copy)]
pub struct MergeOutcome {
    /// The merged record.
    pub record: IpRecord,
    /// Whether the address is to be blocked.
    pub should_block: bool,
    /// Whether its record was already blocked.
    pub was_blocked: bool,
    /// Whether the store took the record (a new address over the memory
    /// limit is refused).
    pub stored: bool,
}

/// The live address record under `ip` at `now`, if any.
pub open spec fn prior_record(e: Map<IpAddr, EntryModel>, ip: IpAddr, now: u64) -> Option<IpRecord> {
    match e.get(ip) {
        Some(x) => if !expired_at(x, now) && x.value is IpRecord {
            Some(x.value->IpRecord_0)
        } else {
            None
        },
        None => None,
    }
}

/// `a + b`, clamped to `u32::MAX`.
pub open spec fn sat_add_u32_spec(a: u32, b: u32) -> u32 {
    if a + b > u32::MAX {
        u32::MAX
    } else {
        (a + b) as u32
    }
}

/// The pulse-wave step of an address with prior record `p`.
pub open spec fn pulse_of(p: Option<IpRecord>, v: RateVerdict, now: u64, pw: u64, pt: u8) -> (u8, u64, bool) {
    let (c, s): (u8, u64) = match p {
        Some(b) => (b.pulse_samples_in_window, b.pulse_window_start_ns),
        None => (0, 0),
    };
    pulse_step_spec(c, s, now, v.over_threshold, pw, pt)
}

/// Whether an address with prior record `p` is blocked this flush: its
/// rate is over the threshold for the second sample in a row, its CUSUM
/// fired, or the pulse-wave tracker fired.
pub open spec fn block_for(p: Option<IpRecord>, v: RateVerdict, now: u64, pw: u64, pt: u8) -> bool {
    let prev_hot = match p {
        Some(b) => b.prev_sample_hot,
        None => false,
    };
    (v.over_threshold && prev_hot) || v.cusum_fired || pulse_of(p, v, now, pw, pt).2
}

/// Whether `r` is the record after merging `agg` and the verdict `v` into
/// the prior record `p` (a fresh record first and last seen at the
/// flush's times when there is none): counters add (saturating), the
/// tracking window halves the request count once it has passed, the
/// estimator results are taken, the debounce latch and the pulse tracker
/// step, and the block state is left as it was.
pub open spec fn record_merged(
    p: Option<IpRecord>,
    ip: IpAddr,
    agg: IpAgg,
    v: RateVerdict,
    window_ns: u64,
    now: u64,
    pw: u64,
    pt: u8,
    r: IpRecord,
) -> bool {
    let is_new = p is None;
    let b = p->Some_0;
    let b_req: u64 = if is_new { 0 } else { b.request_count };
    let b_first: u64 = if is_new { agg.first_ts_ns } else { b.first_seen_ns };
    let b_bytes: u64 = if is_new { 0 } else { b.bytes_in };
    let b_samples: u8 = if is_new { 0 } else { b.sample_count };
    let added = sat_add_u64_spec(b_req, agg.count as u64);
    let rolled = sat_sub_u64_spec(now, b_first) > window_ns;
    let pulse = pulse_of(p, v, now, pw, pt);
    &&& r.ip == (if is_new { ip } else { b.ip })
    &&& r.request_count == (if rolled { added / 2 } else { added })
    &&& r.first_seen_ns == (if rolled { now } else { b_first })
    &&& r.last_seen_ns == agg.last_ts_ns
    &&& r.bytes_in == sat_add_u64_spec(b_bytes, agg.bytes)
    &&& forall|i: int|
        0 <= i < 5 ==> #[trigger] r.status_dist[i] == sat_add_u32_spec(
            if is_new { 0 } else { b.status_dist[i] },
            agg.status_dist[i],
        )
    &&& r.sample_count == (if b_samples == u8::MAX { u8::MAX } else { (b_samples + 1) as u8 })
    &&& r.prev_sample_hot == v.over_threshold
    &&& r.ewma_rps_bits == v.ewma_rps_bits
    &&& r.baseline_rps_bits == v.baseline_rps_bits
    &&& r.cusum_s_bits == v.cusum_s_bits
    &&& r.threat_score_bits == v.threat_score_bits
    &&& r.proto_fingerprint == (if is_new { agg.proto_fp } else { b.proto_fingerprint })
    &&& r.block_state == (if is_new { BlockState::Clean } else { b.block_state })
    &&& r.pulse_samples_in_window == pulse.0
    &&& r.pulse_window_start_ns == pulse.1
}

/// Whether the entries `e1` hold, under `ip`, the record merged from its
/// prior record in `e0` (without expiry).
pub open spec fn merged_into(
    e0: Map<IpAddr, EntryModel>,
    e1: Map<IpAddr, EntryModel>,
    ip: IpAddr,
    agg: IpAgg,
    v: RateVerdict,
    window_ns: u64,
    now: u64,
    pw: u64,
    pt: u8,
) -> bool {
    exists|rec: IpRecord|
        #[trigger] record_merged(prior_record(e0, ip, now), ip, agg, v, window_ns, now, pw, pt, rec) && e1.get(ip)
            == Some(EntryModel { value: ValueModel::IpRecord(rec), expires_at_ns: None })
}

/// The subnet key an address is indexed under.
pub open spec fn index_key(ip: IpAddr) -> u128 {
    pack_spec(subnet_of(ip))
}

fn fresh_record(ip: IpAddr, agg: &IpAgg) -> (r: IpRecord)
    ensures
        r.ip == ip,
        r.request_count == 0,
        r.first_seen_ns == agg.first_ts_ns,
        r.last_seen_ns == agg.last_ts_ns,
        r.bytes_in == 0,
        forall|i: int| 0 <= i < 5 ==> #[trigger] r.status_dist[i] == 0,
        r.sample_count == 0,
        !r.prev_sample_hot,
        r.proto_fingerprint == agg.proto_fp,
        r.block_state == BlockState::Clean,
        r.pulse_samples_in_window == 0,
        r.pulse_window_start_ns == 0,
{
    IpRecord {
        ip,
        request_count: 0,
        ewma_rps_bits: 0,
        cusum_s_bits: 0,
        baseline_rps_bits: 0,
        prev_sample_hot: false,
        sample_count: 0,
        first_seen_ns: agg.first_ts_ns,
        last_seen_ns: agg.last_ts_ns,
        bytes_in: 0,
        status_dist: [0u32; 5],
        proto_fingerprint: agg.proto_fp,
        threat_score_bits: 0,
        block_state: BlockState::Clean,
        pulse_samples_in_window: 0,
        pulse_window_start_ns: 0,
    }
}

/// Merge one promoted address's flush into its tracked record at `now_ns`
/// (see `record_merged`, with the tracking window of `rate_window_secs`
/// and the pulse-wave window `pulse_window_secs` and threshold
/// `pulse_threshold`), store it without expiry under `ram_limit_bytes`,
/// and index the address under its subnet. Returns the record, whether to
/// block it (see `block_for`), whether it was already blocked, and whether
/// the store took it.
pub fn merge_record(
    store: &mut Store,
    ip: IpAddr,
    agg: &IpAgg,
    verdict: &RateVerdict,
    rate_window_secs: u64,
    pulse_window_secs: u64,
    pulse_threshold: u8,
    ram_limit_bytes: usize,
    now_ns: u64,
) -> (r: MergeOutcome)
    ensures
        ({
            let p = prior_record(old(store).entries(), ip, now_ns);
            &&& record_merged(
                p,
                ip,
                *agg,
                *verdict,
                sat_mul_u64_spec(rate_window_secs, 1_000_000_000),
                now_ns,
                pulse_window_secs,
                pulse_threshold,
                r.record,
            )
            &&& r.should_block == block_for(p, *verdict, now_ns, pulse_window_secs, pulse_threshold)
            &&& r.was_blocked == (p is Some && p->Some_0.block_state is Blocked)
        }),
        stored(*old(store), *final(store), ip, r.record, ram_limit_bytes, r.stored),
        final(store).members() == index_after(old(store).members(), ip, Some(index_key(ip)), false),
        final(store).subnets() == old(store).subnets(),
        final(store).traffic.wf() == old(store).traffic.wf(),
        final(store).traffic.window() == old(store).traffic.window(),
        final(store).traffic.threats() == old(store).traffic.threats(),
        final(store).traffic.events_last_second == old(store).traffic.events_last_second,
        final(store).traffic.unique_ips_window == old(store).traffic.unique_ips_window,
        final(store).traffic.promoted_ips == old(store).traffic.promoted_ips,
{
    let window_ns = sat_mul_u64(rate_window_secs, 1_000_000_000);
    let base: IpRecord = match store.get(ip, now_ns) {
        Some(Value::IpRecord(rec)) => rec,
        _ => fresh_record(ip, agg),
    };
    let ghost p = prior_record(store.entries(), ip, now_ns);
    assert(p is Some ==> base == p->Some_0);
    let was_blocked: bool = match base.block_state {
        BlockState::Blocked { .. } => true,
        _ => false,
    };
    let mut c = IpCounters {
        request_count: base.request_count,
        first_seen_ns: base.first_seen_ns,
        last_seen_ns: base.last_seen_ns,
        bytes_in: base.bytes_in,
        status_dist: base.status_dist,
        sample_count: base.sample_count,
        prev_sample_hot: base.prev_sample_hot,
        pulse_samples_in_window: base.pulse_samples_in_window,
        pulse_window_start_ns: base.pulse_window_start_ns,
    };
    merge_counters(&mut c, agg, now_ns, window_ns);
    let (pulse_count, pulse_start, pulse_fired) = pulse_tracker_step(
        base.pulse_samples_in_window,
        base.pulse_window_start_ns,
        now_ns,
        verdict.over_threshold,
        pulse_window_secs,
        pulse_threshold,
    );
    let (should_block, latch) = block_decision(
        verdict.over_threshold,
        base.prev_sample_hot,
        verdict.cusum_fired,
        pulse_fired,
    );
    let rec = IpRecord {
        ip: base.ip,
        request_count: c.request_count,
        ewma_rps_bits: verdict.ewma_rps_bits,
        cusum_s_bits: verdict.cusum_s_bits,
        baseline_rps_bits: verdict.baseline_rps_bits,
        prev_sample_hot: latch,
        sample_count: c.sample_count,
        first_seen_ns: c.first_seen_ns,
        last_seen_ns: c.last_seen_ns,
        bytes_in: c.bytes_in,
        status_dist: c.status_dist,
        proto_fingerprint: base.proto_fingerprint,
        threat_score_bits: verdict.threat_score_bits,
        block_state: base.block_state,
        pulse_samples_in_window: pulse_count,
        pulse_window_start_ns: pulse_start,
    };
    let ok = store.insert(ip, Value::IpRecord(rec), None, ram_limit_bytes, now_ns).is_ok();
    store.update_subnet_index(ip, subnet_key_u128(ip), false);
    MergeOutcome { record: rec, should_block, was_blocked, stored: ok }
}

/// Whether subnet `k` is hot in a flush: its listed event count (the first
/// listed for it) reaches `threshold`; a subnet not listed is not.
pub open spec fn hot_of(cs: Seq<SubnetCount>, k: u128, threshold: u64) -> bool
    decreases cs.len(),
{
    if cs.len() == 0 {
        false
    } else if cs[0].key == k {
        cs[0].events >= threshold
    } else {
        hot_of(cs.drop_first(), k, threshold)
    }
}

fn subnet_hot_in(cs: &Vec<SubnetCount>, k: u128, threshold: u64) -> (r: bool)
    ensures
        r == hot_of(cs@, k, threshold),
{
    let n = cs.len();
    let mut i: usize = 0;
    assert(cs@.skip(0) =~= cs@);
    while i < n
        invariant
            n == cs@.len(),
            i <= n,
            hot_of(cs@, k, threshold) == hot_of(cs@.skip(i as int), k, threshold),
        decreases n - i,
    {
        assert(cs@.skip(i as int).drop_first() =~= cs@.skip(i + 1));
        if cs[i].key == k {
            return cs[i].events as u64 >= threshold;
        }
        i = i + 1;
    }
    assert(cs@.skip(n as int) =~= Seq::<SubnetCount>::empty());
    false
}

/// The addresses a flush blocks, in order: among the first `n`, each
/// promoted address whose merge decides a block.
pub open spec fn flushed_blocks(
    aggs: Seq<(IpAddr, IpAgg)>,
    gates: Seq<IpGate>,
    verdicts: Seq<RateVerdict>,
    e0: Map<IpAddr, EntryModel>,
    promote_min: u32,
    now: u64,
    pw: u64,
    pt: u8,
    n: int,
) -> Seq<IpAddr>
    decreases n,
{
    if n <= 0 {
        Seq::empty()
    } else {
        let r = flushed_blocks(aggs, gates, verdicts, e0, promote_min, now, pw, pt, n - 1);
        let ip = aggs[n - 1].0;
        if promoted_spec(gates[n - 1], promote_min) && block_for(
            prior_record(e0, ip, now),
            verdicts[n - 1],
            now,
            pw,
            pt,
        ) {
            r.push(ip)
        } else {
            r
        }
    }
}

/// Whether `c` is the rate block of `ip` with TTL `ttl`, stamped `secs`.
pub open spec fn is_rate_block(c: EnforceCommand, ip: IpAddr, ttl: u64, secs: int) -> bool {
    &&& c.ip == ip
    &&& c.action == EnforceAction::Block
    &&& c.policy_version == 1
    &&& c.source@ == "detection"@
    &&& c.actor@ == "system"@
    &&& c.reason@ == "high_rps"@
    &&& c.ttl_seconds == ttl
    &&& c.timestamp_utc == secs
}

/// The block command the detection engine sends for an address.
pub fn rate_block_command(ip: IpAddr, ttl_secs: u64, decision_id: u128, timestamp_utc: i64) -> (c: EnforceCommand)
    ensures
        is_rate_block(c, ip, ttl_secs, timestamp_utc as int),
        c.decision_id == decision_id,
{
    EnforceCommand {
        decision_id,
        policy_version: 1,
        source: "detection".to_string(),
        actor: "system".to_string(),
        timestamp_utc,
        ttl_seconds: ttl_secs,
        reason: "high_rps".to_string(),
        ip,
        action: EnforceAction::Block,
    }
}

/// The events of a flush's addresses, summed.
pub open spec fn agg_events(aggs: Seq<(IpAddr, IpAgg)>) -> nat
    decreases aggs.len(),
{
    if aggs.len() == 0 {
        0
    } else {
        agg_events(aggs.drop_last()) + aggs.last().1.count as nat
    }
}

proof fn lemma_tally_totals(gs: Seq<IpGate>, aggs: Seq<(IpAddr, IpAgg)>, m: u32)
    requires
        gs.len() == aggs.len(),
        forall|i: int| 0 <= i < gs.len() ==> #[trigger] gs[i].count == aggs[i].1.count,
    ensures
        tally(gs, m).0 + tally(gs, m).1 == gs.len(),
        tally(gs, m).2 + tally(gs, m).3 == agg_events(aggs),
    decreases gs.len(),
{
    if gs.len() > 0 {
        assert forall|i: int| 0 <= i < gs.drop_last().len() implies #[trigger] gs.drop_last()[i].count
            == aggs.drop_last()[i].1.count by {
            assert(gs[i].count == aggs[i].1.count);
        }
        lemma_tally_totals(gs.drop_last(), aggs.drop_last(), m);
        assert(gs[gs.len() - 1].count == aggs[aggs.len() - 1].1.count);
    }
}

/// What a flush step decided: each address's gate (its events, whether its
/// subnet is hot, and whether the Bloom filter recognised it), the blocked
/// addresses in order, one block command per blocked address, and the
/// batch record.
pub struct FlushOutcome {
    pub gates: Vec<IpGate>,
    pub blocks: Vec<IpAddr>,
    pub commands: Vec<EnforceCommand>,
    pub batch: BatchRecord,
}

/// One flush of the detection engine at `now_ns`, over `window_ns` of
/// traffic with `total_events` events:
/// - the flush window is recorded (`flush_windows`);
/// - each address is gated: promoted with enough events, a hot subnet, or
///   a Bloom hit; a cold address is skipped and its entry left alone;
/// - each promoted address has its flush merged into its record with its
///   verdict (`merge_record`), stored unless the store refuses a new
///   address, and indexed under its subnet;
/// - the addresses whose merge decides a block are blocked: added to the
///   Bloom filter, logged, and sent as rate-block commands with the
///   detection TTL;
/// - the promoted count and the batch record are kept.
pub fn flush_step(
    store: &mut Store,
    bloom: &mut BloomFilter,
    metrics: &mut Metrics,
    aggs: &Vec<(IpAddr, IpAgg)>,
    subnets: &Vec<SubnetCount>,
    networks: &Vec<(u128, IpNetwork)>,
    verdicts: &Vec<RateVerdict>,
    det: &crate::config::DetectionConfig,
    pulse_window_secs: u64,
    pulse_threshold: u8,
    ram_limit_bytes: usize,
    total_events: u64,
    window_ns: u64,
    now_ns: u64,
) -> (r: FlushOutcome)
    requires
        old(store).traffic.wf(),
        old(bloom).wf(),
        old(bloom).size_spec() > 0,
        old(metrics).wf(),
        window_ns > 0,
        verdicts@.len() == aggs@.len(),
        aggs@.len() <= u32::MAX,
        agg_events(aggs@) <= u32::MAX,
        forall|i: int, j: int| 0 <= i < j < aggs@.len() ==> #[trigger] aggs@[i].0 != #[trigger] aggs@[j].0,
        forall|i: int, j: int| 0 <= i < j < subnets@.len() ==> #[trigger] subnets@[i].key != #[trigger] subnets@[j].key,
    ensures
        ({
            let s0 = *old(store);
            let e0 = s0.entries();
            let n = aggs@.len();
            let win = sat_mul_u64_spec(det.rate_window_secs, 1_000_000_000);
            &&& r.gates@.len() == n
            &&& forall|i: int|
                0 <= i < n ==> (#[trigger] r.gates@[i]).count == aggs@[i].1.count && r.gates@[i].subnet_hot
                    == hot_of(subnets@, index_key(aggs@[i].0), det.subnet_window_threshold)
            &&& r.blocks@ == flushed_blocks(
                aggs@,
                r.gates@,
                verdicts@,
                e0,
                det.promote_min_events,
                now_ns,
                pulse_window_secs,
                pulse_threshold,
                n as int,
            )
            &&& r.commands@.len() == r.blocks@.len()
            &&& forall|i: int|
                0 <= i < r.commands@.len() ==> is_rate_block(
                    #[trigger] r.commands@[i],
                    r.blocks@[i],
                    det.block_ttl_secs,
                    (now_ns / 1_000_000_000) as int,
                )
            &&& forall|i: int|
                0 <= i < n && promoted_spec(#[trigger] r.gates@[i], det.promote_min_events) ==> {
                    &&& merged_into(e0, final(store).entries(), aggs@[i].0, aggs@[i].1, verdicts@[i], win, now_ns, pulse_window_secs, pulse_threshold) || (!e0.contains_key(aggs@[i].0) && !final(store).entries().contains_key(aggs@[i].0))
                    &&& final(store).members().contains_key(index_key(aggs@[i].0))
                    &&& final(store).members()[index_key(aggs@[i].0)].contains(aggs@[i].0)
                }
            &&& forall|i: int|
                0 <= i < n && !promoted_spec(#[trigger] r.gates@[i], det.promote_min_events) ==> final(store).entries().get(aggs@[i].0) == e0.get(aggs@[i].0)
            &&& forall|k: IpAddr|
                (forall|i: int| 0 <= i < n ==> (#[trigger] aggs@[i]).0 != k) ==> #[trigger] final(store).entries().get(k) == e0.get(k)
            &&& final(store).traffic.wf()
            &&& final(store).traffic.events_last_second == sat_mul_u64_spec(total_events, 1_000_000_000)
                / window_ns
            &&& final(store).traffic.unique_ips_window == n
            &&& final(store).traffic.window() == window_of(subnet_events(subnets@))
            &&& final(store).traffic.promoted_ips == tally(r.gates@, det.promote_min_events).0
            &&& forall|i: int|
                0 <= i < subnets@.len() ==> {
                    let c = #[trigger] subnets@[i];
                    &&& final(store).subnets().contains_key(c.key)
                    &&& window_merged(
                        prior(s0.subnets(), c.key),
                        net_for(networks@, c.key),
                        c.events,
                        c.members@,
                        now_ns,
                        final(store).subnets()[c.key],
                    )
                }
            &&& r.batch == (BatchRecord {
                ts_ms: now_ns / 1_000_000,
                events: #[verifier::truncate] (total_events as u32),
                unique_ips: n as u32,
                promoted: tally(r.gates@, det.promote_min_events).0 as u32,
                cold_skipped: tally(r.gates@, det.promote_min_events).1 as u32,
                promoted_events: tally(r.gates@, det.promote_min_events).2 as u32,
                cold_skipped_events: tally(r.gates@, det.promote_min_events).3 as u32,
                blocks: r.blocks@.len() as u32,
                hot_subnets: subnets@.len() as u32,
            })
        }),
        final(metrics).wf(),
        final(metrics).last_batch == Some(r.batch),
        final(bloom).wf(),
        final(bloom).size_spec() == old(bloom).size_spec(),
        old(bloom).positions().subset_of(final(bloom).positions()),
{
    let n = aggs.len();
    flush_windows(store, subnets, networks, total_events, n as u64, window_ns, now_ns);
    let ghost e0 = store.entries();
    assert(e0 == old(store).entries());
    // Gate every address.
    let mut gates: Vec<IpGate> = Vec::new();
    let mut i: usize = 0;
    while i < n
        invariant
            n == aggs@.len(),
            i <= n,
            gates@.len() == i,
            bloom.wf(),
            bloom.size_spec() > 0,
            forall|a: int|
                0 <= a < i ==> (#[trigger] gates@[a]).count == aggs@[a].1.count && gates@[a].subnet_hot
                    == hot_of(subnets@, index_key(aggs@[a].0), det.subnet_window_threshold),
        decreases n - i,
    {
        let ip = aggs[i].0;
        let key = match subnet_key_u128(ip) {
            Some(k) => k,
            None => 0,
        };
        let hot = subnet_hot_in(subnets, key, det.subnet_window_threshold);
        let hit = bloom.contains(ip);
        gates.push(IpGate { count: aggs[i].1.count, subnet_hot: hot, bloom_hit: hit });
        i = i + 1;
    }
    proof {
        lemma_tally_totals(gates@, aggs@, det.promote_min_events);
    }
    let plan = plan_flush(gates.as_slice(), det.promote_min_events);
    // Merge the promoted addresses.
    let mut blocks: Vec<IpAddr> = Vec::new();
    let mut commands: Vec<EnforceCommand> = Vec::new();
    let secs: i64 = (now_ns / 1_000_000_000) as i64;
    let ghost t1 = store.traffic;
    let ghost sub1 = store.subnets();
    let mut j: usize = 0;
    while j < n
        invariant
            n == aggs@.len(),
            n == verdicts@.len(),
            n == gates@.len(),
            j <= n,
            plan.promote@.len() == n,
            forall|a: int| 0 <= a < n ==> plan.promote@[a] == promoted_spec(#[trigger] gates@[a], det.promote_min_events),
            forall|a: int, b: int| 0 <= a < b < aggs@.len() ==> #[trigger] aggs@[a].0 != #[trigger] aggs@[b].0,
            secs == now_ns / 1_000_000_000,
            e0 == old(store).entries(),
            blocks@ == flushed_blocks(
                aggs@,
                gates@,
                verdicts@,
                e0,
                det.promote_min_events,
                now_ns,
                pulse_window_secs,
                pulse_threshold,
                j as int,
            ),
            commands@.len() == blocks@.len(),
            forall|c: int|
                0 <= c < commands@.len() ==> is_rate_block(
                    #[trigger] commands@[c],
                    blocks@[c],
                    det.block_ttl_secs,
                    secs as int,
                ),
            forall|a: int|
                0 <= a < j && promoted_spec(#[trigger] gates@[a], det.promote_min_events) ==> {
                    &&& merged_into(e0, store.entries(), aggs@[a].0, aggs@[a].1, verdicts@[a], sat_mul_u64_spec(det.rate_window_secs, 1_000_000_000), now_ns, pulse_window_secs, pulse_threshold) || (!e0.contains_key(aggs@[a].0) && !store.entries().contains_key(aggs@[a].0))
                    &&& store.members().contains_key(index_key(aggs@[a].0))
                    &&& store.members()[index_key(aggs@[a].0)].contains(aggs@[a].0)
                },
            forall|a: int|
                0 <= a < j && !promoted_spec(#[trigger] gates@[a], det.promote_min_events) ==> store.entries().get(
                    aggs@[a].0,
                ) == e0.get(aggs@[a].0),
            forall|k: IpAddr|
                (forall|a: int| 0 <= a < j ==> (#[trigger] aggs@[a]).0 != k) ==> #[trigger] store.entries().get(k)
                    == e0.get(k),
            store.traffic.wf() == t1.wf(),
            store.traffic.window() == t1.window(),
            store.traffic.events_last_second == t1.events_last_second,
            store.traffic.unique_ips_window == t1.unique_ips_window,
            store.subnets() == sub1,
        decreases n - j,
    {
        let ip = aggs[j].0;
        proof {
            assert(forall|a: int| 0 <= a < j ==> (#[trigger] aggs@[a]).0 != ip);
            assert(store.entries().get(ip) == e0.get(ip));
        }
        let ghost before = store.entries();
        let ghost mb = store.members();
        if plan.promote[j] {
            let out = merge_record(
                store,
                ip,
                &aggs[j].1,
                &verdicts[j],
                det.rate_window_secs,
                pulse_window_secs,
                pulse_threshold,
                ram_limit_bytes,
                now_ns,
            );
            proof {
                assert(prior_record(before, ip, now_ns) == prior_record(e0, ip, now_ns));
            }
            if out.should_block {
                blocks.push(ip);
                commands.push(rate_block_command(ip, det.block_ttl_secs, new_decision_id(), secs));
            }
            proof {
                assert forall|a: int|
                    0 <= a < j + 1 && promoted_spec(#[trigger] gates@[a], det.promote_min_events) implies {
                        &&& merged_into(e0, store.entries(), aggs@[a].0, aggs@[a].1, verdicts@[a], sat_mul_u64_spec(det.rate_window_secs, 1_000_000_000), now_ns, pulse_window_secs, pulse_threshold) || (!e0.contains_key(aggs@[a].0) && !store.entries().contains_key(aggs@[a].0))
                        &&& store.members().contains_key(index_key(aggs@[a].0))
                        &&& store.members()[index_key(aggs@[a].0)].contains(aggs@[a].0)
                    } by {
                    let ipa = aggs@[a].0;
                    if a < j {
                        assert(aggs@[a].0 != aggs@[j as int].0);
                        assert(store.entries().get(ipa) == before.get(ipa));
                        lemma_index_add_keeps(mb, ip, index_key(ip), index_key(ipa), ipa);
                    } else {
                        crate::storage::store::lemma_index_add_remove(mb, ip, index_key(ip));
                        if out.stored {
                            assert(record_merged(
                                prior_record(e0, ip, now_ns),
                                ip,
                                aggs@[a].1,
                                verdicts@[a],
                                sat_mul_u64_spec(det.rate_window_secs, 1_000_000_000),
                                now_ns,
                                pulse_window_secs,
                                pulse_threshold,
                                out.record,
                            ));
                            assert(store.entries().get(ip) == Some(
                                EntryModel { value: ValueModel::IpRecord(out.record), expires_at_ns: None },
                            ));
                        }
                    }
                }
                assert forall|a: int|
                    0 <= a < j + 1 && !promoted_spec(#[trigger] gates@[a], det.promote_min_events) implies store.entries().get(
                        aggs@[a].0,
                    ) == e0.get(aggs@[a].0) by {
                    assert(aggs@[a].0 != aggs@[j as int].0 || a == j);
                }
                assert forall|k: IpAddr|
                    (forall|a: int| 0 <= a < j + 1 ==> (#[trigger] aggs@[a]).0 != k) implies #[trigger] store.entries().get(k)
                    == e0.get(k) by {
                    assert(aggs@[j as int].0 != k);
                    assert(before.get(k) == e0.get(k));
                }
            }
        } else {
            proof {
                assert forall|a: int|
                    0 <= a < j + 1 && !promoted_spec(#[trigger] gates@[a], det.promote_min_events) implies store.entries().get(
                        aggs@[a].0,
                    ) == e0.get(aggs@[a].0) by {
                    if a == j {
                        assert(store.entries().get(ip) == e0.get(ip));
                    }
                }
            }
        }
        j = j + 1;
    }
    // Remember the blocks in the Bloom filter, and log them.
    let nb = blocks.len();
    let mut b: usize = 0;
    let ghost bloom0 = bloom.positions();
    let ts_ms: u64 = now_ns / 1_000_000;
    while b < nb
        invariant
            nb == blocks@.len(),
            b <= nb,
            bloom.wf(),
            bloom.size_spec() == old(bloom).size_spec(),
            bloom.size_spec() > 0,
            bloom0 == old(bloom).positions(),
            bloom0.subset_of(bloom.positions()),
            metrics.wf(),
        decreases nb - b,
    {
        let ip = blocks[b];
        bloom.insert(ip);
        let text = ip_to_string(&ip);
        metrics.record_block_at(ts_ms, text.as_str(), "high_rps", "detection");
        b = b + 1;
    }
    store.traffic.promoted_ips = plan.promoted as u64;
    let batch = BatchRecord {
        ts_ms,
        events: #[verifier::truncate] (total_events as u32),
        unique_ips: n as u32,
        promoted: plan.promoted,
        cold_skipped: plan.cold_skipped,
        promoted_events: plan.promoted_events,
        cold_skipped_events: plan.cold_skipped_events,
        blocks: nb as u32,
        hot_subnets: subnets.len() as u32,
    };
    metrics.record_batch(batch);
    FlushOutcome { gates, blocks, commands, batch }
}

} // verus!
