//! Adaptive brute-force detection over authentication failures: a sliding
//! window counter per source address whose threshold drops with every
//! block (down to a floor), with a cooldown that re-arms the counter.

use vstd::prelude::*;
use crate::arith::{sat_mul_u64, sat_mul_u64_spec, sat_sub_u64_spec};
use vstd::string::StringExecFns;
use crate::text::{append_decimal, decimal};
use crate::types::net::IpAddr;
use dashmap::DashMap;

verus! {

/// Detection settings.
#[derive(Debug, Clone, Copy, PartialEq, Eq, Structural)]
pub struct DetectionConfig {
    /// Failures within `window_secs` that trigger the first block.
    pub max_failures: u64,
    /// Sliding window length in seconds.
    pub window_secs: u64,
    /// Block duration in seconds (cooldown before the counter re-arms).
    pub block_ttl_secs: u64,
    /// Escalation never lowers the threshold below this.
    pub adaptive_floor: u64,
    /// Idle entries older than this many seconds are evicted.
    pub evict_idle_secs: u64,
}

impl Default for DetectionConfig {
    fn default() -> (r: Self)
        ensures
            r == (DetectionConfig {
                max_failures: 5,
                window_secs: 60,
                block_ttl_secs: 3600,
                adaptive_floor: 3,
                evict_idle_secs: 86_400,
            }),
    {
        DetectionConfig {
            max_failures: 5,
            window_secs: 60,
            block_ttl_secs: 3600,
            adaptive_floor: 3,
            evict_idle_secs: 86_400,
        }
    }
}

/// Why a block was issued.
#[derive(Debug, Clone, Copy, PartialEq, Eq, Structural)]
pub enum BlockReason {
    BruteForce,
    BehavioralAnomaly,
    Manual,
}

impl BlockReason {
    /// The reason's wire token.
    pub fn as_str(&self) -> (s: &'static str)
        ensures
            s@ == (match *self {
                BlockReason::BruteForce => "brute_force"@,
                BlockReason::BehavioralAnomaly => "behavioral_anomaly"@,
                BlockReason::Manual => "manual"@,
            }),
    {
        match self {
            BlockReason::BruteForce => "brute_force",
            BlockReason::BehavioralAnomaly => "behavioral_anomaly",
            BlockReason::Manual => "manual",
        }
    }
}

/// An authentication event; `timestamp_ns` is a monotonic-clock reading.
#[derive(Debug, Clone)]
pub struct AuthEvent {
    pub ip: IpAddr,
    pub timestamp_ns: u64,
    /// Service the attempt hit.
    pub source: String,
    /// Whether the login succeeded.
    pub success: bool,
    pub username: Option<String>,
}

/// A block to issue.
#[derive(Debug, Clone)]
pub struct BlockCommand {
    pub ip: IpAddr,
    pub reason: BlockReason,
    pub ttl_secs: u64,
    pub context: String,
}

/// Failure bookkeeping of one source address; times are monotonic-clock
/// nanoseconds.
#[derive(Debug, Clone, Copy, PartialEq, Eq, Structural)]
pub struct AuthFailureCounter {
    pub failures: u64,
    pub first_failure_ns: u64,
    pub last_failure_ns: u64,
    /// Times this address has been blocked; drives escalation.
    pub blocks: u32,
    pub reported: bool,
    pub backoff_until_ns: Option<u64>,
}

/// The effective threshold after `blocks` strikes: the base minus one per
/// strike, never below the floor.
pub open spec fn threshold_spec(blocks: u32, cfg: DetectionConfig) -> u64 {
    let t = sat_sub_u64_spec(cfg.max_failures, blocks as u64);
    if t < cfg.adaptive_floor {
        cfg.adaptive_floor
    } else {
        t
    }
}

/// The counter after one failure at `now`, and whether it emits a block:
/// a finished cooldown re-arms the counter; a failure past the window
/// restarts it at one; reaching the threshold while not in cooldown emits a
/// block, adds a strike and starts the cooldown.
pub open spec fn record_spec(c: AuthFailureCounter, now: u64, cfg: DetectionConfig) -> (
    AuthFailureCounter,
    bool,
) {
    let rearm = c.reported && c.backoff_until_ns is Some && now >= c.backoff_until_ns->Some_0;
    let c1 = if rearm {
        AuthFailureCounter { reported: false, failures: 0, first_failure_ns: now, ..c }
    } else {
        c
    };
    let outside = sat_sub_u64_spec(now, c1.first_failure_ns) > sat_mul_u64_spec(
        cfg.window_secs,
        1_000_000_000,
    );
    let c2 = if outside {
        AuthFailureCounter { failures: 1, first_failure_ns: now, last_failure_ns: now, ..c1 }
    } else {
        AuthFailureCounter { failures: (c1.failures + 1) as u64, last_failure_ns: now, ..c1 }
    };
    if !c2.reported && c2.failures >= threshold_spec(c2.blocks, cfg) {
        (
            AuthFailureCounter {
                reported: true,
                blocks: (c2.blocks + 1) as u32,
                backoff_until_ns: Some((now + cfg.block_ttl_secs * 1_000_000_000) as u64),
                ..c2
            },
            true,
        )
    } else {
        (c2, false)
    }
}

impl AuthFailureCounter {
    /// A fresh counter created at `now_ns`.
    pub fn new(now_ns: u64) -> (r: Self)
        ensures
            r == (AuthFailureCounter {
                failures: 0,
                first_failure_ns: now_ns,
                last_failure_ns: now_ns,
                blocks: 0,
                reported: false,
                backoff_until_ns: None,
            }),
    {
        AuthFailureCounter {
            failures: 0,
            first_failure_ns: now_ns,
            last_failure_ns: now_ns,
            blocks: 0,
            reported: false,
            backoff_until_ns: None,
        }
    }

    /// The effective threshold.
    pub fn threshold(&self, cfg: &DetectionConfig) -> (r: u64)
        ensures
            r == threshold_spec(self.blocks, *cfg),
    {
        let t = cfg.max_failures.saturating_sub(self.blocks as u64);
        if t < cfg.adaptive_floor {
            cfg.adaptive_floor
        } else {
            t
        }
    }

    /// Record one failure at `now_ns`; returns whether a block is emitted.
    pub fn record(&mut self, now_ns: u64, cfg: &DetectionConfig) -> (fired: bool)
        requires
            old(self).failures < u64::MAX,
            old(self).blocks < u32::MAX,
            now_ns + cfg.block_ttl_secs * 1_000_000_000 <= u64::MAX,
        ensures
            (*final(self), fired) == record_spec(*old(self), now_ns, *cfg),
    {
        let rearm: bool = match self.backoff_until_ns {
            Some(t) => self.reported && now_ns >= t,
            None => false,
        };
        if rearm {
            self.reported = false;
            self.failures = 0;
            self.first_failure_ns = now_ns;
        }
        let window_ns: u64 = sat_mul_u64(cfg.window_secs, 1_000_000_000);
        if now_ns.saturating_sub(self.first_failure_ns) > window_ns {
            self.failures = 1;
            self.first_failure_ns = now_ns;
        } else {
            self.failures = self.failures + 1;
        }
        self.last_failure_ns = now_ns;
        if !self.reported && self.failures >= self.threshold(cfg) {
            self.reported = true;
            self.blocks = self.blocks + 1;
            self.backoff_until_ns = Some(now_ns + cfg.block_ttl_secs * 1_000_000_000);
            return true;
        }
        false
    }

    /// Whether the entry can be evicted at `now_ns`: not in a block, and
    /// idle for more than `idle_ns`.
    pub fn evictable(&self, now_ns: u64, idle_ns: u64) -> (r: bool)
        ensures
            r == (!self.reported && sat_sub_u64_spec(now_ns, self.last_failure_ns) > idle_ns),
    {
        !self.reported && now_ns.saturating_sub(self.last_failure_ns) > idle_ns
    }
}

/// Escalation law: a strike never raises the threshold, and the threshold
/// never drops below the floor.
pub proof fn lemma_threshold_escalates(b1: u32, b2: u32, cfg: DetectionConfig)
    requires
        b1 <= b2,
    ensures
        threshold_spec(b2, cfg) <= threshold_spec(b1, cfg),
        threshold_spec(b2, cfg) >= cfg.adaptive_floor,
{
}

/// Cooldown law: while a block's cooldown runs, no further block is
/// emitted however many failures arrive.
pub proof fn lemma_no_block_in_cooldown(c: AuthFailureCounter, now: u64, cfg: DetectionConfig)
    requires
        c.reported,
        c.backoff_until_ns is Some,
        now < c.backoff_until_ns->Some_0,
    ensures
        !record_spec(c, now, cfg).1,
        record_spec(c, now, cfg).0.reported,
{
}

/// Window law: the window is `window_secs` seconds. A failure at most
/// `window_secs` seconds after the start of the current window (with no
/// finished cooldown to re-arm) adds one to the count and keeps the window's
/// start; a failure later than that restarts the count at one, from now.
pub proof fn lemma_window_is_in_seconds(c: AuthFailureCounter, now: u64, cfg: DetectionConfig)
    requires
        !(c.reported && c.backoff_until_ns is Some && now >= c.backoff_until_ns->Some_0),
        c.failures < u64::MAX,
    ensures
        now <= c.first_failure_ns + cfg.window_secs * 1_000_000_000 ==> {
            &&& record_spec(c, now, cfg).0.failures == c.failures + 1
            &&& record_spec(c, now, cfg).0.first_failure_ns == c.first_failure_ns
        },
        now > c.first_failure_ns + cfg.window_secs * 1_000_000_000 ==> {
            &&& record_spec(c, now, cfg).0.failures == 1
            &&& record_spec(c, now, cfg).0.first_failure_ns == now
        },
        record_spec(c, now, cfg).0.last_failure_ns == now,
{
}

/// Detection law: from a fresh counter started at `t0`, `max_failures`
/// failures all within `window_secs` seconds of `t0` emit no block before
/// the last of them, and the last one emits a block (the threshold of a
/// counter with no strikes is `max_failures` when the floor does not
/// exceed it).
pub proof fn lemma_failures_within_window_block(
    cs: Seq<AuthFailureCounter>,
    times: Seq<u64>,
    fired: Seq<bool>,
    t0: u64,
    cfg: DetectionConfig,
)
    requires
        cfg.max_failures >= 1,
        cfg.adaptive_floor <= cfg.max_failures,
        times.len() == cfg.max_failures,
        cs.len() == times.len() + 1,
        fired.len() == times.len(),
        cs[0] == (AuthFailureCounter {
            failures: 0,
            first_failure_ns: t0,
            last_failure_ns: t0,
            blocks: 0,
            reported: false,
            backoff_until_ns: None,
        }),
        forall|i: int|
            0 <= i < times.len() ==> t0 <= #[trigger] times[i] <= t0 + cfg.window_secs * 1_000_000_000,
        forall|i: int|
            0 <= i < times.len() ==> (cs[i + 1], #[trigger] fired[i]) == record_spec(cs[i], times[i], cfg),
    ensures
        forall|i: int| 0 <= i < times.len() - 1 ==> !#[trigger] fired[i],
        fired[times.len() - 1],
{
    let n = times.len() as int;
    assert forall|i: int| 0 <= i < n - 1 implies !#[trigger] fired[i] by {
        lemma_fresh_run(cs, times, fired, t0, cfg, i + 1);
    }
    lemma_fresh_run(cs, times, fired, t0, cfg, n);
}

proof fn lemma_fresh_run(
    cs: Seq<AuthFailureCounter>,
    times: Seq<u64>,
    fired: Seq<bool>,
    t0: u64,
    cfg: DetectionConfig,
    k: int,
)
    requires
        cfg.max_failures >= 1,
        cfg.adaptive_floor <= cfg.max_failures,
        times.len() == cfg.max_failures,
        cs.len() == times.len() + 1,
        fired.len() == times.len(),
        cs[0] == (AuthFailureCounter {
            failures: 0,
            first_failure_ns: t0,
            last_failure_ns: t0,
            blocks: 0,
            reported: false,
            backoff_until_ns: None,
        }),
        forall|i: int|
            0 <= i < times.len() ==> t0 <= #[trigger] times[i] <= t0 + cfg.window_secs * 1_000_000_000,
        forall|i: int|
            0 <= i < times.len() ==> (cs[i + 1], #[trigger] fired[i]) == record_spec(cs[i], times[i], cfg),
        0 <= k <= times.len(),
    ensures
        k < times.len() ==> {
            &&& cs[k].failures == k
            &&& cs[k].first_failure_ns == t0
            &&& cs[k].blocks == 0
            &&& !cs[k].reported
            &&& cs[k].backoff_until_ns is None
        },
        k > 0 ==> fired[k - 1] == (k == times.len()),
    decreases k,
{
    if k > 0 {
        lemma_fresh_run(cs, times, fired, t0, cfg, k - 1);
        let t = times[k - 1];
        assert((cs[k], fired[k - 1]) == record_spec(cs[k - 1], t, cfg));
        assert(threshold_spec(0, cfg) == cfg.max_failures);
    }
}

/// Strike law: with no strikes the threshold is `max_failures` (or the
/// floor, if that is higher), and each strike lowers it by exactly one until
/// it reaches the floor, where it stays.
pub proof fn lemma_threshold_steps_down(b: u32, cfg: DetectionConfig)
    requires
        b < u32::MAX,
    ensures
        threshold_spec(0, cfg) == (if cfg.max_failures >= cfg.adaptive_floor {
            cfg.max_failures
        } else {
            cfg.adaptive_floor
        }),
        threshold_spec(b, cfg) > cfg.adaptive_floor ==> threshold_spec((b + 1) as u32, cfg)
            == threshold_spec(b, cfg) - 1,
        threshold_spec(b, cfg) == cfg.adaptive_floor ==> threshold_spec((b + 1) as u32, cfg)
            == cfg.adaptive_floor,
{
}

/// Block law: a failure emits a block exactly when, after any finished
/// cooldown has re-armed the counter, the counter is not in a cooldown and
/// its count (one more, or one when the window restarted) has reached the
/// threshold; a block adds a strike and starts a cooldown of
/// `block_ttl_secs` seconds from now, and a finished cooldown restarts the
/// count from now.
pub proof fn lemma_block_emission(c: AuthFailureCounter, now: u64, cfg: DetectionConfig)
    requires
        c.failures < u64::MAX,
        c.blocks < u32::MAX,
        now + cfg.block_ttl_secs * 1_000_000_000 <= u64::MAX,
    ensures
        ({
            let (c2, fired) = record_spec(c, now, cfg);
            let rearm = c.reported && c.backoff_until_ns is Some && now >= c.backoff_until_ns->Some_0;
            &&& rearm ==> c2.first_failure_ns == now && c2.failures == 1
            &&& fired <==> (!(c.reported && !rearm) && c2.failures >= threshold_spec(c.blocks, cfg))
            &&& fired ==> {
                &&& c2.reported
                &&& c2.blocks == c.blocks + 1
                &&& c2.backoff_until_ns == Some((now + cfg.block_ttl_secs * 1_000_000_000) as u64)
            }
            &&& !fired ==> c2.blocks == c.blocks && c2.backoff_until_ns == c.backoff_until_ns
        }),
{
}

/// Aggregate statistics.
#[derive(Debug, Clone, Copy, PartialEq, Eq, Structural)]
pub struct StatsSnapshot {
    pub ips_tracked: usize,
    pub currently_blocked: usize,
    pub total_failures: u64,
}

impl Default for StatsSnapshot {
    fn default() -> (r: Self)
        ensures
            r == (StatsSnapshot { ips_tracked: 0, currently_blocked: 0, total_failures: 0 }),
    {
        StatsSnapshot { ips_tracked: 0, currently_blocked: 0, total_failures: 0 }
    }
}

/// Whether no address appears twice in a listing of the counters.
pub open spec fn distinct_ips(s: Seq<(IpAddr, AuthFailureCounter)>) -> bool {
    forall|i: int, j: int| 0 <= i < j < s.len() ==> #[trigger] s[i].0 != #[trigger] s[j].0
}

/// Whether `s` lists the counters of `m`, each address once.
pub open spec fn lists(s: Seq<(IpAddr, AuthFailureCounter)>, m: Map<IpAddr, AuthFailureCounter>) -> bool {
    &&& distinct_ips(s)
    &&& forall|i: int| 0 <= i < s.len() ==> m.contains_key(#[trigger] s[i].0) && m[s[i].0] == s[i].1
    &&& forall|k: IpAddr| #[trigger] m.contains_key(k) ==> exists|i: int| 0 <= i < s.len() && s[i].0 == k
}

/// The text of a block's context line.
pub open spec fn block_context(failures: u64, window_secs: u64, source: Seq<char>, strikes: u32) -> Seq<char> {
    decimal(failures as nat) + " failures in "@ + decimal(window_secs as nat) + "s from "@ + source
        + " (strikes: "@ + decimal(strikes as nat) + ")"@
}

/// The counters a detector's map holds.
pub uninterp spec fn failure_counters(m: DashMap<IpAddr, AuthFailureCounter>) -> Map<IpAddr, AuthFailureCounter>;

/// `DashMap::new()`: an empty map.
#[verifier::external_body]
fn counters_new() -> (r: DashMap<IpAddr, AuthFailureCounter>)
    ensures
        failure_counters(r).dom() == Set::<IpAddr>::empty(),
{
    DashMap::new()
}

/// `DashMap::get`, the counter copied out of its guard.
#[verifier::external_body]
fn counters_get(m: &DashMap<IpAddr, AuthFailureCounter>, ip: IpAddr) -> (r: Option<AuthFailureCounter>)
    ensures
        match r {
            Some(c) => failure_counters(*m).contains_key(ip) && c == failure_counters(*m)[ip],
            None => !failure_counters(*m).contains_key(ip),
        },
{
    m.get(&ip).map(|g| *g.value())
}

/// `DashMap::insert`: the address maps to the counter afterwards.
#[verifier::external_body]
fn counters_insert(m: &mut DashMap<IpAddr, AuthFailureCounter>, ip: IpAddr, c: AuthFailureCounter)
    ensures
        failure_counters(*final(m)) == failure_counters(*old(m)).insert(ip, c),
{
    m.insert(ip, c);
}

/// `DashMap::remove`: the address has no counter afterwards.
#[verifier::external_body]
fn counters_remove(m: &mut DashMap<IpAddr, AuthFailureCounter>, ip: IpAddr)
    ensures
        failure_counters(*final(m)) == failure_counters(*old(m)).remove(ip),
{
    m.remove(&ip);
}

/// `DashMap::iter`, each entry copied: every address once with its
/// counter, in no stated order.
#[verifier::external_body]
fn counters_items(m: &DashMap<IpAddr, AuthFailureCounter>) -> (r: Vec<(IpAddr, AuthFailureCounter)>)
    ensures
        lists(r@, failure_counters(*m)),
{
    m.iter().map(|e| (*e.key(), *e.value())).collect()
}

/// The per-address failure counters of the brute-force detector.
pub struct BruteforceDetector {
    store: DashMap<IpAddr, AuthFailureCounter>,
    config: DetectionConfig,
}

impl BruteforceDetector {
    /// The counters, by address.
    pub closed spec fn counters(&self) -> Map<IpAddr, AuthFailureCounter> {
        failure_counters(self.store)
    }

    /// The detection settings.
    pub closed spec fn cfg(&self) -> DetectionConfig {
        self.config
    }

    /// The detection settings.
    pub fn config(&self) -> (r: DetectionConfig)
        ensures
            r == self.cfg(),
    {
        self.config
    }

    /// A detector with no counters.
    pub fn new(config: DetectionConfig) -> (r: Self)
        ensures
            r.counters().dom() == Set::<IpAddr>::empty(),
            r.cfg() == config,
    {
        BruteforceDetector { store: counters_new(), config }
    }

    /// Process one failed authentication, creating the address's counter
    /// (stamped `clock_ns`) when it has none; returns the block to issue
    /// when the failure triggers one.
    pub fn process_failure(&mut self, event: &AuthEvent, clock_ns: u64) -> (r: Option<BlockCommand>)
        requires
            old(self).counters().contains_key(event.ip) ==> old(self).counters()[event.ip].failures < u64::MAX
                && old(self).counters()[event.ip].blocks < u32::MAX,
            event.timestamp_ns + old(self).cfg().block_ttl_secs * 1_000_000_000 <= u64::MAX,
        ensures
            final(self).cfg() == old(self).cfg(),
            ({
                let m = old(self).counters();
                let before = if m.contains_key(event.ip) {
                    m[event.ip]
                } else {
                    AuthFailureCounter {
                        failures: 0,
                        first_failure_ns: clock_ns,
                        last_failure_ns: clock_ns,
                        blocks: 0,
                        reported: false,
                        backoff_until_ns: None,
                    }
                };
                let (after, fired) = record_spec(before, event.timestamp_ns, old(self).cfg());
                &&& final(self).counters() == m.insert(event.ip, after)
                &&& (r is Some <==> fired)
                &&& r is Some ==> ({
                    let cmd = r->Some_0;
                    &&& cmd.ip == event.ip
                    &&& cmd.reason == BlockReason::BruteForce
                    &&& cmd.ttl_secs == old(self).cfg().block_ttl_secs
                    &&& cmd.context@ == block_context(
                        after.failures,
                        old(self).cfg().window_secs,
                        event.source@,
                        after.blocks,
                    )
                })
            }),
    {
        let cfg = self.config;
        let mut counter = match counters_get(&self.store, event.ip) {
            Some(c) => c,
            None => AuthFailureCounter::new(clock_ns),
        };
        let fired = counter.record(event.timestamp_ns, &cfg);
        counters_insert(&mut self.store, event.ip, counter);
        if fired {
            let mut context = String::new();
            append_decimal(&mut context, counter.failures);
            context.append(" failures in ");
            append_decimal(&mut context, cfg.window_secs);
            context.append("s from ");
            context.append(event.source.as_str());
            context.append(" (strikes: ");
            append_decimal(&mut context, counter.blocks as u64);
            context.append(")");
            assert(context@ =~= block_context(
                counter.failures,
                cfg.window_secs,
                event.source@,
                counter.blocks,
            ));
            Some(
                BlockCommand {
                    ip: event.ip,
                    reason: BlockReason::BruteForce,
                    ttl_secs: cfg.block_ttl_secs,
                    context,
                },
            )
        } else {
            None
        }
    }
}

/// A counter after the sweep at `now`: a finished cooldown is cleared.
pub open spec fn swept(c: AuthFailureCounter, now: u64) -> AuthFailureCounter {
    if c.reported && c.backoff_until_ns is Some && now >= c.backoff_until_ns->Some_0 {
        AuthFailureCounter { reported: false, failures: 0, ..c }
    } else {
        c
    }
}

/// Whether a swept counter is kept: not evictable at `now`.
pub open spec fn kept(c: AuthFailureCounter, now: u64, idle_ns: u64) -> bool {
    !(!c.reported && sat_sub_u64_spec(now, c.last_failure_ns) > idle_ns)
}

/// The counters after the sweep: each counter swept, evictable ones dropped.
pub open spec fn sweep_spec(
    m: Map<IpAddr, AuthFailureCounter>,
    now: u64,
    idle_ns: u64,
) -> Map<IpAddr, AuthFailureCounter> {
    Map::new(|k: IpAddr| m.contains_key(k) && kept(swept(m[k], now), now, idle_ns), |k: IpAddr| swept(m[k], now))
}

/// Totals over a listing of the counters: addresses, addresses in a block,
/// failures.
pub open spec fn stats_spec(s: Seq<(IpAddr, AuthFailureCounter)>) -> (nat, nat, nat)
    decreases s.len(),
{
    if s.len() == 0 {
        (0, 0, 0)
    } else {
        let r = stats_spec(s.drop_last());
        (
            r.0 + 1,
            r.1 + if s.last().1.reported {
                1nat
            } else {
                0nat
            },
            r.2 + s.last().1.failures as nat,
        )
    }
}

impl BruteforceDetector {
    /// Periodic sweep at `now_ns`: clear finished cooldowns, then evict the
    /// counters idle for longer than `evict_idle_secs` and not in a block.
    pub fn sweep(&mut self, now_ns: u64)
        ensures
            final(self).counters() == sweep_spec(
                old(self).counters(),
                now_ns,
                sat_mul_u64_spec(old(self).cfg().evict_idle_secs, 1_000_000_000),
            ),
            final(self).cfg() == old(self).cfg(),
    {
        let idle_ns: u64 = sat_mul_u64(self.config.evict_idle_secs, 1_000_000_000);
        let items = counters_items(&self.store);
        let ghost m0 = self.counters();
        let ghost target = sweep_spec(m0, now_ns, idle_ns);
        let n: usize = items.len();
        let mut i: usize = 0;
        while i < n
            invariant
                n == items@.len(),
                i <= n,
                lists(items@, m0),
                m0 == old(self).counters(),
                self.config == old(self).config,
                idle_ns == sat_mul_u64_spec(old(self).cfg().evict_idle_secs, 1_000_000_000),
                target == sweep_spec(m0, now_ns, idle_ns),
                forall|k: IpAddr|
                    #[trigger] self.counters().contains_key(k) ==> m0.contains_key(k),
                forall|a: int|
                    0 <= a < i ==> (target.contains_key(#[trigger] items@[a].0) <==> self.counters().contains_key(
                        items@[a].0,
                    )) && (target.contains_key(items@[a].0) ==> self.counters()[items@[a].0]
                        == target[items@[a].0]),
                forall|k: IpAddr|
                    (forall|a: int| 0 <= a < i ==> (#[trigger] items@[a]).0 != k) ==> (#[trigger] self.counters().contains_key(k)
                        == m0.contains_key(k)) && (m0.contains_key(k) ==> self.counters()[k] == m0[k]),
            decreases n - i,
        {
            let (ip, mut c) = items[i];
            let ghost before = self.counters();
            let rearm: bool = match c.backoff_until_ns {
                Some(t) => c.reported && now_ns >= t,
                None => false,
            };
            if rearm {
                c.reported = false;
                c.failures = 0;
            }
            assert(c == swept(m0[ip], now_ns));
            if !c.evictable(now_ns, idle_ns) {
                counters_insert(&mut self.store, ip, c);
            } else {
                counters_remove(&mut self.store, ip);
            }
            proof {
                assert forall|a: int|
                    0 <= a < i + 1 implies (target.contains_key(#[trigger] items@[a].0) <==> self.counters().contains_key(
                        items@[a].0,
                    )) && (target.contains_key(items@[a].0) ==> self.counters()[items@[a].0]
                        == target[items@[a].0]) by {
                    if a < i {
                        assert(items@[a].0 != items@[i as int].0);
                    }
                }
                assert forall|k: IpAddr|
                    (forall|a: int| 0 <= a < i + 1 ==> (#[trigger] items@[a]).0 != k) implies (#[trigger] self.counters().contains_key(k)
                        == m0.contains_key(k)) && (m0.contains_key(k) ==> self.counters()[k] == m0[k]) by {
                    assert(items@[i as int].0 != k);
                }
            }
            i = i + 1;
        }
        proof {
            assert forall|k: IpAddr| #[trigger] self.counters().contains_key(k) <==> target.contains_key(k) by {
                if m0.contains_key(k) {
                    let a = choose|a: int| 0 <= a < items@.len() && items@[a].0 == k;
                    assert(target.contains_key(items@[a].0) <==> self.counters().contains_key(items@[a].0));
                } else {
                    if self.counters().contains_key(k) {
                        assert(m0.contains_key(k));
                    }
                }
            }
            assert forall|k: IpAddr| #[trigger] self.counters().contains_key(k) implies self.counters()[k] == target[k] by {
                let a = choose|a: int| 0 <= a < items@.len() && items@[a].0 == k;
                assert(target.contains_key(items@[a].0) ==> self.counters()[items@[a].0] == target[items@[a].0]);
            }
            assert(self.counters() =~= target);
        }
    }

    /// Totals: tracked addresses, addresses in a block, failures, over the
    /// counters in the order the map lists them (the totals do not depend
    /// on it).
    pub fn snapshot_stats(&self) -> (r: StatsSnapshot)
        requires
            forall|s: Seq<(IpAddr, AuthFailureCounter)>| #[trigger] lists(s, self.counters()) ==> stats_spec(s).2 <= u64::MAX,
        ensures
            exists|s: Seq<(IpAddr, AuthFailureCounter)>|
                #[trigger] lists(s, self.counters()) && r.ips_tracked as nat == stats_spec(s).0
                    && r.currently_blocked as nat == stats_spec(s).1 && r.total_failures as nat == stats_spec(s).2,
    {
        let items = counters_items(&self.store);
        assert(lists(items@, self.counters()));
        let n: usize = items.len();
        let mut s = StatsSnapshot::default();
        let mut i: usize = 0;
        while i < n
            invariant
                n == items@.len(),
                i <= n,
                stats_spec(items@).2 <= u64::MAX,
                s.ips_tracked as nat == stats_spec(items@.take(i as int)).0,
                s.currently_blocked as nat == stats_spec(items@.take(i as int)).1,
                s.total_failures as nat == stats_spec(items@.take(i as int)).2,
            decreases n - i,
        {
            assert(items@.take(i + 1).drop_last() =~= items@.take(i as int));
            proof {
                lemma_stats_prefix(items@, i + 1);
            }
            let c = items[i].1;
            s.ips_tracked = s.ips_tracked + 1;
            if c.reported {
                s.currently_blocked = s.currently_blocked + 1;
            }
            s.total_failures = s.total_failures + c.failures;
            i = i + 1;
        }
        assert(items@.take(n as int) =~= items@);
        assert(lists(items@, self.counters()));
        s
    }
}

/// A prefix's totals never exceed the whole's, and its counts stay within
/// its length.
proof fn lemma_stats_prefix(s: Seq<(IpAddr, AuthFailureCounter)>, k: int)
    requires
        0 <= k <= s.len(),
    ensures
        stats_spec(s.take(k)).2 <= stats_spec(s).2,
        stats_spec(s.take(k)).0 == k,
        stats_spec(s.take(k)).1 <= k,
    decreases s.len(),
{
    if k < s.len() {
        assert(s.drop_last().take(k) =~= s.take(k));
        lemma_stats_prefix(s.drop_last(), k);
    } else {
        assert(s.take(k) =~= s);
        if s.len() > 0 {
            lemma_stats_prefix(s.drop_last(), k - 1);
            assert(s.drop_last().take(k - 1) =~= s.drop_last());
        }
    }
}

} // verus!
