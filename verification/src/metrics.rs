//! Process-wide counters, the recent-batch history and the block log
//! served to the operations console.

use vstd::prelude::*;
use vstd::wrapping::u64_specs::wrapping_add;
use vstd::string::StringExecFns;
use crate::arith::sat_sub_u64_spec;
use crate::text::{append_decimal, decimal};
use crate::types::time::{millis_of_nanos, EpochMillis};
use crate::types::net::{ip_text, ip_to_string, IpAddr};
use crate::types::util::{bounded_push, BoundedVecDeque};

verus! {

/// Batches kept in the history ring.
pub const HISTORY: usize = 80;

/// Milliseconds since the Unix epoch, by the machine's clock.
pub fn now_ms() -> (r: u64)
    ensures
        exists|n: u128| r == #[trigger] millis_of_nanos(n),
{
    EpochMillis::now().0
}

/// Summary of one detection flush.
#[derive(Debug, Clone, Copy, PartialEq, Eq, Structural)]
pub struct BatchRecord {
    pub ts_ms: u64,
    pub events: u32,
    pub unique_ips: u32,
    /// Unique IPs promoted to full tracking.
    pub promoted: u32,
    /// Unique IPs skipped (below the promotion threshold).
    pub cold_skipped: u32,
    /// Connection events of promoted IPs.
    pub promoted_events: u32,
    /// Connection events of cold-skipped IPs.
    pub cold_skipped_events: u32,
    pub blocks: u32,
    pub hot_subnets: u32,
}

/// One entry of the block log.
#[derive(Debug)]
pub struct BlockRecord {
    pub ts_ms: u64,
    pub ip: String,
    pub reason: String,
    pub module: String,
}

impl Clone for BlockRecord {
    fn clone(&self) -> (r: Self)
        ensures
            r == *self,
    {
        BlockRecord {
            ts_ms: self.ts_ms,
            ip: self.ip.clone(),
            reason: self.reason.clone(),
            module: self.module.clone(),
        }
    }
}

/// Events of one subnet, for the console's subnet table.
#[derive(Debug, Clone)]
pub struct SubnetRow {
    pub prefix: String,
    pub events: u64,
}

/// Event counts through the pipeline stages.
#[derive(Debug, Clone, Copy, PartialEq, Eq, Structural)]
pub struct PipelineFlow {
    pub ingest: u64,
    pub queued: u64,
    pub batched: u64,
    pub promoted: u64,
    pub merged: u64,
    pub blocked: u64,
}

/// The metrics registry. Counters wrap on overflow; the float gauges are
/// kept as their IEEE-754 bit patterns.
pub struct Metrics {
    pub requests_total: u64,
    pub blocks_total: u64,
    pub events_ingested: u64,
    pub events_rejected: u64,
    pub batches_total: u64,
    pub promotions_total: u64,
    pub cold_skipped_total: u64,
    pub blocks_detection: u64,
    pub blocks_subnet: u64,
    pub blocks_forecast: u64,
    pub forecast_ticks: u64,
    pub entropy_ticks: u64,
    pub hw_rps_bits: u64,
    pub hw_z_bits: u64,
    pub hw_forecast_bits: u64,
    pub entropy_bits: u64,
    pub last_batch_events: u64,
    pub last_batch_promoted: u64,
    pub last_batch_blocks: u64,
    pub last_batch: Option<BatchRecord>,
    pub batch_history: BoundedVecDeque<BatchRecord>,
    pub block_log: BoundedVecDeque<BlockRecord>,
    pub block_log_cap: usize,
    pub started_ms: u64,
}

impl Metrics {
    /// The rings are within their capacities and the block log's capacity
    /// is the configured one (at least one).
    pub open spec fn wf(&self) -> bool {
        &&& self.batch_history.cap_spec() == HISTORY
        &&& self.batch_history@.len() <= HISTORY
        &&& self.block_log.cap_spec() == self.block_log_cap
        &&& self.block_log_cap >= 1
        &&& self.block_log@.len() <= self.block_log_cap
    }

    /// The batch history, oldest first.
    pub open spec fn history(&self) -> Seq<BatchRecord> {
        self.batch_history@
    }

    /// The block log, oldest first.
    pub open spec fn blocks(&self) -> Seq<BlockRecord> {
        self.block_log@
    }

    /// When the registry was created, in Unix milliseconds.
    pub open spec fn started(&self) -> u64 {
        self.started_ms
    }

    /// Whether every counter and gauge is zero, no batch was recorded and
    /// both rings are empty.
    pub open spec fn is_fresh(&self) -> bool {
        &&& self.requests_total == 0
        &&& self.blocks_total == 0
        &&& self.events_ingested == 0
        &&& self.events_rejected == 0
        &&& self.batches_total == 0
        &&& self.promotions_total == 0
        &&& self.cold_skipped_total == 0
        &&& self.blocks_detection == 0
        &&& self.blocks_subnet == 0
        &&& self.blocks_forecast == 0
        &&& self.forecast_ticks == 0
        &&& self.entropy_ticks == 0
        &&& self.hw_rps_bits == 0
        &&& self.hw_z_bits == 0
        &&& self.hw_forecast_bits == 0
        &&& self.entropy_bits == 0
        &&& self.last_batch_events == 0
        &&& self.last_batch_promoted == 0
        &&& self.last_batch_blocks == 0
        &&& self.last_batch is None
        &&& self.history().len() == 0
        &&& self.blocks().len() == 0
    }

    /// A registry whose block log keeps the last 1000 blocks.
    pub fn new() -> (r: Self)
        ensures
            r.wf(),
            r.is_fresh(),
            r.block_log_cap == 1000,
    {
        Self::with_block_log(1_000)
    }

    /// A registry whose block log keeps the last `block_log_size` blocks
    /// (at least one).
    pub fn with_block_log(block_log_size: usize) -> (r: Self)
        ensures
            r.wf(),
            r.is_fresh(),
            r.block_log_cap == (if block_log_size == 0 {
                1
            } else {
                block_log_size
            }),
    {
        let cap: usize = if block_log_size == 0 {
            1
        } else {
            block_log_size
        };
        Metrics {
            requests_total: 0,
            blocks_total: 0,
            events_ingested: 0,
            events_rejected: 0,
            batches_total: 0,
            promotions_total: 0,
            cold_skipped_total: 0,
            blocks_detection: 0,
            blocks_subnet: 0,
            blocks_forecast: 0,
            forecast_ticks: 0,
            entropy_ticks: 0,
            hw_rps_bits: 0,
            hw_z_bits: 0,
            hw_forecast_bits: 0,
            entropy_bits: 0,
            last_batch_events: 0,
            last_batch_promoted: 0,
            last_batch_blocks: 0,
            last_batch: None,
            batch_history: BoundedVecDeque::new(HISTORY),
            block_log: BoundedVecDeque::new(cap),
            block_log_cap: cap,
            started_ms: now_ms(),
        }
    }

    /// One more IPC request.
    pub fn inc_requests(&mut self)
        ensures
            final(self).requests_total == wrapping_add(old(self).requests_total, 1),
            final(self).unchanged_but_requests(*old(self)),
    {
        self.requests_total = self.requests_total.wrapping_add(1);
    }

    /// Every field but `requests_total` equals that of `o`.
    pub open spec fn unchanged_but_requests(&self, o: Metrics) -> bool {
        self.same_but_counters(o) && self.blocks_total == o.blocks_total
            && self.events_ingested == o.events_ingested && self.events_rejected
            == o.events_rejected
    }

    /// Every field but the four traffic counters equals that of `o`.
    pub open spec fn same_but_counters(&self, o: Metrics) -> bool {
        &&& self.batches_total == o.batches_total
        &&& self.promotions_total == o.promotions_total
        &&& self.cold_skipped_total == o.cold_skipped_total
        &&& self.blocks_detection == o.blocks_detection
        &&& self.blocks_subnet == o.blocks_subnet
        &&& self.blocks_forecast == o.blocks_forecast
        &&& self.forecast_ticks == o.forecast_ticks
        &&& self.entropy_ticks == o.entropy_ticks
        &&& self.hw_rps_bits == o.hw_rps_bits
        &&& self.hw_z_bits == o.hw_z_bits
        &&& self.hw_forecast_bits == o.hw_forecast_bits
        &&& self.entropy_bits == o.entropy_bits
        &&& self.last_batch_events == o.last_batch_events
        &&& self.last_batch_promoted == o.last_batch_promoted
        &&& self.last_batch_blocks == o.last_batch_blocks
        &&& self.last_batch == o.last_batch
        &&& self.history() == o.history()
        &&& self.blocks() == o.blocks()
        &&& self.block_log_cap == o.block_log_cap
        &&& self.started() == o.started()
        &&& (self.wf() <==> o.wf())
    }

    /// One more block issued.
    pub fn inc_blocks(&mut self)
        ensures
            final(self).blocks_total == wrapping_add(old(self).blocks_total, 1),
            final(self).same_but_counters(*old(self)),
            final(self).requests_total == old(self).requests_total,
            final(self).events_ingested == old(self).events_ingested,
            final(self).events_rejected == old(self).events_rejected,
    {
        self.blocks_total = self.blocks_total.wrapping_add(1);
    }

    /// `n` more events ingested.
    pub fn inc_ingested(&mut self, n: u64)
        ensures
            final(self).events_ingested == wrapping_add(old(self).events_ingested, n),
            final(self).same_but_counters(*old(self)),
            final(self).requests_total == old(self).requests_total,
            final(self).blocks_total == old(self).blocks_total,
            final(self).events_rejected == old(self).events_rejected,
    {
        self.events_ingested = self.events_ingested.wrapping_add(n);
    }

    /// `n` more events rejected.
    pub fn inc_rejected(&mut self, n: u64)
        ensures
            final(self).events_rejected == wrapping_add(old(self).events_rejected, n),
            final(self).same_but_counters(*old(self)),
            final(self).requests_total == old(self).requests_total,
            final(self).blocks_total == old(self).blocks_total,
            final(self).events_ingested == old(self).events_ingested,
    {
        self.events_rejected = self.events_rejected.wrapping_add(n);
    }

    /// Account one detection batch: the batch counter, the last-batch
    /// gauges, the running promotion / cold-skip / detection-block totals,
    /// the history ring (dropping its oldest entry when full) and the last
    /// batch.
    pub fn record_batch(&mut self, rec: BatchRecord)
        requires
            old(self).wf(),
        ensures
            final(self).wf(),
            final(self).batches_total == wrapping_add(old(self).batches_total, 1),
            final(self).last_batch_events == rec.events,
            final(self).last_batch_promoted == rec.promoted,
            final(self).last_batch_blocks == rec.blocks,
            final(self).promotions_total == wrapping_add(
                old(self).promotions_total,
                rec.promoted as u64,
            ),
            final(self).cold_skipped_total == wrapping_add(
                old(self).cold_skipped_total,
                rec.cold_skipped as u64,
            ),
            final(self).blocks_detection == wrapping_add(
                old(self).blocks_detection,
                rec.blocks as u64,
            ),
            final(self).history() == bounded_push(old(self).history(), HISTORY, rec),
            final(self).last_batch == Some(rec),
            batch_step(*old(self), *final(self), rec),
            final(self).blocks() == old(self).blocks(),
            final(self).block_log_cap == old(self).block_log_cap,
            final(self).requests_total == old(self).requests_total,
            final(self).blocks_total == old(self).blocks_total,
            final(self).events_ingested == old(self).events_ingested,
            final(self).events_rejected == old(self).events_rejected,
    {
        self.batches_total = self.batches_total.wrapping_add(1);
        self.last_batch_events = rec.events as u64;
        self.last_batch_promoted = rec.promoted as u64;
        self.last_batch_blocks = rec.blocks as u64;
        self.promotions_total = self.promotions_total.wrapping_add(rec.promoted as u64);
        self.cold_skipped_total = self.cold_skipped_total.wrapping_add(rec.cold_skipped as u64);
        self.blocks_detection = self.blocks_detection.wrapping_add(rec.blocks as u64);
        proof {
            crate::types::util::lemma_bounded_push_within_cap(self.batch_history@, HISTORY, rec);
        }
        self.batch_history.push(rec);
        self.last_batch = Some(rec);
    }

    /// Append a block to the log at time `ts_ms`, dropping the oldest entry
    /// when the log is at capacity.
    pub fn record_block_at(&mut self, ts_ms: u64, ip: &str, reason: &str, module: &str)
        requires
            old(self).wf(),
        ensures
            final(self).wf(),
            final(self).blocks() == bounded_push(
                old(self).blocks(),
                old(self).block_log_cap,
                final(self).blocks().last(),
            ),
            final(self).blocks().last().ts_ms == ts_ms,
            final(self).blocks().last().ip@ == ip@,
            final(self).blocks().last().reason@ == reason@,
            final(self).blocks().last().module@ == module@,
            final(self).history() == old(self).history(),
            final(self).block_log_cap == old(self).block_log_cap,
    {
        let r = BlockRecord {
            ts_ms,
            ip: ip.to_owned(),
            reason: reason.to_owned(),
            module: module.to_owned(),
        };
        proof {
            crate::types::util::lemma_bounded_push_within_cap(
                self.block_log@,
                self.block_log_cap,
                r,
            );
        }
        self.block_log.push(r);
    }

    /// Append a block to the log, stamped with the current time.
    pub fn record_block(&mut self, ip: &str, reason: &str, module: &str)
        requires
            old(self).wf(),
        ensures
            final(self).wf(),
            final(self).blocks() == bounded_push(
                old(self).blocks(),
                old(self).block_log_cap,
                final(self).blocks().last(),
            ),
            exists|n: u128| final(self).blocks().last().ts_ms == #[trigger] millis_of_nanos(n),
            final(self).blocks().last().ip@ == ip@,
            final(self).blocks().last().reason@ == reason@,
            final(self).blocks().last().module@ == module@,
            final(self).history() == old(self).history(),
            final(self).block_log_cap == old(self).block_log_cap,
    {
        let ts = now_ms();
        self.record_block_at(ts, ip, reason, module);
    }

    /// Store the Holt-Winters gauges (as IEEE-754 bit patterns) and count a
    /// forecast tick.
    pub fn set_forecast_hw(&mut self, rps_bits: u64, z_bits: u64, forecast_bits: u64)
        ensures
            final(self).hw_rps_bits == rps_bits,
            final(self).hw_z_bits == z_bits,
            final(self).hw_forecast_bits == forecast_bits,
            final(self).forecast_ticks == wrapping_add(old(self).forecast_ticks, 1),
            final(self).history() == old(self).history(),
            final(self).blocks() == old(self).blocks(),
            final(self).block_log_cap == old(self).block_log_cap,
            old(self).wf() ==> final(self).wf(),
    {
        self.hw_rps_bits = rps_bits;
        self.hw_z_bits = z_bits;
        self.hw_forecast_bits = forecast_bits;
        self.forecast_ticks = self.forecast_ticks.wrapping_add(1);
    }

    /// Store the entropy gauge (as an IEEE-754 bit pattern) and count an
    /// entropy tick.
    pub fn set_entropy(&mut self, h_bits: u64)
        ensures
            final(self).entropy_bits == h_bits,
            final(self).entropy_ticks == wrapping_add(old(self).entropy_ticks, 1),
            final(self).history() == old(self).history(),
            final(self).blocks() == old(self).blocks(),
            final(self).block_log_cap == old(self).block_log_cap,
            old(self).wf() ==> final(self).wf(),
    {
        self.entropy_bits = h_bits;
        self.entropy_ticks = self.entropy_ticks.wrapping_add(1);
    }

    /// The batch history, oldest first.
    pub fn get_batch_history(&self) -> (r: Vec<BatchRecord>)
        ensures
            r@ == self.history(),
    {
        let n: usize = self.batch_history.len();
        let mut out: Vec<BatchRecord> = Vec::new();
        let mut i: usize = 0;
        while i < n
            invariant
                n == self.batch_history@.len(),
                i <= n,
                out@ == self.batch_history@.take(i as int),
            decreases n - i,
        {
            out.push(*self.batch_history.get(i));
            assert(self.batch_history@.take(i + 1) =~= self.batch_history@.take(i as int).push(
                self.batch_history@[i as int],
            ));
            i = i + 1;
        }
        assert(self.batch_history@.take(n as int) =~= self.batch_history@);
        out
    }

    /// The block log, oldest first.
    pub fn get_block_log(&self) -> (r: Vec<BlockRecord>)
        ensures
            r@ == self.blocks(),
    {
        let n: usize = self.block_log.len();
        let mut out: Vec<BlockRecord> = Vec::new();
        let mut i: usize = 0;
        while i < n
            invariant
                n == self.block_log@.len(),
                i <= n,
                out@ == self.block_log@.take(i as int),
            decreases n - i,
        {
            out.push(self.block_log.get(i).clone());
            assert(self.block_log@.take(i + 1) =~= self.block_log@.take(i as int).push(
                self.block_log@[i as int],
            ));
            i = i + 1;
        }
        assert(self.block_log@.take(n as int) =~= self.block_log@);
        out
    }
}

/// One Prometheus exposition stanza: the HELP and TYPE lines and the sample
/// line.
pub open spec fn stanza(name: Seq<char>, help: Seq<char>, typ: Seq<char>, value: Seq<char>) -> Seq<
    char,
> {
    "# HELP "@ + name + " "@ + help + "\n"@ + "# TYPE "@ + name + " "@ + typ + "\n"@ + name + " "@
        + value + "\n"@
}

/// Append one stanza whose sample is the decimal `value`.
fn emit(out: &mut String, name: &str, help: &str, typ: &str, value: u64)
    ensures
        final(out)@ == old(out)@ + stanza(name@, help@, typ@, decimal(value as nat)),
{
    out.append("# HELP ");
    out.append(name);
    out.append(" ");
    out.append(help);
    out.append("\n");
    out.append("# TYPE ");
    out.append(name);
    out.append(" ");
    out.append(typ);
    out.append("\n");
    out.append(name);
    out.append(" ");
    append_decimal(out, value);
    out.append("\n");
    assert(out@ =~= old(out)@ + stanza(name@, help@, typ@, decimal(value as nat)));
}

/// The integer part of the exposition text: uptime and every counter, in
/// a fixed order.
pub open spec fn prometheus_counters(m: Metrics, now_ms: u64) -> Seq<char> {
    stanza(
        "ramshield_uptime_seconds"@,
        "Process uptime in seconds."@,
        "gauge"@,
        decimal((sat_sub_u64_spec(now_ms, m.started_ms) / 1000) as nat),
    ) + stanza(
        "ramshield_requests_total"@,
        "Total IPC requests received."@,
        "counter"@,
        decimal(m.requests_total as nat),
    ) + stanza(
        "ramshield_blocks_total"@,
        "Total blocks issued."@,
        "counter"@,
        decimal(m.blocks_total as nat),
    ) + stanza(
        "ramshield_events_ingested_total"@,
        "Total events ingested."@,
        "counter"@,
        decimal(m.events_ingested as nat),
    ) + stanza(
        "ramshield_events_rejected_total"@,
        "Total events rejected."@,
        "counter"@,
        decimal(m.events_rejected as nat),
    ) + stanza(
        "ramshield_batches_total"@,
        "Total detection batches processed."@,
        "counter"@,
        decimal(m.batches_total as nat),
    ) + stanza(
        "ramshield_promotions_total"@,
        "Total IPs promoted to tracking."@,
        "counter"@,
        decimal(m.promotions_total as nat),
    ) + stanza(
        "ramshield_cold_skipped_total"@,
        "Total cold IPs skipped."@,
        "counter"@,
        decimal(m.cold_skipped_total as nat),
    ) + stanza(
        "ramshield_blocks_detection"@,
        "Blocks from detection engine."@,
        "counter"@,
        decimal(m.blocks_detection as nat),
    ) + stanza(
        "ramshield_blocks_subnet"@,
        "Blocks from subnet module."@,
        "counter"@,
        decimal(m.blocks_subnet as nat),
    ) + stanza(
        "ramshield_blocks_forecast"@,
        "Blocks from forecasting."@,
        "counter"@,
        decimal(m.blocks_forecast as nat),
    ) + stanza(
        "ramshield_forecast_ticks"@,
        "Forecast ticks executed."@,
        "counter"@,
        decimal(m.forecast_ticks as nat),
    ) + stanza(
        "ramshield_entropy_ticks"@,
        "Entropy check ticks executed."@,
        "counter"@,
        decimal(m.entropy_ticks as nat),
    )
}

impl Metrics {
    /// The uptime and counter stanzas of the Prometheus exposition at
    /// `now_ms` (the float gauges follow them in the full exposition).
    pub fn render_prometheus_counters(&self, now_ms: u64) -> (r: String)
        ensures
            r@ == prometheus_counters(*self, now_ms),
    {
        let mut out = String::new();
        let uptime: u64 = now_ms.saturating_sub(self.started_ms) / 1000;
        emit(&mut out, "ramshield_uptime_seconds", "Process uptime in seconds.", "gauge", uptime);
        emit(&mut out, "ramshield_requests_total", "Total IPC requests received.", "counter", self.requests_total);
        emit(&mut out, "ramshield_blocks_total", "Total blocks issued.", "counter", self.blocks_total);
        emit(&mut out, "ramshield_events_ingested_total", "Total events ingested.", "counter", self.events_ingested);
        emit(&mut out, "ramshield_events_rejected_total", "Total events rejected.", "counter", self.events_rejected);
        emit(&mut out, "ramshield_batches_total", "Total detection batches processed.", "counter", self.batches_total);
        emit(&mut out, "ramshield_promotions_total", "Total IPs promoted to tracking.", "counter", self.promotions_total);
        emit(&mut out, "ramshield_cold_skipped_total", "Total cold IPs skipped.", "counter", self.cold_skipped_total);
        emit(&mut out, "ramshield_blocks_detection", "Blocks from detection engine.", "counter", self.blocks_detection);
        emit(&mut out, "ramshield_blocks_subnet", "Blocks from subnet module.", "counter", self.blocks_subnet);
        emit(&mut out, "ramshield_blocks_forecast", "Blocks from forecasting.", "counter", self.blocks_forecast);
        emit(&mut out, "ramshield_forecast_ticks", "Forecast ticks executed.", "counter", self.forecast_ticks);
        emit(&mut out, "ramshield_entropy_ticks", "Entropy check ticks executed.", "counter", self.entropy_ticks);
        assert(out@ =~= prometheus_counters(*self, now_ms));
        out
    }
}

impl Metrics {
    /// Append a block of address `ip` to the log, stamped with the current
    /// time.
    pub fn record_block_ip(&mut self, ip: &IpAddr, reason: &str, module: &str)
        requires
            old(self).wf(),
        ensures
            final(self).wf(),
            final(self).blocks() == bounded_push(
                old(self).blocks(),
                old(self).block_log_cap,
                final(self).blocks().last(),
            ),
            exists|n: u128| final(self).blocks().last().ts_ms == #[trigger] millis_of_nanos(n),
            final(self).blocks().last().ip@ == ip_text(*ip),
            final(self).blocks().last().reason@ == reason@,
            final(self).blocks().last().module@ == module@,
            final(self).history() == old(self).history(),
            final(self).block_log_cap == old(self).block_log_cap,
    {
        let text = ip_to_string(ip);
        self.record_block(text.as_str(), reason, module);
    }
}

/// Block-log law: however many blocks are recorded, the log never holds
/// more than its capacity, and the newest block is always last.
pub proof fn lemma_block_log_bounded(log: Seq<BlockRecord>, cap: usize, r: BlockRecord)
    requires
        cap >= 1,
        log.len() <= cap,
    ensures
        bounded_push(log, cap, r).len() <= cap,
        bounded_push(log, cap, r).last() == r,
        log.len() == cap ==> bounded_push(log, cap, r) == log.drop_first().push(r),
{
}

/// What one call of `record_batch` with `rec` makes of the registry
/// `before`: one more batch, the three totals grown by the record's figures,
/// the record as the last batch and pushed onto the history ring.
pub open spec fn batch_step(before: Metrics, after: Metrics, rec: BatchRecord) -> bool {
    &&& after.batches_total == wrapping_add(before.batches_total, 1)
    &&& after.promotions_total == wrapping_add(before.promotions_total, rec.promoted as u64)
    &&& after.cold_skipped_total == wrapping_add(
        before.cold_skipped_total,
        rec.cold_skipped as u64,
    )
    &&& after.blocks_detection == wrapping_add(before.blocks_detection, rec.blocks as u64)
    &&& after.last_batch_events == rec.events
    &&& after.last_batch_promoted == rec.promoted
    &&& after.last_batch_blocks == rec.blocks
    &&& after.last_batch == Some(rec)
    &&& after.history() == bounded_push(before.history(), HISTORY, rec)
}

/// Unique IPs promoted over a run of batches.
pub open spec fn promoted_sum(recs: Seq<BatchRecord>) -> int
    decreases recs.len(),
{
    if recs.len() == 0 {
        0
    } else {
        promoted_sum(recs.drop_last()) + recs.last().promoted
    }
}

/// Unique IPs skipped as cold over a run of batches.
pub open spec fn cold_skipped_sum(recs: Seq<BatchRecord>) -> int
    decreases recs.len(),
{
    if recs.len() == 0 {
        0
    } else {
        cold_skipped_sum(recs.drop_last()) + recs.last().cold_skipped
    }
}

/// Detection blocks over a run of batches.
pub open spec fn blocks_sum(recs: Seq<BatchRecord>) -> int
    decreases recs.len(),
{
    if recs.len() == 0 {
        0
    } else {
        blocks_sum(recs.drop_last()) + recs.last().blocks
    }
}

/// Batch law: `k` calls of `record_batch` on a fresh registry, with no other
/// writer and no counter wrapping, leave `batches_total` at `k`, the
/// promotion, cold-skip and detection-block totals at the sums over the
/// records, the last batch's figures those of the last record, and the
/// history holding the last `min(k, 80)` records, oldest first.
pub proof fn lemma_batches_accumulate(states: Seq<Metrics>, recs: Seq<BatchRecord>)
    requires
        states.len() == recs.len() + 1,
        states[0].is_fresh(),
        forall|i: int| 0 <= i < recs.len() ==> batch_step(states[i], states[i + 1], #[trigger] recs[i]),
        recs.len() <= u64::MAX,
        promoted_sum(recs) <= u64::MAX,
        cold_skipped_sum(recs) <= u64::MAX,
        blocks_sum(recs) <= u64::MAX,
    ensures
        states.last().batches_total == recs.len(),
        states.last().promotions_total == promoted_sum(recs),
        states.last().cold_skipped_total == cold_skipped_sum(recs),
        states.last().blocks_detection == blocks_sum(recs),
        states.last().history() == recs.subrange(
            if recs.len() > HISTORY { recs.len() - HISTORY } else { 0 },
            recs.len() as int,
        ),
        recs.len() > 0 ==> states.last().last_batch == Some(recs.last()),
        recs.len() > 0 ==> states.last().last_batch_events == recs.last().events,
        recs.len() > 0 ==> states.last().last_batch_promoted == recs.last().promoted,
        recs.len() > 0 ==> states.last().last_batch_blocks == recs.last().blocks,
{
    lemma_history_is_bounded_pushes(states, recs);
    crate::types::util::lemma_bounded_pushes_keep_last(HISTORY, recs);
    lemma_totals_accumulate(states, recs);
}

proof fn lemma_history_is_bounded_pushes(states: Seq<Metrics>, recs: Seq<BatchRecord>)
    requires
        states.len() == recs.len() + 1,
        states[0].history().len() == 0,
        forall|i: int| 0 <= i < recs.len() ==> batch_step(states[i], states[i + 1], #[trigger] recs[i]),
    ensures
        states.last().history() == crate::types::util::bounded_pushes(HISTORY, recs),
    decreases recs.len(),
{
    if recs.len() == 0 {
        assert(states[0].history() =~= Seq::<BatchRecord>::empty());
    } else {
        let n = recs.len() - 1;
        let ps = states.drop_last();
        let pr = recs.drop_last();
        assert forall|i: int| 0 <= i < pr.len() implies batch_step(ps[i], ps[i + 1], #[trigger] pr[i]) by {
            assert(recs[i] == pr[i]);
        }
        lemma_history_is_bounded_pushes(ps, pr);
        assert(batch_step(states[n], states[n + 1], recs[n]));
    }
}

proof fn lemma_totals_accumulate(states: Seq<Metrics>, recs: Seq<BatchRecord>)
    requires
        states.len() == recs.len() + 1,
        states[0].is_fresh(),
        forall|i: int| 0 <= i < recs.len() ==> batch_step(states[i], states[i + 1], #[trigger] recs[i]),
        recs.len() <= u64::MAX,
        promoted_sum(recs) <= u64::MAX,
        cold_skipped_sum(recs) <= u64::MAX,
        blocks_sum(recs) <= u64::MAX,
    ensures
        states.last().batches_total == recs.len(),
        states.last().promotions_total == promoted_sum(recs),
        states.last().cold_skipped_total == cold_skipped_sum(recs),
        states.last().blocks_detection == blocks_sum(recs),
        recs.len() > 0 ==> states.last().last_batch == Some(recs.last()),
        recs.len() > 0 ==> states.last().last_batch_events == recs.last().events,
        recs.len() > 0 ==> states.last().last_batch_promoted == recs.last().promoted,
        recs.len() > 0 ==> states.last().last_batch_blocks == recs.last().blocks,
    decreases recs.len(),
{
    if recs.len() > 0 {
        let n = recs.len() - 1;
        let ps = states.drop_last();
        let pr = recs.drop_last();
        assert forall|i: int| 0 <= i < pr.len() implies batch_step(ps[i], ps[i + 1], #[trigger] pr[i]) by {
            assert(recs[i] == pr[i]);
        }
        assert(recs.last() == recs[n]);
        lemma_totals_accumulate(ps, pr);
        assert(batch_step(states[n], states[n + 1], recs[n]));
        assert(ps.last() == states[n]);
    }
}

} // verus!
