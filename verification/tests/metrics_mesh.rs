use ramshield::mesh::hlc::Hlc;
use ramshield::metrics::{BatchRecord, Metrics, HISTORY};

#[test]
fn monotonicity() {
    let mut hlc = Hlc::new();
    let t1 = hlc.now();
    let t2 = hlc.now();
    assert!(t2 >= t1);
}

#[test]
fn hlc_same_millisecond_bumps_logical() {
    let mut hlc = Hlc::new();
    let t1 = hlc.now_at(5);
    assert_eq!(t1, 5u128 << 32);
    let t2 = hlc.now_at(5);
    assert_eq!(t2, (5u128 << 32) | 1);
    let t3 = hlc.now_at(4);
    assert_eq!(t3, (5u128 << 32) | 2, "a wall clock that steps back does not move stamps back");
    let t4 = hlc.now_at(6);
    assert_eq!(t4, 6u128 << 32);
    assert_eq!(hlc.logical, 2);
}

#[test]
fn block_log_evicts_at_configured_cap() {
    let mut m = Metrics::with_block_log(5);
    for i in 0..12 {
        m.record_block(&format!("10.0.0.{i}"), "high_rps", "detection");
    }
    let log = m.get_block_log();
    assert_eq!(log.len(), 5, "ring must evict oldest beyond cap");
    assert_eq!(log.last().unwrap().ip, "10.0.0.11");
    assert_eq!(log.first().unwrap().ip, "10.0.0.7");
}

#[test]
fn block_log_cap_floor_is_one() {
    let mut m = Metrics::with_block_log(0);
    m.record_block("10.0.0.1", "high_rps", "detection");
    assert_eq!(m.get_block_log().len(), 1);
}

fn batch(events: u32) -> BatchRecord {
    BatchRecord {
        ts_ms: 1,
        events,
        unique_ips: 1,
        promoted: 2,
        cold_skipped: 3,
        promoted_events: 0,
        cold_skipped_events: 0,
        blocks: 4,
        hot_subnets: 0,
    }
}

#[test]
fn batch_history_keeps_last_entries() {
    let mut m = Metrics::new();
    for i in 0..(HISTORY as u32 + 5) {
        m.record_batch(batch(i));
    }
    let h = m.get_batch_history();
    assert_eq!(h.len(), HISTORY);
    assert_eq!(h[0].events, 5);
    assert_eq!(h[HISTORY - 1].events, HISTORY as u32 + 4);
    assert_eq!(m.batches_total, HISTORY as u64 + 5);
    assert_eq!(m.promotions_total, 2 * (HISTORY as u64 + 5));
    assert_eq!(m.last_batch.unwrap().events, HISTORY as u32 + 4);
    assert_eq!(m.last_batch_blocks, 4);
    assert_eq!(m.cold_skipped_total, 3 * (HISTORY as u64 + 5));
    assert_eq!(m.blocks_detection, 4 * (HISTORY as u64 + 5));
}

#[test]
fn counters_wrap() {
    let mut m = Metrics::new();
    m.inc_ingested(u64::MAX);
    m.inc_ingested(2);
    assert_eq!(m.events_ingested, 1);
    m.inc_requests();
    m.inc_blocks();
    m.inc_rejected(3);
    assert_eq!((m.requests_total, m.blocks_total, m.events_rejected), (1, 1, 3));
}

#[test]
fn prometheus_counters_text() {
    let mut m = Metrics::new();
    m.started_ms = 1_000;
    m.inc_requests();
    m.inc_requests();
    let text = m.render_prometheus_counters(61_999);
    assert!(text.starts_with(
        "# HELP ramshield_uptime_seconds Process uptime in seconds.\n# TYPE ramshield_uptime_seconds gauge\nramshield_uptime_seconds 60\n"
    ));
    assert!(text.contains("ramshield_requests_total 2\n"));
    assert!(text.ends_with("# TYPE ramshield_entropy_ticks counter\nramshield_entropy_ticks 0\n"));
    assert_eq!(text.matches("# HELP").count(), 13);
}
