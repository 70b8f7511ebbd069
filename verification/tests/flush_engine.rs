use ramshield::config::DetectionConfig;
use ramshield::detection::aggregate::SubnetCount;
use ramshield::detection::batch::IpAgg;
use ramshield::detection::bloom::BloomFilter;
use ramshield::detection::engine::{flush_step, merge_record, RateVerdict};
use ramshield::metrics::{BatchRecord, Metrics};
use ramshield::storage::store::{BlockState, Store, Value};
use ramshield::storage::subnet::subnet_key_u128;
use ramshield::types::net::IpAddr;

fn agg(count: u32, first: u64, last: u64) -> IpAgg {
    IpAgg { count, bytes: 10 * count as u64, status_dist: [0, count, 0, 0, 0], proto_fp: 7, first_ts_ns: first, last_ts_ns: last }
}

fn verdict(over: bool) -> RateVerdict {
    RateVerdict {
        ewma_rps_bits: 1,
        baseline_rps_bits: 2,
        cusum_s_bits: 3,
        threat_score_bits: 4,
        over_threshold: over,
        cusum_fired: false,
    }
}

#[test]
fn flush_promotes_hot_skips_cold_and_blocks_on_second_hot_sample() {
    let det = DetectionConfig::default();
    let mut store = Store::new(16);
    let mut bloom = BloomFilter::new(4096);
    let mut m = Metrics::new();
    let hot = IpAddr::from_v4_octets([198, 51, 100, 1]);
    let cold = IpAddr::from_v4_octets([203, 0, 113, 2]);
    let aggs = vec![(hot, agg(100, 1_000, 2_000)), (cold, agg(1, 1_500, 1_500))];
    let subnets = vec![
        SubnetCount { key: subnet_key_u128(hot).unwrap(), events: 100, members: vec![hot] },
        SubnetCount { key: subnet_key_u128(cold).unwrap(), events: 1, members: vec![cold] },
    ];
    let verdicts = vec![verdict(true), verdict(true)];
    let lim = 64 * 1024 * 1024;
    let out = flush_step(&mut store, &mut bloom, &mut m, &aggs, &subnets, &Vec::new(), &verdicts, &det, 6, 2, lim, 101, 1_000_000_000, 3_000);
    assert!(out.blocks.is_empty(), "one hot sample is debounced");
    assert_eq!((out.gates[0].count, out.gates[1].count), (100, 1));
    assert!(store.get(cold, 3_000).is_none(), "cold one-shot traffic is not stored");
    match store.get(hot, 3_000) {
        Some(Value::IpRecord(r)) => {
            assert_eq!((r.request_count, r.bytes_in, r.sample_count, r.proto_fingerprint), (100, 1_000, 1, 7));
            assert_eq!((r.ewma_rps_bits, r.threat_score_bits), (1, 4));
            assert!(r.prev_sample_hot);
            assert_eq!(r.block_state, BlockState::Clean);
            assert_eq!(r.pulse_samples_in_window, 1);
        }
        _ => panic!("the promoted address is stored"),
    }
    assert_eq!(store.traffic.promoted_ips, 1);
    assert_eq!(
        m.last_batch,
        Some(BatchRecord {
            ts_ms: 0,
            events: 101,
            unique_ips: 2,
            promoted: 1,
            cold_skipped: 1,
            promoted_events: 100,
            cold_skipped_events: 1,
            blocks: 0,
            hot_subnets: 2,
        })
    );
    // a second hot sample blocks
    let aggs2 = vec![(hot, agg(50, 2_500, 4_000))];
    let out2 = flush_step(&mut store, &mut bloom, &mut m, &aggs2, &subnets[..1].to_vec(), &Vec::new(), &vec![verdict(true)], &det, 6, 2, lim, 50, 1_000_000_000, 5_000);
    assert_eq!(out2.blocks, vec![hot]);
    assert_eq!(out2.commands.len(), 1);
    assert_eq!((out2.commands[0].ip, out2.commands[0].reason.as_str(), out2.commands[0].ttl_seconds), (hot, "high_rps", 3_600));
    assert!(bloom.contains(hot), "a blocked address enters the Bloom filter");
    assert_eq!(m.last_batch.unwrap().blocks, 1);
    assert_eq!(m.get_block_log().last().map(|b| b.ip.clone()), Some("198.51.100.1".to_string()));
}

#[test]
fn merge_record_keeps_block_state_and_steps_pulse() {
    let mut store = Store::new(16);
    let ip = IpAddr::from_v4_octets([192, 0, 2, 9]);
    let quiet = verdict(false);
    let a = merge_record(&mut store, ip, &agg(3, 10, 20), &quiet, 10, 6, 2, usize::MAX, 30);
    assert!(a.stored && !a.should_block && !a.was_blocked);
    assert_eq!(a.record.request_count, 3);
    assert_eq!(a.record.status_dist, [0, 3, 0, 0, 0]);
    let b = merge_record(&mut store, ip, &agg(4, 40, 50), &quiet, 10, 6, 2, usize::MAX, 60);
    assert_eq!(b.record.request_count, 7);
    assert_eq!(b.record.first_seen_ns, 10);
    // a new address over the memory limit is refused, the decision still made
    let other = IpAddr::from_v4_octets([192, 0, 2, 10]);
    let c = merge_record(&mut store, other, &agg(1, 1, 1), &RateVerdict { cusum_fired: true, ..quiet }, 10, 6, 2, 0, 70);
    assert!(!c.stored && c.should_block);
    assert!(store.get(other, 70).is_none());
}
