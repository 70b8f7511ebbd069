use ramshield::config::DetectionConfig as EngineDetection;
use ramshield::detection::aggregate::SubnetCount;
use ramshield::detection::flush::flush_windows;
use ramshield::detection::subnet_scan::subnet_batch_scan;
use ramshield::storage::store::{atomic_insert, BlockState, Entry, IpRecord, Store, Value};
use ramshield::storage::subnet::subnet_key_u128;
use ramshield::types::error::{BlockReason, RsError};
use ramshield::types::ip_network::IpNetwork;
use ramshield::types::net::{parse_ip, IpAddr};

fn ip(s: &str) -> IpAddr {
    parse_ip(s).unwrap()
}

fn record(a: IpAddr, state: BlockState) -> IpRecord {
    IpRecord {
        ip: a,
        request_count: 0,
        ewma_rps_bits: 0,
        cusum_s_bits: 0,
        baseline_rps_bits: 0,
        prev_sample_hot: false,
        sample_count: 0,
        first_seen_ns: 0,
        last_seen_ns: 0,
        bytes_in: 0,
        status_dist: [0; 5],
        proto_fingerprint: 0,
        threat_score_bits: 0,
        block_state: state,
        pulse_samples_in_window: 0,
        pulse_window_start_ns: 0,
    }
}

#[test]
fn inline_for_small() {
    let v = Value::from_bytes(&[1u8; 10]);
    assert!(matches!(v, Value::Inline(_)));
}

#[test]
fn blob_for_large() {
    let v = Value::from_bytes(&[1u8; 100]);
    assert!(matches!(v, Value::Blob(_)));
}

#[test]
fn insert_get_remove() {
    let mut store = Store::new(16);
    store.insert(ip("127.0.0.1"), Value::Counter(1), None, 64 * 1024 * 1024, 0).unwrap();
    assert!(store.get(ip("127.0.0.1"), 0).is_some());
    store.remove(ip("127.0.0.1"));
    assert!(store.get(ip("127.0.0.1"), 0).is_none());
}

#[test]
fn ttl_lazy_expiry() {
    let mut store = Store::new(16);
    store.insert(ip("127.0.0.3"), Value::Counter(1), Some(0), 64 * 1024 * 1024, 1_000).unwrap();
    assert!(store.get(ip("127.0.0.3"), 1_000).is_some());
    assert!(store.get(ip("127.0.0.3"), 2_001_000).is_none());
}

#[test]
fn capacity_enforced_on_growth_only() {
    let mut store = Store::new(16);
    let limit = 1024;
    store.insert(ip("10.0.0.1"), Value::Counter(1), None, limit, 0).unwrap();
    store.insert(ip("10.0.0.1"), Value::Counter(2), None, limit, 0).unwrap();
    let err = store.insert(ip("10.0.0.2"), Value::Blob(vec![0u8; 4096]), None, limit, 0).unwrap_err();
    assert!(matches!(err, RsError::CapacityExceeded { .. }));
    assert!(store.get(ip("10.0.0.2"), 0).is_none());
}

#[test]
fn subnet_window_v6_key() {
    let mut store = Store::new(16);
    let v6 = ip("2001:db8::1");
    let key = subnet_key_u128(v6).unwrap();
    let net = IpNetwork::of_ip(v6);
    store.merge_subnet_window(key, net, 5, Some(&[v6]), 1_000_000_000);
    assert_eq!(store.subnet_table.get(&key).unwrap().total_rps, 5);
    store.reset_subnet_window(key);
    assert_eq!(store.subnet_table.get(&key).unwrap().total_rps, 0);
}

#[test]
fn store_accounts_bytes_and_blocked_records() {
    let mut store = Store::new(2);
    let a = ip("192.0.2.1");
    let blocked = BlockState::Blocked { reason: BlockReason::HighRps, since_ns: 5 };
    store.insert(a, Value::IpRecord(record(a, blocked)), None, usize::MAX, 0).unwrap();
    let used = store.ram_bytes();
    assert!(used > 0);
    assert_eq!(store.get_stats().blocked, 1);
    assert_eq!(store.get_all_blocked_ips(), vec![a]);
    // replacing with a clean record unblocks and costs no growth
    store.insert(a, Value::IpRecord(record(a, BlockState::Clean)), None, 0, 0).unwrap();
    assert_eq!(store.ram_bytes(), used);
    assert_eq!(store.get_stats().blocked, 0);
    assert!(store.get_all_blocked_ips().is_empty());
    let s = store.get_stats();
    assert_eq!((s.ips_tracked, s.evictions), (1, 0));
    store.insert(ip("192.0.2.2"), Value::Counter(3), Some(1), usize::MAX, 0).unwrap();
    store.evict_batch(&[a, ip("192.0.2.2")], 2_000_000_000);
    assert_eq!(store.len(), 1, "only the expired entry is evicted");
    assert_eq!(store.get_stats().evictions, 1);
    assert_eq!(store.ram_bytes(), used);
    assert!(store.remove(a).is_some());
    assert_eq!(store.ram_bytes(), 0);
    assert!(store.is_empty());
}

#[test]
fn subnet_index_tracks_members() {
    let mut store = Store::new(4);
    let a = ip("10.1.2.3");
    let b = ip("10.1.2.4");
    let sk = subnet_key_u128(a).unwrap();
    store.update_subnet_index(a, Some(sk), false);
    store.update_subnet_index(b, Some(sk), false);
    store.update_subnet_index(a, Some(sk), false);
    assert_eq!(store.get_ips_in_subnet(sk), vec![a, b]);
    store.update_subnet_index(a, Some(sk), true);
    assert_eq!(store.get_ips_in_subnet(sk), vec![b]);
    store.update_subnet_index(b, Some(sk), true);
    assert!(store.get_ips_in_subnet(sk).is_empty());
    assert!(store.subnet_index.get(&sk).is_none(), "an empty subnet leaves the index");
    store.update_subnet_index(a, None, false);
    assert!(store.subnet_index.is_empty());
}

#[test]
fn atomic_insert_accounts_heap_changes() {
    let mut store = Store::new(2);
    let a = ip("10.9.9.9");
    atomic_insert(&mut store, a, Entry { value: Value::Inline(vec![1; 10]), expires_at_ns: None }, usize::MAX).unwrap();
    let base = store.traffic.used_bytes;
    assert!(base >= 10);
    atomic_insert(&mut store, a, Entry { value: Value::Inline(vec![1; 30]), expires_at_ns: None }, 0).unwrap();
    assert_eq!(store.traffic.used_bytes, base + 20, "replacement grows by the heap delta and is never refused");
    atomic_insert(&mut store, a, Entry { value: Value::Counter(1), expires_at_ns: None }, 0).unwrap();
    assert_eq!(store.traffic.used_bytes, base - 10);
    let err = atomic_insert(&mut store, ip("10.9.9.10"), Entry { value: Value::Counter(1), expires_at_ns: None }, 0);
    assert!(matches!(err, Err(RsError::CapacityExceeded { limit_mb: 0 })));
    assert_eq!(store.len(), 1);
    assert_eq!(store.ram_bytes(), 0, "atomic inserts account only in the traffic counters");
}

#[test]
fn subnet_dual_gate_blocks_unblocked_members() {
    let mut store = Store::new(4);
    let a = ip("10.0.0.1");
    let b = ip("10.0.0.2");
    let c = ip("10.0.0.3");
    let lone = ip("10.0.9.1");
    let blocked = BlockState::Blocked { reason: BlockReason::HighRps, since_ns: 1 };
    for (x, st) in [(a, BlockState::Clean), (b, blocked), (c, BlockState::Clean), (lone, BlockState::Clean)] {
        store.insert(x, Value::IpRecord(record(x, st)), None, usize::MAX, 0).unwrap();
        let sk = subnet_key_u128(x).unwrap();
        store.update_subnet_index(x, Some(sk), false);
    }
    let sk = subnet_key_u128(a).unwrap();
    let lone_sk = subnet_key_u128(lone).unwrap();
    store.merge_subnet_window(sk, IpNetwork::of_ip(a), 30, Some(&[a, b, c]), 10);
    store.merge_subnet_window(lone_sk, IpNetwork::of_ip(lone), 300, Some(&[lone]), 10);
    let det = EngineDetection { subnet_batch_threshold: 3, subnet_batch_min_events: 20, ..EngineDetection::default() };
    let cmds = subnet_batch_scan(&mut store, &det, 1_500_000_000);
    let mut hit: Vec<IpAddr> = cmds.iter().map(|c| c.ip).collect();
    hit.sort_by_key(|x| ramshield::types::net::ip_to_string(x));
    assert_eq!(hit, vec![a, c], "the blocked member is skipped; the single-address subnet stays under the thresholds");
    for cmd in &cmds {
        assert_eq!((cmd.ttl_seconds, cmd.reason.as_str(), cmd.timestamp_utc), (120, "subnet_burst", 1));
    }
    assert_eq!(store.subnet_table.get(&sk).unwrap().total_rps, 0, "a fired subnet's window restarts");
    assert_eq!(store.subnet_table.get(&lone_sk).unwrap().total_rps, 300);
    let off = EngineDetection { batch_block_enabled: false, ..det };
    assert!(subnet_batch_scan(&mut store, &off, 8_000_000_000).is_empty());
}

#[test]
fn blocked_counter_tracks_blocked_records() {
    let mut store = Store::new(4);
    let a = ip("192.0.2.10");
    let b = ip("192.0.2.11");
    let blocked = BlockState::Blocked { reason: BlockReason::HighRps, since_ns: 1 };
    store.insert(a, Value::IpRecord(record(a, blocked)), None, usize::MAX, 0).unwrap();
    store.insert(b, Value::IpRecord(record(b, blocked)), Some(1), usize::MAX, 0).unwrap();
    assert_eq!(store.get_stats().blocked, 2);
    assert_eq!(store.get_all_blocked_ips().len(), 2);
    // re-blocking an already blocked record is no transition
    store.insert(a, Value::IpRecord(record(a, blocked)), None, usize::MAX, 0).unwrap();
    assert_eq!(store.get_stats().blocked, 2);
    store.evict_batch(&[a, b], 5_000_000_000);
    assert_eq!(store.get_stats().blocked, 1);
    assert_eq!(store.get_all_blocked_ips(), vec![a]);
    assert!(store.remove(a).is_some());
    assert_eq!(store.get_stats().blocked, 0);
}

#[test]
fn flush_windows_records_traffic_and_subnet_windows() {
    let mut store = Store::new(4);
    let a = ip("198.51.100.7");
    let b = ip("203.0.113.9");
    let ka = subnet_key_u128(a).unwrap();
    let kb = subnet_key_u128(b).unwrap();
    let subnets = vec![
        SubnetCount { key: ka, events: 30, members: vec![a] },
        SubnetCount { key: kb, events: 12, members: vec![b] },
    ];
    // 42 events over 100 ms: 420 events per second
    flush_windows(&mut store, &subnets, &Vec::new(), 42, 2, 100_000_000, 5_000);
    assert_eq!(store.traffic.events_last_second, 420);
    assert_eq!(store.traffic.unique_ips_window, 2);
    let w = store.traffic.subnet_window();
    assert_eq!((w[0], w[1], w[2]), (30, 12, 0));
    let ra = *store.subnet_table.get(&ka).unwrap();
    assert_eq!((ra.total_rps, ra.last_updated_ns, ra.unique_ips()), (30, 5_000, 1));
    assert_eq!(store.subnet_table.get(&kb).unwrap().total_rps, 12);
    // a second window adds to the same record
    flush_windows(&mut store, &subnets[..1].to_vec(), &Vec::new(), 5, 1, 1_000_000_000, 6_000);
    assert_eq!(store.subnet_table.get(&ka).unwrap().total_rps, 60);
    assert_eq!(store.traffic.events_last_second, 5);
}

#[test]
fn v6_gate_counts_only_members_seen_in_window() {
    let mut store = Store::new(4);
    let old_hosts: Vec<IpAddr> = (1..=3u128).map(|h| IpAddr::V6(0x2001_0db8_abcd_0000_0000_0000_0000_0000 | h)).collect();
    let fresh: Vec<IpAddr> = (10..=11u128).map(|h| IpAddr::V6(0x2001_0db8_abcd_0000_0000_0000_0000_0000 | h)).collect();
    let sk = subnet_key_u128(old_hosts[0]).unwrap();
    for (x, seen) in old_hosts.iter().map(|x| (*x, 0u64)).chain(fresh.iter().map(|x| (*x, 10_000_000_000u64))) {
        let mut r = record(x, BlockState::Clean);
        r.last_seen_ns = seen;
        store.insert(x, Value::IpRecord(r), None, usize::MAX, 0).unwrap();
        store.update_subnet_index(x, Some(sk), false);
    }
    store.merge_subnet_window(sk, IpNetwork::of_ip(old_hosts[0]), 500, None, 10_000_000_000);
    let det = EngineDetection { subnet_batch_threshold: 3, subnet_batch_min_events: 100, ..EngineDetection::default() };
    // five lifetime members, only two of them seen in the last 2 s: too few
    assert!(subnet_batch_scan(&mut store, &det, 10_500_000_000).is_empty());
    let det2 = EngineDetection { subnet_batch_threshold: 2, ..det };
    let cmds = subnet_batch_scan(&mut store, &det2, 10_500_000_000);
    let mut hit: Vec<IpAddr> = cmds.iter().map(|c| c.ip).collect();
    hit.sort_by_key(|x| ramshield::types::net::ip_to_string(x));
    assert_eq!(hit, fresh, "the cooled members are not blocked");
}
