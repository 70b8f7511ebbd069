use hmac::{Hmac, Mac};
use ramshield::cgnat::{
    classify_tier, fingerprint_counts, fingerprint_hash, rule_for, slot_index, CGNAT_TIER_BLOCK,
    CGNAT_TIER_XDP_DROP, FLAG_SHARED_INFRA,
};
use ramshield::detection::batch::IpAgg;
use ramshield::detection::flush::{
    block_decision, cusum_armed, flush_rate, merge_counters, network_of_key, plan_flush,
    status_bucket, subnet_gate, subnet_is_hot, IpCounters, IpGate,
};
use ramshield::forecasting::{AuditEventType, Hypothesis};
use ramshield::mesh::aworset::Aworset;
use ramshield::protocol::auth::{
    check_signature_at, ct_eq, decode_hex, sign, verify, verify_at, MAX_CLOCK_SKEW_MS,
};
use ramshield::protocol::replay_store::{NonceKey, ReplayStore};
use ramshield::types::net::IpAddr;

fn now_ms() -> u64 {
    std::time::SystemTime::now()
        .duration_since(std::time::UNIX_EPOCH)
        .unwrap()
        .as_millis() as u64
}

fn keys() -> Vec<(String, Vec<u8>)> {
    vec![("k1".to_string(), b"secret-key".to_vec())]
}

#[test]
fn roundtrip_signs_and_verifies() {
    let payload = br#"{"type":"check_ip","ip":"1.2.3.4"}"#;
    let now = now_ms();
    let sig = sign(b"secret-key", now, payload);
    assert_eq!(sig.len(), 64);
    assert!(verify(&keys(), "k1", now, &sig, payload, None).is_ok());
}

#[test]
fn signature_is_hmac_over_timestamp_dot_payload() {
    let mut mac = <Hmac<sha2::Sha256> as Mac>::new_from_slice(b"Jefe").unwrap();
    mac.update(b"1700000000123.what do ya want for nothing?");
    let expected = hex::encode(mac.finalize().into_bytes());
    assert_eq!(sign(b"Jefe", 1_700_000_000_123, b"what do ya want for nothing?"), expected);
    // The tag is lowercase hex.
    assert!(expected.chars().all(|c| c.is_ascii_hexdigit() && !c.is_ascii_uppercase()));
}

#[test]
fn rejects_tampered_payload() {
    let now = now_ms();
    let sig = sign(b"secret-key", now, b"honest payload");
    assert_eq!(verify_at(&keys(), "k1", now, &sig, b"evil payload", None, now), Err("signature mismatch"));
}

#[test]
fn rejects_wrong_key_and_stale_ts() {
    let now = 1_700_000_000_000;
    let sig = sign(b"other-key", now, b"x");
    assert_eq!(verify_at(&keys(), "k1", now, &sig, b"x", None, now), Err("signature mismatch"));
    let good_sig = sign(b"secret-key", now, b"x");
    let old = now - MAX_CLOCK_SKEW_MS - 1000;
    assert_eq!(
        verify_at(&keys(), "k1", old, &good_sig, b"x", None, now),
        Err("timestamp outside allowed skew window")
    );
    assert_eq!(verify_at(&keys(), "k2", now, &good_sig, b"x", None, now), Err("unknown key_id"));
    assert_eq!(verify_at(&keys(), "k1", now, "zz", b"x", None, now), Err("malformed signature"));
    assert_eq!(verify_at(&keys(), "k1", now, "abcd", b"x", None, now), Err("signature length mismatch"));
    let tag = check_signature_at(&keys(), "k1", now, &good_sig, b"x", now).unwrap();
    assert_eq!(tag.len(), 32);
}

#[test]
fn replay_same_frame_is_rejected() {
    let now = now_ms();
    let payload = br#"{"type":"check_ip","ip":"1.2.3.4"}"#;
    let sig = sign(b"secret-key", now, payload);
    let mut store = ReplayStore::new(64, MAX_CLOCK_SKEW_MS);
    assert!(verify(&keys(), "k1", now, &sig, payload, Some(&mut store)).is_ok());
    assert_eq!(verify(&keys(), "k1", now, &sig, payload, Some(&mut store)), Err("replay"));
    // Without a store duplicates pass.
    assert!(verify(&keys(), "k1", now, &sig, payload, None).is_ok());
}

#[test]
fn replay_store_ttl_and_bound() {
    let mut s = ReplayStore::new(4, 30);
    let sig: &[u8] = &[2u8; 32];
    assert!(s.check_and_record("k1", sig).is_ok());
    assert!(s.check_and_record("k1", sig).is_err());
    assert!(s.check_and_record("k2", sig).is_ok());
    let key = |n: u8| NonceKey { key_id_hash: 1, key_id: "k".to_string(), nonce: vec![n] };
    let mut t = ReplayStore::new(4, 30);
    assert!(t.check_and_record_at(key(9), 1_000_000).is_ok());
    assert_eq!(t.check_and_record_at(key(9), 20_000_000), Err("replay"));
    assert!(t.check_and_record_at(key(9), 31_000_000).is_ok());
    assert_eq!(t.len(), 1);
    for i in 0u8..16 {
        s.check_and_record("k1", &[i]).unwrap();
    }
    assert!(s.len() <= 4);
    assert!(!s.is_empty());
}

#[test]
fn hex_decoding_follows_from_str_radix() {
    assert_eq!(decode_hex("00ff10"), Some(vec![0, 255, 16]));
    assert_eq!(decode_hex("AbCd"), Some(vec![0xab, 0xcd]));
    assert_eq!(decode_hex("+f"), Some(vec![15]));
    assert_eq!(decode_hex("abc"), None);
    assert_eq!(decode_hex("g0"), None);
    assert!(ct_eq(&[1, 2, 3], &[1, 2, 3]));
    assert!(!ct_eq(&[1, 2, 3], &[1, 2, 4]));
}

#[test]
fn aworset_add_remove_merge() {
    let mut a = Aworset::new();
    a.add("peer1".to_string());
    assert!(a.contains("peer1"));
    a.remove("peer1".to_string());
    assert!(!a.contains("peer1"));
    let mut b = Aworset::new();
    a.add("item1".to_string());
    b.add("item2".to_string());
    a.merge(&b);
    assert!(a.contains("item1"));
    assert!(a.contains("item2"));
    assert_eq!(a.len(), 2);
    assert!(!a.is_empty());
}

#[test]
fn fingerprint_hash_is_stable_across_allocations() {
    let first = String::from("client-fingerprint");
    let second = String::from("client-fingerprint");
    assert_eq!(fingerprint_hash(first.as_bytes()), fingerprint_hash(second.as_bytes()));
    assert_eq!(fingerprint_hash(b""), 0xcbf2_9ce4_8422_2325);
    assert_eq!(fingerprint_hash(b"a"), 0xaf63_dc4c_8601_ec8c);
}

#[test]
fn cgnat_tiers_and_rules() {
    let c = fingerprint_counts(b"abca");
    assert_eq!(c[b'a' as usize], 2);
    assert_eq!(c[b'z' as usize], 0);
    assert_eq!(classify_tier(None, true), CGNAT_TIER_BLOCK);
    assert_eq!(classify_tier(Some(1), true), CGNAT_TIER_XDP_DROP);
    assert_eq!(classify_tier(Some(1), false), 1);
    assert_eq!(slot_index(0x1234_5678_9ABC_DEF0), 0xDEF0);
    let r = rule_for(7, 1_000, 60_000, 2, 0, true, [0; 16]);
    assert_eq!(r.expires_at_ms, 61_000);
    assert_eq!(r.flags, FLAG_SHARED_INFRA);
    assert_eq!(Hypothesis::FlashCrowd.index(), 3);
    assert_eq!(Hypothesis::from_index(1), Some(Hypothesis::VolumetricDoS));
    assert_eq!(Hypothesis::from_index(4), None);
    assert_eq!(AuditEventType::BlockDecision.code(), 0);
}

#[test]
fn flush_plan_tallies() {
    let gates = [
        IpGate { count: 10, subnet_hot: false, bloom_hit: false },
        IpGate { count: 2, subnet_hot: false, bloom_hit: false },
        IpGate { count: 1, subnet_hot: true, bloom_hit: false },
        IpGate { count: 3, subnet_hot: false, bloom_hit: true },
    ];
    let p = plan_flush(&gates, 8);
    assert_eq!(p.promote, vec![true, false, true, true]);
    assert_eq!((p.promoted, p.cold_skipped, p.promoted_events, p.cold_skipped_events), (3, 1, 14, 2));
    assert_eq!(flush_rate(500, 100_000_000), 5_000);
    assert_eq!(flush_rate(u64::MAX, 1), u64::MAX);
    assert!(subnet_is_hot(500, 500));
    assert!(!subnet_is_hot(499, 500));
    assert!(subnet_gate(50, 100, 50, 100));
    assert!(!subnet_gate(49, 1000, 50, 100));
    assert_eq!(status_bucket(404), 3);
    assert_eq!(status_bucket(99), 255);
    assert_eq!(block_decision(true, false, false, false), (false, true));
    assert_eq!(block_decision(true, true, false, false), (true, true));
    assert_eq!(block_decision(false, true, false, true), (true, false));
    assert!(cusum_armed(6));
    assert!(!cusum_armed(5));
}

#[test]
fn network_of_key_reconstructs_family() {
    let v4 = network_of_key(0x0a14_1e00);
    assert_eq!(v4.prefix_len, 24);
    assert_eq!(v4.addr, IpAddr::V4(0x0a14_1e00));
    let v6 = network_of_key(0x2001_0db8u128 << 96);
    assert_eq!(v6.prefix_len, 64);
}

#[test]
fn merge_counters_halves_after_window() {
    let mut c = IpCounters {
        request_count: 10,
        first_seen_ns: 0,
        last_seen_ns: 0,
        bytes_in: 5,
        status_dist: [0, u32::MAX, 0, 0, 0],
        sample_count: 255,
        prev_sample_hot: false,
        pulse_samples_in_window: 0,
        pulse_window_start_ns: 0,
    };
    let agg = IpAgg {
        count: 4,
        bytes: 7,
        status_dist: [1, 1, 0, 0, 0],
        proto_fp: 0,
        first_ts_ns: 1,
        last_ts_ns: 9,
    };
    merge_counters(&mut c, &agg, 100, 1_000);
    assert_eq!(c.request_count, 14);
    assert_eq!(c.status_dist, [1, u32::MAX, 0, 0, 0]);
    assert_eq!(c.sample_count, 255);
    assert_eq!(c.last_seen_ns, 9);
    merge_counters(&mut c, &agg, 5_000, 1_000);
    assert_eq!(c.request_count, 9);
    assert_eq!(c.first_seen_ns, 5_000);
    assert_eq!(c.bytes_in, 19);
}

#[test]
fn ip_agg_merge_with_widens_window() {
    let mut a = IpAgg { count: 1, bytes: 10, status_dist: [0, 0, 0, 1, 0], proto_fp: 7, first_ts_ns: 500, last_ts_ns: 500 };
    let b = IpAgg { count: 1, bytes: 15, status_dist: [0, 1, 0, 0, 0], proto_fp: 0, first_ts_ns: 200, last_ts_ns: 200 };
    a.merge_with(&b);
    assert_eq!(a.count, 2);
    assert_eq!(a.bytes, 25);
    assert_eq!(a.first_ts_ns, 200);
    assert_eq!(a.last_ts_ns, 500);
    assert_eq!(a.status_dist[3], 1);
    assert_eq!(a.status_dist[1], 1);
    assert_eq!(a.proto_fp, 7);
}

#[test]
fn aworset_concurrent_add_wins() {
    let mut a = Aworset::new();
    a.add("x".to_string());
    let mut b = Aworset::with_replica(1);
    b.remove("x".to_string());
    a.merge(&b);
    assert!(a.contains("x"), "a remove that never saw the add does not cancel it");
    // a remove that has observed the add does cancel it
    let mut c = Aworset::with_replica(2);
    c.merge(&a);
    c.remove("x".to_string());
    a.merge(&c);
    assert!(!a.contains("x"));
    assert!(a.is_empty());
}
