use ramshield::detection::batch::{
    ip_in_subnet, subnet_key, subnet_key_v4, subnet_key_v6, subnet_prefix, IpAgg,
};
use ramshield::detection::bloom::BloomFilter;
use ramshield::detection::rate_tracker::pulse_tracker_step;
use ramshield::types::events::ConnectionEvent;
use ramshield::types::net::IpAddr;

#[test]
fn pulse_tracker_quiet_never_fires() {
    let mut c = 0u8;
    let mut s = 0u64;
    for i in 0..100u64 {
        let now = 1_000_000_000u64 + i * 1_000_000_000;
        let (_, _, fired) = pulse_tracker_step(c, s, now, false, 6, 2);
        assert!(!fired, "no over-threshold samples must not fire");
        c = 0;
        s = now;
    }
}

#[test]
fn pulse_tracker_two_of_three_fires() {
    let now0 = 1_000_000_000u64;
    let (c, _, fired) = pulse_tracker_step(0, 0, now0, true, 6, 2);
    assert_eq!(c, 1);
    assert!(!fired);
    let (c, _, fired) = pulse_tracker_step(c, now0, now0 + 1_500_000_000, true, 6, 2);
    assert_eq!(c, 2);
    assert!(fired, "second over-threshold inside 6s window must fire");
    let (c, _, fired) = pulse_tracker_step(c, now0, now0 + 10_000_000_000, true, 6, 2);
    assert_eq!(c, 1);
    assert!(!fired, "expired window must reset");
}

#[test]
fn pulse_tracker_spread_out_bursts_fire() {
    let t0 = 1_000_000_000u64;
    let mut c = 0u8;
    let mut s = 0u64;
    let mut fired_at: Vec<u64> = vec![];
    for burst in 0..4u64 {
        let t_burst = t0 + burst * 5_000_000_000;
        let (_, _, fired) = pulse_tracker_step(c, s, t_burst, true, 6, 2);
        if fired {
            fired_at.push(burst);
        }
        c = 1;
        s = t_burst;
    }
    assert!(
        !fired_at.is_empty(),
        "at least one pulse-wave fire expected across 4 bursts"
    );
}

#[test]
fn pulse_tracker_fires_once_per_window() {
    // count already at the threshold inside an open window: no second fire
    let (c, start, fired) = pulse_tracker_step(2, 1_000_000_000, 2_000_000_000, true, 6, 2);
    assert_eq!((c, start, fired), (3, 1_000_000_000, false));
}

#[test]
fn pulse_tracker_count_saturates() {
    let (c, start, fired) = pulse_tracker_step(255, 5, 6, true, 10, 255);
    assert_eq!(c, 255);
    assert_eq!(start, 5);
    assert!(!fired, "a count already at the threshold does not fire again");
}

fn v4(a: u8, b: u8, c: u8, d: u8) -> IpAddr {
    IpAddr::from_v4_octets([a, b, c, d])
}

#[test]
fn subnet_key_roundtrip() {
    let ip = v4(10, 20, 30, 40);
    let (key, net) = subnet_key(ip).unwrap();
    assert_eq!(subnet_prefix(key as u32), [10, 20, 30]);
    assert!(ip_in_subnet(ip, [10, 20, 30]));
    assert!(!ip_in_subnet(ip, [10, 20, 31]));
    assert_eq!(net.prefix_len, 24);
    assert_eq!(net.family(), 4);
}

#[test]
fn subnet_key_v6_roundtrip() {
    let ip = IpAddr::from_v6_octets([0x20, 0x01, 0x0d, 0xb8, 0, 0, 0, 0, 0, 1, 0, 2, 0, 3, 0, 4]);
    let (key, net) = subnet_key(ip).unwrap();
    assert_eq!(net.prefix_len, 64);
    assert_eq!(net.family(), 6);
    assert_eq!(net.addr.octets()[8..], [0u8; 8]);
    assert_eq!(key, net.pack());
}

#[test]
fn byte_order_normalization() {
    let key = subnet_key_v4([192, 168, 1, 100]);
    assert_eq!((key >> 24) as u8, 192);
    assert_eq!((key >> 16) as u8, 168);
    assert_eq!((key >> 8) as u8, 1);
    assert_eq!(key & 0xFF, 0);
    let key = subnet_key_v6([0x20, 0x01, 0x0d, 0xb8, 0, 0, 0, 1, 0, 0, 0, 0, 0, 0, 0, 1]);
    let bytes = key.to_be_bytes();
    assert_eq!(&bytes[..2], &[0x20, 0x01]);
    assert_eq!(&bytes[2..4], &[0x0d, 0xb8]);
    assert_eq!(&bytes[8..], &[0u8; 8]);
}

#[test]
fn ipv6_never_in_v4_prefix() {
    let ip = IpAddr::V6(1);
    assert!(!ip_in_subnet(ip, [0, 0, 0]));
}

#[test]
fn ip_agg_absorb_tracks_first_and_last() {
    let ip = v4(1, 2, 3, 4);
    let ev = |ts: u64, status: u16, fp: u32| ConnectionEvent {
        ip,
        timestamp_ns: ts,
        bytes: 100,
        status_code: status,
        proto_fingerprint: fp,
    };
    let mut a = IpAgg::default();
    a.absorb(&ev(10, 200, 7));
    a.absorb(&ev(20, 503, 9));
    a.absorb(&ev(30, 404, 9));
    a.absorb(&ev(40, 99, 9));
    a.absorb(&ev(50, 700, 9));
    assert_eq!(a.count, 5);
    assert_eq!(a.bytes, 500);
    assert_eq!(a.status_dist, [1, 1, 0, 1, 2]);
    assert_eq!(a.first_ts_ns, 10);
    assert_eq!(a.last_ts_ns, 50);
    assert_eq!(a.proto_fp, 7);
}

#[test]
fn bloom_has_no_false_negatives() {
    let mut bf = BloomFilter::new(1_000);
    let ips: Vec<IpAddr> = (0..200u32).map(|i| IpAddr::V4(0x0a00_0000 + i)).collect();
    for ip in &ips {
        bf.insert(*ip);
    }
    for ip in &ips {
        assert!(bf.contains(*ip));
    }
    bf.clear();
    assert!(!bf.contains_hashed(3, 5));
}

#[test]
fn bloom_hashed_slots_wrap_by_size() {
    let mut bf = BloomFilter::new(100);
    bf.insert_hashed(105, 7);
    assert!(bf.contains_hashed(5, 107));
    assert!(!bf.contains_hashed(5, 8));
}
