use std::time::Duration;

use ramshield::types::error::{reason_to_block_reason, BlockReason, Durability, RsError};
use ramshield::types::ip_network::IpNetwork;
use ramshield::types::net::{ip_to_string, parse_ip, IpAddr};
use ramshield::types::time::{
    EpochMillis, EpochNanos, MonotonicNanos, TimestampError, MAX_EVENT_AGE_NS, MAX_FUTURE_SKEW_NS,
};
use ramshield::types::util::BoundedVecDeque;

#[test]
fn epoch_millis_now_is_reasonable() {
    let ms = EpochMillis::now();
    assert!(ms.0 > 1_577_836_800_000);
}

#[test]
fn epoch_nanos_now_is_reasonable() {
    let ns = EpochNanos::now();
    assert!(ns.0 > 1_577_836_800_000_000_000);
}

#[test]
fn epoch_millis_to_nanos_roundtrip() {
    let ms = EpochMillis(1_700_000_000_000);
    let ns = ms.as_nanos();
    assert_eq!(ns.0, 1_700_000_000_000_000_000);
    let back = ns.as_millis();
    assert_eq!(back.0, ms.0);
}

#[test]
fn validate_accepts_current_time() {
    let now = EpochNanos::now();
    assert!(now.validate().is_ok());
}

#[test]
fn validate_rejects_far_future() {
    let now = EpochNanos::now();
    let future = EpochNanos(now.0 + MAX_FUTURE_SKEW_NS + 1);
    // Judged against the same clock reading: `validate` would read the clock
    // again, and any tick in between brings `future` back inside the bound.
    assert_eq!(future.validate_at(now.0), Err(TimestampError::TooFarFuture));
}

#[test]
fn validate_rejects_too_old() {
    let now = EpochNanos::now();
    let old = EpochNanos(now.0.saturating_sub(MAX_EVENT_AGE_NS + 1));
    assert_eq!(old.validate(), Err(TimestampError::TooOld));
}

#[test]
fn monotonic_nanos_duration() {
    let a = MonotonicNanos(1000);
    let b = MonotonicNanos(2000);
    let d = b.duration_since(a);
    assert_eq!(d, Duration::from_nanos(1000));
}

#[test]
fn monotonic_nanos_saturating_sub() {
    let a = MonotonicNanos(2000);
    let b = MonotonicNanos(1000);
    let d = b.duration_since(a);
    assert_eq!(d, Duration::ZERO);
}

#[test]
fn validate_at_bounds_are_inclusive() {
    let now = 1_000_000_000_000_000_000u64;
    assert_eq!(EpochNanos(now + MAX_FUTURE_SKEW_NS).validate_at(now), Ok(()));
    assert_eq!(EpochNanos(now - MAX_EVENT_AGE_NS).validate_at(now), Ok(()));
    assert_eq!(
        EpochNanos(now + MAX_FUTURE_SKEW_NS + 1).validate_at(now),
        Err(TimestampError::TooFarFuture)
    );
    assert_eq!(
        EpochNanos(now - MAX_EVENT_AGE_NS - 1).validate_at(now),
        Err(TimestampError::TooOld)
    );
    assert_eq!(TimestampError::TooOld.message(), "timestamp too old");
}

#[test]
fn epoch_millis_as_nanos_saturates() {
    assert_eq!(EpochMillis(u64::MAX).as_nanos().0, u64::MAX);
    assert_eq!(EpochNanos(1_999_999).as_millis().0, 1);
}

#[test]
fn block_reason_tokens_roundtrip() {
    for r in [
        BlockReason::HighRps,
        BlockReason::SubnetBatch,
        BlockReason::ForecastAnomaly,
        BlockReason::EntropyAnomaly,
        BlockReason::ManualBlock,
    ] {
        assert_eq!(BlockReason::from_reason_str(r.as_str()), Some(r));
    }
    assert_eq!(BlockReason::from_reason_str("syn_flood"), Some(BlockReason::HighRps));
    assert_eq!(BlockReason::from_reason_str("anomaly"), Some(BlockReason::EntropyAnomaly));
    assert_eq!(BlockReason::from_reason_str("bogus"), None);
    assert_eq!(BlockReason::SubnetBatch.as_str(), "subnet_burst");
}

#[test]
fn free_form_reasons_map_case_insensitively() {
    assert_eq!(reason_to_block_reason("HIGH_RPS"), BlockReason::HighRps);
    assert_eq!(reason_to_block_reason("Subnet_Burst"), BlockReason::SubnetBatch);
    assert_eq!(reason_to_block_reason("whatever"), BlockReason::ManualBlock);
}

#[test]
fn error_and_durability_values() {
    let e = RsError::CapacityExceeded { limit_mb: 4 };
    assert!(matches!(e, RsError::CapacityExceeded { limit_mb: 4 }));
    assert_ne!(Durability::NoSync, Durability::Fsync);
}

#[test]
fn ip_network_contains_and_pack() {
    let net = IpNetwork::new(IpAddr::from_v4_octets([10, 1, 2, 0]), 24).unwrap();
    assert!(net.contains(IpAddr::from_v4_octets([10, 1, 2, 200])));
    assert!(!net.contains(IpAddr::from_v4_octets([10, 1, 3, 1])));
    assert!(!net.contains(IpAddr::V6(0)));
    assert_eq!(net.pack(), 0x0a01_0200);
    let back = IpNetwork::unpack(net.pack(), 4, 24).unwrap();
    assert_eq!(back, net);
    assert!(IpNetwork::new(IpAddr::V4(0), 33).is_err());
    assert!(IpNetwork::unpack(0, 5, 8).is_err());
    assert_eq!(net.prefix_bytes(), vec![10, 1, 2]);
    let all = IpNetwork::new(IpAddr::V4(7), 0).unwrap();
    assert!(all.contains(IpAddr::V4(0xffff_ffff)));
}

#[test]
fn ipv6_network_prefix_bytes() {
    let net = IpNetwork::new(IpAddr::V6(0x2001_0db8u128 << 96), 33).unwrap();
    assert_eq!(net.prefix_bytes(), vec![0x20, 0x01, 0x0d, 0xb8, 0x00]);
    assert_eq!(net.family(), 6);
    assert!(net.contains(IpAddr::V6((0x2001_0db8u128 << 96) + 5)));
}

#[test]
fn ip_text_roundtrip() {
    let ip = IpAddr::from_v4_octets([192, 168, 1, 50]);
    assert_eq!(ip_to_string(&ip), "192.168.1.50");
    assert_eq!(parse_ip("192.168.1.50"), Some(ip));
    assert_eq!(parse_ip("2001:db8::1"), Some(IpAddr::V6((0x2001_0db8u128 << 96) + 1)));
    assert_eq!(ip_to_string(&IpAddr::V6((0x2001_0db8u128 << 96) + 1)), "2001:db8::1");
    assert_eq!(parse_ip("not an ip"), None);
    assert!(IpAddr::V4(0).is_unspecified());
    assert!(!IpAddr::V6(1).is_unspecified());
}

#[test]
fn bounded_deque_drops_oldest() {
    let mut q: BoundedVecDeque<u32> = BoundedVecDeque::new(3);
    assert!(q.is_empty());
    for i in 0..5 {
        q.push(i);
    }
    assert_eq!(q.len(), 3);
    assert_eq!(q.capacity(), 3);
    let items: Vec<u32> = q.iter().copied().collect();
    assert_eq!(items, vec![2, 3, 4]);
}
