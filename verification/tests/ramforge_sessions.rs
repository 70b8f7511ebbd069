use ramshield::config::{Config, ForecastingChecks};
use ramshield::mesh::aworset::Aworset;
use ramshield::ramforge::{AuthEvent, BruteforceDetector, DetectionConfig};
use ramshield::storage::subnet::subnet_key_u128;
use ramshield::types::net::{ip_to_string, parse_ip};

fn cfg() -> DetectionConfig {
    DetectionConfig { max_failures: 3, adaptive_floor: 1, block_ttl_secs: 1, ..DetectionConfig::default() }
}

/// A failure from `ip` at `t` ns on the detector's clock.
fn fresh(ip: &str, t: u64) -> AuthEvent {
    AuthEvent { ip: parse_ip(ip).unwrap(), timestamp_ns: t, source: "test".into(), success: false, username: None }
}

fn fails(d: &mut BruteforceDetector, ip: &str, t: u64) -> bool {
    d.process_failure(&fresh(ip, t), t).is_some()
}

#[test]
fn threshold_triggers_block() {
    let mut m = BruteforceDetector::new(cfg());
    assert!(!fails(&mut m, "192.168.1.100", 0));
    assert!(!fails(&mut m, "192.168.1.100", 1));
    assert!(fails(&mut m, "192.168.1.100", 2));
}

#[test]
fn different_ips_independent() {
    let mut m = BruteforceDetector::new(cfg());
    assert!(!fails(&mut m, "10.0.0.1", 0));
    assert!(!fails(&mut m, "10.0.0.1", 1));
    assert!(!fails(&mut m, "10.0.0.2", 2));
    assert!(fails(&mut m, "10.0.0.1", 3));
    assert!(!fails(&mut m, "10.0.0.2", 4));
}

#[test]
fn cooldown_prevents_repeat_block() {
    let mut m = BruteforceDetector::new(cfg());
    let ip = "172.16.0.1";
    assert!(!fails(&mut m, ip, 0));
    assert!(!fails(&mut m, ip, 1));
    assert!(fails(&mut m, ip, 2));
    assert!(!fails(&mut m, ip, 3));
    assert!(!fails(&mut m, ip, 4));
}

#[test]
fn ipv6_support() {
    let mut m = BruteforceDetector::new(cfg());
    assert!(!fails(&mut m, "2001:db8::1", 0));
    assert!(!fails(&mut m, "2001:db8::1", 1));
    assert!(fails(&mut m, "2001:db8::1", 2));
}

#[test]
fn stats_snapshot() {
    let mut m = BruteforceDetector::new(cfg());
    assert_eq!(m.snapshot_stats().ips_tracked, 0);
    assert!(!fails(&mut m, "10.0.0.1", 0));
    assert!(!fails(&mut m, "10.0.0.2", 1));
    let s = m.snapshot_stats();
    assert_eq!(s.ips_tracked, 2);
    assert_eq!(s.currently_blocked, 0);
    assert_eq!(s.total_failures, 2);
}

#[test]
fn block_command_carries_context() {
    let mut m = BruteforceDetector::new(DetectionConfig::default());
    for t in 0..4 {
        m.process_failure(&fresh("192.168.1.50", t), t);
    }
    let cmd = m.process_failure(&fresh("192.168.1.50", 4), 4).expect("fifth failure blocks");
    assert_eq!(ip_to_string(&cmd.ip), "192.168.1.50");
    assert_eq!(cmd.reason.as_str(), "brute_force");
    assert_eq!(cmd.ttl_secs, 3600);
    assert!(cmd.context.contains("failures in 60s from test"));
    assert!(cmd.context.contains("strikes: 1"));
}

#[test]
fn cooldown_expiry_rearms_counter() {
    let mut m = BruteforceDetector::new(cfg());
    let ip = "203.0.113.77";
    fails(&mut m, ip, 0);
    fails(&mut m, ip, 1);
    assert!(fails(&mut m, ip, 2));
    let t = 1_100_000_000; // cooldown expired
    assert!(!fails(&mut m, ip, t));
    assert!(fails(&mut m, ip, t + 1));
    let t2 = t + 1_100_000_000; // cooldown expired again
    assert!(fails(&mut m, ip, t2));
}

#[test]
fn basic_operations() {
    let mut set = Aworset::new();
    set.add("peer1".to_string());
    assert!(set.contains("peer1"));
    set.remove("peer1".to_string());
    assert!(!set.contains("peer1"));
}

#[test]
fn crdt_merge() {
    let mut set_a = Aworset::new();
    let mut set_b = Aworset::new();
    set_a.add("item1".to_string());
    set_b.add("item2".to_string());
    set_a.merge(&set_b);
    assert!(set_a.contains("item1"));
    assert!(set_a.contains("item2"));
}

#[test]
fn default_config_validates() {
    let cfg = Config::default();
    let forecasting = ForecastingChecks {
        enabled: true,
        ewma_alpha_in_unit_range: true,
        seasonality_period: 3_600,
        anomaly_zscore_at_least_one: true,
    };
    cfg.validate(&forecasting).unwrap();
}

#[test]
fn families_never_collide() {
    let v4 = subnet_key_u128(parse_ip("1.2.3.4").unwrap()).unwrap();
    let v6 = subnet_key_u128(parse_ip("::102:304").unwrap()).unwrap();
    assert_ne!(v4, v6);
}
