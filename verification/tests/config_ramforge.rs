use ramshield::config::{
    next_power_of_two, Config, ConfigError, DetectionConfig as EngineDetection, EnvOverrides,
    ForecastingChecks,
};
use ramshield::ramforge::{
    AuthEvent, AuthFailureCounter, BlockReason, BruteforceDetector, DetectionConfig,
};
use ramshield::text::{decimal_string, parse_bool, parse_decimal};
use ramshield::types::net::IpAddr;

#[test]
fn block_reason_strings() {
    assert_eq!(BlockReason::BruteForce.as_str(), "brute_force");
    assert_eq!(BlockReason::BehavioralAnomaly.as_str(), "behavioral_anomaly");
    assert_eq!(BlockReason::Manual.as_str(), "manual");
}

#[test]
fn config_defaults_match_nist_baseline() {
    let cfg = DetectionConfig::default();
    assert_eq!(cfg.max_failures, 5);
    assert_eq!(cfg.window_secs, 60);
    assert_eq!(cfg.block_ttl_secs, 3600);
    assert_eq!(cfg.adaptive_floor, 3);
    assert_eq!(cfg.evict_idle_secs, 86_400);
}

fn test_cfg() -> DetectionConfig {
    DetectionConfig { max_failures: 3, adaptive_floor: 1, block_ttl_secs: 1, ..DetectionConfig::default() }
}

fn evt(ip: IpAddr, t: u64) -> AuthEvent {
    AuthEvent { ip, timestamp_ns: t, source: "test".to_string(), success: false, username: None }
}

#[test]
fn escalating_strikes_lower_threshold() {
    let mut d = BruteforceDetector::new(test_cfg());
    let ip = IpAddr::from_v4_octets([172, 16, 0, 9]);
    assert!(d.process_failure(&evt(ip, 0), 0).is_none());
    assert!(d.process_failure(&evt(ip, 1), 1).is_none());
    let cmd = d.process_failure(&evt(ip, 2), 2).unwrap();
    assert_eq!(cmd.context, "3 failures in 60s from test (strikes: 1)");
    assert_eq!(cmd.ttl_secs, 1);
    // during cooldown: nothing
    assert!(d.process_failure(&evt(ip, 3), 3).is_none());
    // cooldown over (1 s): threshold 2
    let t = 1_100_000_000;
    assert!(d.process_failure(&evt(ip, t), t).is_none());
    assert!(d.process_failure(&evt(ip, t + 1), t + 1).is_some());
    // threshold floor 1
    let t2 = t + 1_200_000_000;
    assert!(d.process_failure(&evt(ip, t2), t2).is_some());
}

#[test]
fn window_expiry_resets_count() {
    let c = DetectionConfig { max_failures: 3, window_secs: 1, block_ttl_secs: 3600, ..DetectionConfig::default() };
    let mut d = BruteforceDetector::new(c);
    let ip = IpAddr::from_v4_octets([192, 168, 1, 10]);
    assert!(d.process_failure(&evt(ip, 0), 0).is_none());
    assert!(d.process_failure(&evt(ip, 10), 10).is_none());
    assert!(d.process_failure(&evt(ip, 1_100_000_000), 1_100_000_000).is_none());
    let s = d.snapshot_stats();
    assert_eq!((s.ips_tracked, s.currently_blocked, s.total_failures), (1, 0, 1));
}

#[test]
fn sweep_evicts_idle_and_clears_cooldowns() {
    let mut d = BruteforceDetector::new(DetectionConfig { evict_idle_secs: 10, ..test_cfg() });
    let a = IpAddr::from_v4_octets([10, 0, 0, 1]);
    let b = IpAddr::from_v4_octets([10, 0, 0, 2]);
    for t in 0..3 {
        d.process_failure(&evt(a, t), t);
    }
    d.process_failure(&evt(b, 0), 0);
    assert_eq!(d.snapshot_stats().currently_blocked, 1);
    d.sweep(20_000_000_000);
    let s = d.snapshot_stats();
    assert_eq!(s.ips_tracked, 0);
    let mut c = AuthFailureCounter::new(0);
    assert_eq!(c.threshold(&test_cfg()), 3);
    assert!(!c.record(5, &test_cfg()));
    assert!(!c.evictable(5, 0));
}

#[test]
fn engine_defaults_validate() {
    let cfg = Config::default();
    let f = ForecastingChecks { enabled: true, ewma_alpha_in_unit_range: true, seasonality_period: 3600, anomaly_zscore_at_least_one: true };
    assert_eq!(cfg.validate(&f), Ok(()));
    let d = EngineDetection::default();
    assert_eq!(d.subnet_burst_ttl_secs, 120);
    assert!(d.subnet_burst_ttl_secs < d.block_ttl_secs);
}

#[test]
fn validation_reports_first_violation() {
    let f = ForecastingChecks { enabled: true, ewma_alpha_in_unit_range: false, seasonality_period: 0, anomaly_zscore_at_least_one: false };
    let mut cfg = Config::default();
    assert_eq!(cfg.validate(&f), Err(ConfigError::EwmaAlphaOutOfRange));
    cfg.engine.shard_count = 100;
    assert_eq!(cfg.validate(&f), Err(ConfigError::ShardCountNotPowerOfTwo));
    cfg.engine.ram_limit_mb = 10;
    assert_eq!(cfg.validate(&f).unwrap_err().message(), "engine.ram_limit_mb must be at least 64 MB");
    let mut ok = Config::default();
    ok.dashboard.http_addr = String::new();
    let off = ForecastingChecks { enabled: false, ..f };
    assert_eq!(ok.validate(&off), Err(ConfigError::HttpAddrEmpty));
}

fn no_env() -> EnvOverrides {
    EnvOverrides {
        engine_ram_limit_mb: None,
        engine_worker_threads: None,
        engine_shard_count: None,
        detection_rps_threshold: None,
        detection_promote_min_events: None,
        detection_batch_window_ms: None,
        detection_subnet_window_threshold: None,
        detection_block_ttl_secs: None,
        detection_subnet_burst_ttl_secs: None,
        ipc_tcp_addr: None,
        ipc_max_connections: None,
        dashboard_enabled: None,
        dashboard_http_addr: None,
        forecasting_enabled: None,
    }
}

#[test]
fn env_var_override_ram_limit() {
    let mut cfg = Config::default();
    let env = EnvOverrides { engine_ram_limit_mb: Some("1024".to_string()), ..no_env() };
    cfg.apply_env_overrides(&env);
    assert_eq!(cfg.engine.ram_limit_mb, 1024);
}

#[test]
fn env_override_invalid_ignored() {
    let mut cfg = Config::default();
    let env = EnvOverrides {
        engine_ram_limit_mb: Some("not_a_number".to_string()),
        engine_shard_count: Some("100".to_string()),
        detection_promote_min_events: Some("4294967296".to_string()),
        dashboard_enabled: Some("false".to_string()),
        ipc_tcp_addr: Some("0.0.0.0:1".to_string()),
        forecasting_enabled: Some("yes".to_string()),
        ..no_env()
    };
    let fe = cfg.apply_env_overrides(&env);
    assert_eq!(cfg.engine.ram_limit_mb, 512);
    assert_eq!(cfg.engine.shard_count, 128);
    assert_eq!(cfg.detection.promote_min_events, 8);
    assert!(!cfg.dashboard.enabled);
    assert_eq!(cfg.ipc.tcp_addr, "0.0.0.0:1");
    assert_eq!(fe, None);
}

#[test]
fn parsing_matches_std() {
    for s in ["0", "+7", "18446744073709551615", "18446744073709551616", "", "+", "-1", "12a", " 1"] {
        assert_eq!(parse_decimal(s, u64::MAX), s.parse::<u64>().ok(), "{s}");
    }
    assert_eq!(parse_decimal("256", 255), None);
    assert_eq!(parse_bool("true"), Some(true));
    assert_eq!(parse_bool("True"), None);
    assert_eq!(decimal_string(0), "0");
    assert_eq!(decimal_string(u64::MAX), u64::MAX.to_string());
    assert_eq!(next_power_of_two(0), 1);
    assert_eq!(next_power_of_two(5), 8);
    assert_eq!(next_power_of_two(64), 64);
}
