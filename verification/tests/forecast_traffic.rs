use ramshield::forecasting::{forecast_block_command, hypothesis_response, Hypothesis, FORECAST_BLOCK_TTL_SECS};
use ramshield::storage::traffic::TrafficCounters;
use ramshield::types::command::EnforceAction;
use ramshield::types::net::IpAddr;

#[test]
fn record_flush_replaces_the_window() {
    let mut t = TrafficCounters::new();
    assert_eq!(t.subnet_window().len(), 256);
    t.record_flush(5_000, 12, &[7, 8, 9]);
    assert_eq!((t.events_last_second, t.unique_ips_window), (5_000, 12));
    let w = t.subnet_window();
    assert_eq!(&w[..4], &[7, 8, 9, 0]);
    t.record_flush(1, 1, &[4]);
    let w = t.subnet_window();
    assert_eq!(&w[..3], &[4, 0, 0], "a shorter flush zeroes the stale slots");
    let many: Vec<u64> = (0..300).collect();
    t.record_flush(0, 0, &many);
    let w = t.subnet_window();
    assert_eq!(w.len(), 256);
    assert_eq!(w[255], 255);
}

#[test]
fn threat_samples_drain_in_push_order() {
    let mut t = TrafficCounters::new();
    let a = IpAddr::V4(1);
    let b = IpAddr::V4(2);
    t.push_threat_samples(vec![(a, 0.9f32.to_bits())]);
    t.push_threat_samples(vec![(b, 0.2f32.to_bits()), (a, 0.8f32.to_bits())]);
    let d = t.drain_threat_sample();
    assert_eq!(d, vec![(a, 0.9f32.to_bits()), (b, 0.2f32.to_bits()), (a, 0.8f32.to_bits())]);
    assert!(t.drain_threat_sample().is_empty());
}

#[test]
fn forecaster_responds_by_hypothesis() {
    assert_eq!(hypothesis_response(Some(Hypothesis::VolumetricDoS), 10), (true, false));
    assert_eq!(hypothesis_response(Some(Hypothesis::SlowRampDoS), 50), (true, true));
    assert_eq!(hypothesis_response(Some(Hypothesis::FlashCrowd), 50), (false, false));
    assert_eq!(hypothesis_response(None, 50), (false, false));
    assert_eq!(hypothesis_response(Some(Hypothesis::VolumetricDoS), 9), (false, false));
    let c = forecast_block_command(IpAddr::V4(7), 99, 1_700_000_000);
    assert_eq!((c.decision_id, c.ttl_seconds, c.timestamp_utc), (99, FORECAST_BLOCK_TTL_SECS, 1_700_000_000));
    assert_eq!((c.source.as_str(), c.actor.as_str(), c.reason.as_str()), ("forecasting", "system", "forecast_anomaly"));
    assert_eq!(c.action, EnforceAction::Block);
    assert_eq!(FORECAST_BLOCK_TTL_SECS, 300);
}
