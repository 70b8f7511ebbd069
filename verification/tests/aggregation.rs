use ramshield::detection::aggregate::{aggregate, aggregate_ips, subnet_counts_of};
use ramshield::detection::batch::{subnet_key, IpAgg};
use ramshield::types::events::ConnectionEvent;
use ramshield::types::net::{parse_ip, IpAddr};

fn ev(ip: IpAddr, n: u64) -> ConnectionEvent {
    ConnectionEvent { ip, timestamp_ns: n, bytes: 100, status_code: 200, proto_fingerprint: 0 }
}

#[test]
fn aggregate_counts() {
    let ip = parse_ip("1.2.3.4").unwrap();
    let a = aggregate(&[ev(ip, 1), ev(ip, 2), ev(ip, 3)]);
    assert_eq!(a.ips.len(), 1);
    assert_eq!(a.ips[0].0, ip);
    assert_eq!(a.ips[0].1.count, 3);
    let sk = subnet_key(ip).unwrap().0;
    assert_eq!(a.subnets.len(), 1);
    assert_eq!(a.subnets[0].key, sk);
    assert_eq!(a.subnets[0].events, 3, "3 events");
    assert_eq!(a.subnets[0].members, vec![ip], "distinct member captured for bitmap");
    assert_eq!(a.networks[0].0, sk);
}

#[test]
fn aggregate_dual_stack() {
    let ipv4 = parse_ip("10.0.0.1").unwrap();
    let ipv6 = parse_ip("2001:db8::1").unwrap();
    let a = aggregate(&[ev(ipv4, 1), ev(ipv4, 2), ev(ipv6, 3)]);
    assert_eq!(a.ips[0].1.count, 2);
    assert_eq!(a.ips[1].1.count, 1);
    assert_eq!(a.subnets.len(), 2);
    assert_eq!(a.networks.len(), 2);
    assert_eq!(a.networks.iter().filter(|(_, n)| n.family() == 4).count(), 1);
    assert_eq!(a.networks.iter().filter(|(_, n)| n.family() == 6).count(), 1);
}

#[test]
fn aggregate_keeps_first_seen_order_and_window() {
    let a = parse_ip("10.0.0.1").unwrap();
    let b = parse_ip("10.0.0.2").unwrap();
    let c = parse_ip("10.0.1.9").unwrap();
    let mut events = vec![ev(b, 5), ev(a, 6), ev(b, 7), ev(c, 8), ev(a, 9)];
    events[2].status_code = 503;
    events[2].bytes = 7;
    events[0].proto_fingerprint = 42;
    let ips = aggregate_ips(&events);
    let order: Vec<IpAddr> = ips.iter().map(|p| p.0).collect();
    assert_eq!(order, vec![b, a, c]);
    let agg_b: IpAgg = ips[0].1;
    assert_eq!((agg_b.count, agg_b.bytes, agg_b.first_ts_ns, agg_b.last_ts_ns, agg_b.proto_fp), (2, 107, 5, 7, 42));
    assert_eq!(agg_b.status_dist, [0, 1, 0, 0, 1]);
    let subnets = subnet_counts_of(&ips);
    assert_eq!(subnets.len(), 2);
    assert_eq!((subnets[0].events, subnets[0].members.clone()), (4, vec![b, a]));
    assert_eq!((subnets[1].events, subnets[1].members.clone()), (1, vec![c]));
}
