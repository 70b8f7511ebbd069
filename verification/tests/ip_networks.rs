use ramshield::storage::subnet::{subnet_key, subnet_key_u128};
use ramshield::types::ip_network::IpNetwork;
use ramshield::types::net::{parse_ip, IpAddr};

fn ip(s: &str) -> IpAddr {
    parse_ip(s).unwrap()
}

fn v4_num(s: &str) -> u32 {
    match ip(s) {
        IpAddr::V4(v) => v,
        IpAddr::V6(_) => panic!("not v4"),
    }
}

fn v6_num(s: &str) -> u128 {
    match ip(s) {
        IpAddr::V6(v) => v,
        IpAddr::V4(_) => panic!("not v6"),
    }
}

#[test]
fn test_ipv4_network_creation() {
    let net = IpNetwork::ipv4_subnet(v4_num("192.168.1.100"));
    assert_eq!(net.prefix_len, 24);
    assert!(net.contains(ip("192.168.1.1")));
    assert!(net.contains(ip("192.168.1.254")));
    assert!(!net.contains(ip("192.168.2.1")));
}

#[test]
fn test_ipv6_network_creation() {
    let net = IpNetwork::ipv6_subnet(v6_num("2001:db8::1:2:3:4"));
    assert_eq!(net.prefix_len, 64);
    assert!(net.contains(ip("2001:db8::1")));
    assert!(!net.contains(ip("2001:db9::1")));
}

#[test]
fn test_contains_cross_family() {
    let ipv4_net = IpNetwork::ipv4_subnet(v4_num("10.0.0.1"));
    assert!(!ipv4_net.contains(ip("::1")));
}

#[test]
fn test_pack_unpack_ipv4() {
    let net = IpNetwork::ipv4_subnet(v4_num("10.20.30.40"));
    let packed = net.pack();
    let unpacked = IpNetwork::unpack(packed, 4, 24).unwrap();
    assert_eq!(net, unpacked);
}

#[test]
fn test_prefix_bytes() {
    let ipv4_net = IpNetwork::new(ip("10.20.30.40"), 24).unwrap();
    assert_eq!(ipv4_net.prefix_bytes(), vec![10, 20, 30]);
    let ipv6_net = IpNetwork::new(ip("2001:db8::1"), 64).unwrap();
    assert_eq!(ipv6_net.prefix_bytes().len(), 8);
}

#[test]
fn test_invalid_prefix_length() {
    assert!(IpNetwork::new(ip("1.2.3.4"), 33).is_err());
    assert!(IpNetwork::new(ip("::1"), 129).is_err());
}

#[test]
fn v4_roundtrip() {
    let (key, net) = subnet_key(ip("10.20.30.40")).unwrap();
    assert_eq!(key, (10u32 << 24 | 20 << 16 | 30 << 8) as u128);
    assert_eq!(net.prefix_len, 24);
    assert_eq!(net.prefix_bytes(), vec![10, 20, 30]);
}

#[test]
fn v6_host_bits_zeroed() {
    let a = ip("2001:db8::1");
    let (key, net) = subnet_key(a).unwrap();
    assert_eq!(key & 0xFFFF, 0);
    assert_eq!(net.prefix_len, 64);
    let k2 = subnet_key_u128(a).unwrap();
    assert_eq!(key, k2);
}
