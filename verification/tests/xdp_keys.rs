use ramshield::enforcement::xdp::{split_by_family, xdp_map_for, BlocklistKey};
use ramshield::types::net::{parse_ip, IpAddr};

fn ip(s: &str) -> IpAddr {
    parse_ip(s).unwrap()
}

/// The key's bytes as the little-endian dataplane stores them.
fn mem(s: &str) -> [u8; 16] {
    BlocklistKey::from_ip(ip(s)).0.to_le_bytes()
}

#[test]
fn v4_zero_all_zero_key_bytes() {
    let m = mem("0.0.0.0");
    assert_eq!(&m[..4], &[0, 0, 0, 0]);
    assert_eq!(&m[4..], &[0; 12]);
}

#[test]
fn v4_broadcast_all_ones() {
    let m = mem("255.255.255.255");
    assert_eq!(&m[..4], &[255, 255, 255, 255]);
    assert_eq!(&m[4..], &[0; 12]);
}

#[test]
fn v4_loopback() {
    let m = mem("127.0.0.1");
    assert_eq!(&m[..4], &[127, 0, 0, 1]);
    assert_eq!(&m[4..], &[0; 12]);
}

#[test]
fn v6_boundary_low_sextets_all_f() {
    let m = mem("2001:db8::ffff:ffff:ffff:ffff");
    assert_eq!(m, [0x20, 0x01, 0x0d, 0xb8, 0, 0, 0, 0, 0xff, 0xff, 0xff, 0xff, 0xff, 0xff, 0xff, 0xff]);
    assert_eq!(&m[8..], &[0xff; 8]);
}

#[test]
fn v6_loopback() {
    let m = mem("::1");
    assert_eq!(&m[..15], &[0; 15]);
    assert_eq!(m[15], 1);
}

#[test]
fn v6_zeros() {
    assert_eq!(mem("::"), [0; 16]);
}

#[test]
fn v6_all_ones() {
    assert_eq!(mem("ffff:ffff:ffff:ffff:ffff:ffff:ffff:ffff"), [0xff; 16]);
}

#[test]
fn split_empty() {
    let (v4, v6) = split_by_family(&[]);
    assert!(v4.is_empty());
    assert!(v6.is_empty());
}

#[test]
fn split_all_v4() {
    let ips: Vec<IpAddr> = ["1.0.0.1", "2.0.0.2", "255.255.255.254"].iter().map(|s| ip(s)).collect();
    let (v4, v6) = split_by_family(&ips);
    assert_eq!(v4.len(), 3);
    assert!(v6.is_empty());
}

#[test]
fn split_all_v6() {
    let ips: Vec<IpAddr> = ["::1", "2001:db8::1", "fe80::1"].iter().map(|s| ip(s)).collect();
    let (v4, v6) = split_by_family(&ips);
    assert!(v4.is_empty());
    assert_eq!(v6.len(), 3);
}

#[test]
fn split_mixed_preserves_order_and_separates() {
    let ips: Vec<IpAddr> = ["1.2.3.4", "2001:db8::1", "5.6.7.8", "fd00::9"].iter().map(|s| ip(s)).collect();
    let (v4, v6) = split_by_family(&ips);
    assert_eq!(v4.len(), 2);
    assert_eq!(v6.len(), 2);
    assert_eq!(v4[0], BlocklistKey::from_ip(ips[0]));
    assert_eq!(v4[1], BlocklistKey::from_ip(ips[2]));
    assert_eq!(v6[0], BlocklistKey::from_ip(ips[1]));
    assert_eq!(v6[1], BlocklistKey::from_ip(ips[3]));
    assert!(!v4.iter().any(|k| v6.contains(k)));
}

#[test]
fn roundtrip_v4_map_routing() {
    for s in ["0.0.0.0", "127.0.0.1", "10.0.0.1", "255.255.255.255"] {
        assert_eq!(xdp_map_for(ip(s)), "BLOCKLIST");
        assert_eq!(BlocklistKey::from_ip(ip(s)), BlocklistKey::from_ip(ip(s)));
    }
}

#[test]
fn roundtrip_v6_map_routing() {
    for s in ["::1", "::", "2001:db8::1", "ffff:ffff:ffff:ffff:ffff:ffff:ffff:ffff", "fe80::1"] {
        assert_eq!(xdp_map_for(ip(s)), "BLOCKLIST6");
        assert_eq!(BlocklistKey::from_ip(ip(s)), BlocklistKey::from_ip(ip(s)));
    }
}

#[test]
fn wire_contract_v6_matches_c_key_layout() {
    let m = mem("2001:db8::1");
    assert_eq!(m, [0x20, 0x01, 0x0d, 0xb8, 0, 0, 0, 0, 0, 0, 0, 0, 0, 0, 0, 1]);
}

#[test]
fn v4_v6_keys_are_distinct() {
    assert_ne!(BlocklistKey::from_ip(ip("1.2.3.4")), BlocklistKey::from_ip(ip("::102:304")));
}

#[test]
fn blocklist_blocklist6_separation() {
    for s in ["1.0.0.1", "10.0.0.1", "192.168.1.1", "255.255.255.255"] {
        assert_eq!(xdp_map_for(ip(s)), "BLOCKLIST");
    }
    for s in ["::1", "2001:db8::1", "fe80::1", "ff02::1"] {
        assert_eq!(xdp_map_for(ip(s)), "BLOCKLIST6");
    }
}
