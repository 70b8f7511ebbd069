//! Subnet keys shared by detection and the subnet tables: IPv4 /24 packed
//! into the low 32 bits, IPv6 /64 as its full 128-bit number.

use vstd::prelude::*;
use crate::bytes::be_value;
use crate::detection::batch;
use crate::types::ip_network::{pack_spec, subnet_of, IpNetwork};
use crate::types::net::IpAddr;

verus! {

/// The /24 key of IPv4 octets (last octet zeroed).
pub fn subnet_key_v4(octets: [u8; 4]) -> (r: u32)
    ensures
        r == octets[0] * 0x100_0000 + octets[1] * 0x1_0000 + octets[2] * 0x100,
        r == (be_value(octets@) / 256) * 256,
{
    batch::subnet_key_v4(octets)
}

/// The /64 key of IPv6 octets (low 64 bits zeroed).
pub fn subnet_key_v6(octets: [u8; 16]) -> (r: u128)
    ensures
        r == (be_value(octets@) / 0x1_0000_0000_0000_0000) * 0x1_0000_0000_0000_0000,
{
    batch::subnet_key_v6(octets)
}

/// The subnet key and network of an address.
pub fn subnet_key(ip: IpAddr) -> (r: Option<(u128, IpNetwork)>)
    ensures
        r == Some((pack_spec(subnet_of(ip)), subnet_of(ip))),
{
    batch::subnet_key(ip)
}

/// The subnet key of an address, without its network.
pub fn subnet_key_u128(ip: IpAddr) -> (r: Option<u128>)
    ensures
        r == Some(pack_spec(subnet_of(ip))),
{
    let net = IpNetwork::of_ip(ip);
    Some(net.pack())
}

/// An IPv4 key and an IPv6 key coincide only when both are zero
/// (`0.0.0.0/24` against `::/64`): IPv4 keys stay below 2^32 and IPv6 keys
/// are multiples of 2^64.
pub proof fn lemma_family_keys_disjoint(a: u32, b: u128)
    ensures
        pack_spec(subnet_of(IpAddr::V4(a))) == pack_spec(subnet_of(IpAddr::V6(b))) ==> (
        pack_spec(subnet_of(IpAddr::V4(a))) == 0),
{
    let q = b / 0x1_0000_0000_0000_0000;
    assert(q * 0x1_0000_0000_0000_0000 < 0x1_0000_0000 ==> q == 0) by (nonlinear_arith)
        requires q >= 0;
}

} // verus!
