//! CIDR networks over both address families.

use vstd::prelude::*;
use crate::bytes::{be_bytes, encode_be};
use crate::types::net::IpAddr;

verus! {

/// An IP network: an address and a CIDR prefix length
/// (0–32 for IPv4, 0–128 for IPv6).
#[derive(Debug, Clone, Copy, PartialEq, Eq, Hash, Structural)]
pub struct IpNetwork {
    pub addr: IpAddr,
    pub prefix_len: u8,
}

/// The longest prefix of an address family.
pub open spec fn max_prefix(a: IpAddr) -> u8 {
    match a {
        IpAddr::V4(_) => 32,
        IpAddr::V6(_) => 128,
    }
}

/// Whether the top `p` bits of two 32-bit values agree.
pub open spec fn top_bits_eq32(a: u32, b: u32, p: u8) -> bool {
    p == 0 || (a >> ((32 - p) as u32)) == (b >> ((32 - p) as u32))
}

/// Whether the top `p` bits of two 128-bit values agree.
pub open spec fn top_bits_eq128(a: u128, b: u128, p: u8) -> bool {
    p == 0 || (a >> ((128 - p) as u128)) == (b >> ((128 - p) as u128))
}

/// Whether `ip` lies inside `net`.
pub open spec fn contains_spec(net: IpNetwork, ip: IpAddr) -> bool {
    match (net.addr, ip) {
        (IpAddr::V4(n), IpAddr::V4(h)) => top_bits_eq32(n, h, net.prefix_len),
        (IpAddr::V6(n), IpAddr::V6(h)) => top_bits_eq128(n, h, net.prefix_len),
        _ => false,
    }
}

/// The packed key of a network: the IPv4 number in the low 32 bits, or the
/// full IPv6 number.
pub open spec fn pack_spec(net: IpNetwork) -> u128 {
    match net.addr {
        IpAddr::V4(v) => v as u128,
        IpAddr::V6(v) => v,
    }
}

/// What `unpack` builds from a packed key.
pub open spec fn unpack_spec(packed: u128, family: u8, prefix_len: u8) -> Result<IpNetwork, ()> {
    if family == 4 {
        if prefix_len > 32 {
            Err(())
        } else {
            Ok(IpNetwork { addr: IpAddr::V4((packed % 0x1_0000_0000) as u32), prefix_len })
        }
    } else if family == 6 {
        if prefix_len > 128 {
            Err(())
        } else {
            Ok(IpNetwork { addr: IpAddr::V6(packed), prefix_len })
        }
    } else {
        Err(())
    }
}

/// The leading octets `prefix_bytes` returns.
pub open spec fn prefix_bytes_spec(net: IpNetwork) -> Seq<u8> {
    let o = net.addr.octets_spec();
    match net.addr {
        IpAddr::V4(_) => {
            if net.prefix_len <= 8 {
                o.take(1)
            } else if net.prefix_len <= 16 {
                o.take(2)
            } else if net.prefix_len <= 24 {
                o.take(3)
            } else {
                o
            }
        },
        IpAddr::V6(_) => {
            let n = (net.prefix_len as int + 7) / 8;
            o.take(if n > 16 { 16 } else { n })
        },
    }
}

/// The /24 (IPv4) or /64 (IPv6) network of an address: host bits zeroed.
pub open spec fn subnet_of(ip: IpAddr) -> IpNetwork {
    match ip {
        IpAddr::V4(v) => IpNetwork { addr: IpAddr::V4(((v / 256) * 256) as u32), prefix_len: 24 },
        IpAddr::V6(v) => IpNetwork {
            addr: IpAddr::V6(((v / 0x1_0000_0000_0000_0000) * 0x1_0000_0000_0000_0000) as u128),
            prefix_len: 64,
        },
    }
}

impl IpNetwork {
    /// A network of `addr` with `prefix_len` bits, refused when the prefix is
    /// longer than the family allows.
    pub fn new(addr: IpAddr, prefix_len: u8) -> (r: Result<IpNetwork, &'static str>)
        ensures
            prefix_len <= max_prefix(addr) ==> r == Ok::<IpNetwork, &'static str>(
                IpNetwork { addr, prefix_len },
            ),
            prefix_len > max_prefix(addr) ==> r is Err,
    {
        let max: u8 = match addr {
            IpAddr::V4(_) => 32,
            IpAddr::V6(_) => 128,
        };
        if prefix_len > max {
            return Err("prefix length exceeds address family maximum");
        }
        Ok(IpNetwork { addr, prefix_len })
    }

    /// The /24 network of an IPv4 address (last octet zeroed).
    pub fn ipv4_subnet(ip: u32) -> (r: IpNetwork)
        ensures
            r == (IpNetwork { addr: IpAddr::V4(((ip / 256) * 256) as u32), prefix_len: 24 }),
    {
        IpNetwork { addr: IpAddr::V4((ip / 256) * 256), prefix_len: 24 }
    }

    /// The /64 network of an IPv6 address (low 64 bits zeroed).
    pub fn ipv6_subnet(ip: u128) -> (r: IpNetwork)
        ensures
            r == (IpNetwork {
                addr: IpAddr::V6(((ip / 0x1_0000_0000_0000_0000) * 0x1_0000_0000_0000_0000) as u128),
                prefix_len: 64,
            }),
    {
        IpNetwork {
            addr: IpAddr::V6((ip / 0x1_0000_0000_0000_0000) * 0x1_0000_0000_0000_0000),
            prefix_len: 64,
        }
    }

    /// The /24 (IPv4) or /64 (IPv6) network an address belongs to.
    pub fn of_ip(ip: IpAddr) -> (r: IpNetwork)
        ensures
            r == subnet_of(ip),
    {
        match ip {
            IpAddr::V4(v) => IpNetwork::ipv4_subnet(v),
            IpAddr::V6(v) => IpNetwork::ipv6_subnet(v),
        }
    }

    /// The address family: 4 or 6.
    pub fn family(&self) -> (r: u8)
        ensures
            r == self.addr.family_spec(),
    {
        match self.addr {
            IpAddr::V4(_) => 4,
            IpAddr::V6(_) => 6,
        }
    }

    /// Whether `ip` lies inside this network: same family, and the first
    /// `prefix_len` bits agree.
    pub fn contains(&self, ip: IpAddr) -> (r: bool)
        requires
            self.prefix_len <= max_prefix(self.addr),
        ensures
            r == contains_spec(*self, ip),
    {
        match (self.addr, ip) {
            (IpAddr::V4(net), IpAddr::V4(host)) => {
                if self.prefix_len == 0 {
                    true
                } else {
                    let s: u32 = (32 - self.prefix_len) as u32;
                    (net >> s) == (host >> s)
                }
            },
            (IpAddr::V6(net), IpAddr::V6(host)) => {
                if self.prefix_len == 0 {
                    true
                } else {
                    let s: u128 = (128 - self.prefix_len) as u128;
                    (net >> s) == (host >> s)
                }
            },
            _ => false,
        }
    }

    /// Pack the network address into a `u128` map key: IPv4 in the low 32
    /// bits, IPv6 as its full number.
    pub fn pack(&self) -> (r: u128)
        ensures
            r == pack_spec(*self),
    {
        match self.addr {
            IpAddr::V4(v) => v as u128,
            IpAddr::V6(v) => v,
        }
    }

    /// Rebuild a network from a packed key, its family (4 or 6) and prefix.
    pub fn unpack(packed: u128, family: u8, prefix_len: u8) -> (r: Result<IpNetwork, &'static str>)
        ensures
            r is Ok <==> unpack_spec(packed, family, prefix_len) is Ok,
            r is Ok ==> r->Ok_0 == unpack_spec(packed, family, prefix_len)->Ok_0,
    {
        if family == 4 {
            let addr = IpAddr::V4((packed % 0x1_0000_0000) as u32);
            IpNetwork::new(addr, prefix_len)
        } else if family == 6 {
            IpNetwork::new(IpAddr::V6(packed), prefix_len)
        } else {
            Err("invalid address family")
        }
    }

    /// The leading octets of the network address: 1–4 octets by /8 steps
    /// for IPv4, `ceil(prefix_len / 8)` octets for IPv6.
    pub fn prefix_bytes(&self) -> (r: Vec<u8>)
        ensures
            r@ == prefix_bytes_spec(*self),
    {
        let o = self.addr.octets();
        let n: usize = match self.addr {
            IpAddr::V4(_) => {
                if self.prefix_len <= 8 {
                    1
                } else if self.prefix_len <= 16 {
                    2
                } else if self.prefix_len <= 24 {
                    3
                } else {
                    4
                }
            },
            IpAddr::V6(_) => {
                let b: usize = (self.prefix_len as usize + 7) / 8;
                if b > 16 { 16 } else { b }
            },
        };
        proof {
            crate::bytes::lemma_le_be_reverse(pack_spec(*self) as nat, 4);
            crate::bytes::lemma_le_be_reverse(pack_spec(*self) as nat, 16);
        }
        let mut out: Vec<u8> = Vec::new();
        let mut i: usize = 0;
        while i < n
            invariant
                i <= n,
                n <= o@.len(),
                out@ == o@.take(i as int),
            decreases n - i,
        {
            out.push(o[i]);
            assert(o@.take(i + 1) =~= o@.take(i as int).push(o@[i as int]));
            i = i + 1;
        }
        assert(o@.take(o@.len() as int) =~= o@);
        out
    }
}

/// Unpacking a packed network with its own family and prefix gives it back.
pub proof fn lemma_pack_unpack_roundtrip(net: IpNetwork)
    requires
        net.prefix_len <= max_prefix(net.addr),
    ensures
        unpack_spec(pack_spec(net), net.addr.family_spec(), net.prefix_len) == Ok::<IpNetwork, ()>(net),
{
}

/// Every network contains its own address.
pub proof fn lemma_contains_own_address(net: IpNetwork)
    requires
        net.prefix_len <= max_prefix(net.addr),
    ensures
        contains_spec(net, net.addr),
{
}

/// Prefix law, IPv6: an address that differs from the network's address
/// only in bits below the prefix (`x` has none of the top `p` bits) lies in
/// the network, and one that differs in the last prefix bit, bit `128 - p`
/// counted from the least significant, does not: membership is exactly
/// agreement with the network's address on the top `p` bits.
pub proof fn lemma_v6_prefix_bits(n: u128, p: u8, x: u128, h: u128)
    requires
        1 <= p <= 128,
    ensures
        x >> ((128 - p) as u128) == 0 ==> contains_spec(
            IpNetwork { addr: IpAddr::V6(n), prefix_len: p },
            IpAddr::V6(n ^ x),
        ),
        !contains_spec(
            IpNetwork { addr: IpAddr::V6(n), prefix_len: p },
            IpAddr::V6(n ^ (1u128 << ((128 - p) as u128))),
        ),
        contains_spec(IpNetwork { addr: IpAddr::V6(n), prefix_len: p }, IpAddr::V6(h)) <==> ((n ^ h) >> (
        (128 - p) as u128)) == 0,
{
    let s: u128 = (128 - p) as u128;
    assert(x >> s == 0 ==> (n >> s) == ((n ^ x) >> s)) by (bit_vector)
        requires
            s < 128,
    ;
    assert((n >> s) != ((n ^ (1u128 << s)) >> s)) by (bit_vector)
        requires
            s < 128,
    ;
    let d: u128 = n ^ h;
    assert(n ^ d == h) by (bit_vector)
        requires
            d == n ^ h,
    ;
    assert(d >> s == 0 ==> (n >> s) == ((n ^ d) >> s)) by (bit_vector)
        requires
            s < 128,
    ;
    assert((n >> s) == (h >> s) ==> d >> s == 0) by (bit_vector)
        requires
            s < 128,
            d == n ^ h,
    ;
}

/// Prefix law, IPv4: an address that differs from the network's address
/// only in bits below the prefix lies in the network, and one that differs
/// in the last prefix bit, bit `32 - p`, does not: membership is exactly
/// agreement with the network's address on the top `p` bits.
pub proof fn lemma_v4_prefix_bits(n: u32, p: u8, x: u32, h: u32)
    requires
        1 <= p <= 32,
    ensures
        x >> ((32 - p) as u32) == 0 ==> contains_spec(
            IpNetwork { addr: IpAddr::V4(n), prefix_len: p },
            IpAddr::V4(n ^ x),
        ),
        !contains_spec(
            IpNetwork { addr: IpAddr::V4(n), prefix_len: p },
            IpAddr::V4(n ^ (1u32 << ((32 - p) as u32))),
        ),
        contains_spec(IpNetwork { addr: IpAddr::V4(n), prefix_len: p }, IpAddr::V4(h)) <==> ((n ^ h) >> (
        (32 - p) as u32)) == 0,
{
    let s: u32 = (32 - p) as u32;
    assert(x >> s == 0 ==> (n >> s) == ((n ^ x) >> s)) by (bit_vector)
        requires
            s < 32,
    ;
    assert((n >> s) != ((n ^ (1u32 << s)) >> s)) by (bit_vector)
        requires
            s < 32,
    ;
    let d: u32 = n ^ h;
    assert(n ^ d == h) by (bit_vector)
        requires
            d == n ^ h,
    ;
    assert(d >> s == 0 ==> (n >> s) == ((n ^ d) >> s)) by (bit_vector)
        requires
            s < 32,
    ;
    assert((n >> s) == (h >> s) ==> d >> s == 0) by (bit_vector)
        requires
            s < 32,
            d == n ^ h,
    ;
}

/// Family law: a network never contains an address of the other family,
/// and a network with prefix length zero contains every address of its own
/// family.
pub proof fn lemma_contains_family(net: IpNetwork, ip: IpAddr)
    ensures
        net.addr.family_spec() != ip.family_spec() ==> !contains_spec(net, ip),
        net.addr.family_spec() == ip.family_spec() && net.prefix_len == 0 ==> contains_spec(net, ip),
{
}

} // verus!
