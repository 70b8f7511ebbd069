//! IP addresses as numbers in network byte order.

use vstd::prelude::*;
use crate::bytes::{be_bytes, be_value, decode_be, encode_be, lemma_be_bytes_of_value, lemma_pow256_values};

verus! {

/// An IPv4 or IPv6 address, held as the big-endian number its wire octets
/// denote (octet 0 in the most significant position).
#[derive(Debug, Clone, Copy, PartialEq, Eq, Hash, Structural)]
pub enum IpAddr {
    V4(u32),
    V6(u128),
}

impl IpAddr {
    /// The address family: 4 or 6.
    pub open spec fn family_spec(&self) -> u8 {
        match *self {
            IpAddr::V4(_) => 4,
            IpAddr::V6(_) => 6,
        }
    }

    /// The wire octets of the address (4 or 16 of them).
    pub open spec fn octets_spec(&self) -> Seq<u8> {
        match *self {
            IpAddr::V4(v) => be_bytes(v as nat, 4),
            IpAddr::V6(v) => be_bytes(v as nat, 16),
        }
    }

    /// The address whose IPv4 wire octets are `o`.
    pub fn from_v4_octets(o: [u8; 4]) -> (r: IpAddr)
        ensures
            r.octets_spec() == o@,
            r == IpAddr::V4(be_value(o@) as u32),
    {
        proof {
            lemma_be_bytes_of_value(o@);
            lemma_pow256_values();
        }
        let v = decode_be(o.as_slice(), 0, 4);
        assert(o@.subrange(0, 4) =~= o@);
        IpAddr::V4(v as u32)
    }

    /// The address whose IPv6 wire octets are `o`.
    pub fn from_v6_octets(o: [u8; 16]) -> (r: IpAddr)
        ensures
            r.octets_spec() == o@,
            r == IpAddr::V6(be_value(o@) as u128),
    {
        proof {
            lemma_be_bytes_of_value(o@);
            lemma_pow256_values();
        }
        let v = decode_be(o.as_slice(), 0, 16);
        assert(o@.subrange(0, 16) =~= o@);
        IpAddr::V6(v)
    }

    /// The wire octets of the address.
    pub fn octets(&self) -> (r: Vec<u8>)
        ensures
            r@ == self.octets_spec(),
    {
        match self {
            IpAddr::V4(v) => encode_be(*v as u128, 4),
            IpAddr::V6(v) => encode_be(*v, 16),
        }
    }

    /// Whether this is an IPv4 address.
    pub fn is_ipv4(&self) -> (r: bool)
        ensures
            r == (self.family_spec() == 4),
    {
        match self {
            IpAddr::V4(_) => true,
            IpAddr::V6(_) => false,
        }
    }

    /// Whether this is the unspecified address (`0.0.0.0` or `::`).
    pub fn is_unspecified(&self) -> (r: bool)
        ensures
            r == (*self == IpAddr::V4(0) || *self == IpAddr::V6(0)),
    {
        match self {
            IpAddr::V4(v) => *v == 0,
            IpAddr::V6(v) => *v == 0,
        }
    }
}

/// The text `std` prints for an address (dotted quad, or the RFC 5952 form
/// of IPv6).
pub uninterp spec fn ip_text(ip: IpAddr) -> Seq<char>;

/// The address `std` parses from a text, if it is one.
pub uninterp spec fn ip_of_text(s: Seq<char>) -> Option<IpAddr>;

/// `core::net::IpAddr`'s `Display`: the text of the address. The contract
/// names the result; the formatting rules are std's. The printed forms
/// (dotted quad, RFC 5952) are among those `FromStr` reads, so parsing the
/// text gives the address back.
#[verifier::external_body]
pub fn ip_to_string(ip: &IpAddr) -> (r: String)
    ensures
        r@ == ip_text(*ip),
        ip_of_text(r@) == Some(*ip),
{
    let std_ip = match ip {
        IpAddr::V4(v) => core::net::IpAddr::V4(core::net::Ipv4Addr::from(*v)),
        IpAddr::V6(v) => core::net::IpAddr::V6(core::net::Ipv6Addr::from(*v)),
    };
    std_ip.to_string()
}

/// `str::parse::<core::net::IpAddr>`: the address a text denotes, if any.
/// The contract names the result; the grammar is std's.
#[verifier::external_body]
pub fn parse_ip(s: &str) -> (r: Option<IpAddr>)
    ensures
        r == ip_of_text(s@),
{
    match s.parse::<core::net::IpAddr>() {
        Ok(core::net::IpAddr::V4(v)) => Some(IpAddr::V4(u32::from(v))),
        Ok(core::net::IpAddr::V6(v)) => Some(IpAddr::V6(u128::from(v))),
        Err(_) => None,
    }
}

} // verus!
