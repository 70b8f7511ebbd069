//! The XDP dataplane's data formats: blocklist keys and values as the
//! kernel program reads them, map routing per family, and the drop events
//! it reports. Loading the program and touching the kernel maps is the
//! caller's.

use vstd::prelude::*;
use crate::arith::{sat_add_u64_spec, sat_mul_u64, sat_mul_u64_spec};
use crate::bytes::{decode_le, le_value};
use crate::types::net::IpAddr;

verus! {

/// Map value of a block that never expires.
pub const PERMANENT: u64 = u64::MAX;

/// The map value of a block: its absolute expiry on the monotonic clock,
/// or `PERMANENT` for a TTL of zero.
pub open spec fn blocklist_value_spec(now_ns: u64, ttl_seconds: u64) -> u64 {
    if ttl_seconds == 0 {
        PERMANENT
    } else {
        sat_add_u64_spec(now_ns, sat_mul_u64_spec(ttl_seconds, 1_000_000_000))
    }
}

/// Encode a TTL in seconds as a map value (absolute expiry in ns,
/// saturating; zero means permanent).
pub fn blocklist_value(now_ns: u64, ttl_seconds: u64) -> (r: u64)
    ensures
        r == blocklist_value_spec(now_ns, ttl_seconds),
{
    if ttl_seconds == 0 {
        return PERMANENT;
    }
    now_ns.saturating_add(sat_mul_u64(ttl_seconds, 1_000_000_000))
}

/// A blocklist map key: the 16 key bytes read as a little-endian number.
/// The kernel stores an address's wire octets at the start of the key, so
/// an IPv4 key is its four octets followed by zero padding.
#[derive(Debug, Clone, Copy, PartialEq, Eq, Hash, Structural)]
pub struct BlocklistKey(pub u128);

impl BlocklistKey {
    /// The key of an address: its wire octets, in order, as the key bytes.
    pub fn from_ip(ip: IpAddr) -> (r: BlocklistKey)
        ensures
            r.0 as nat == le_value(ip.octets_spec()),
    {
        let o = ip.octets();
        let n: usize = o.len();
        proof {
            match ip {
                IpAddr::V4(v) => crate::bytes::lemma_le_be_reverse(v as nat, 4),
                IpAddr::V6(v) => crate::bytes::lemma_le_be_reverse(v as nat, 16),
            }
        }
        let k = decode_le(o.as_slice(), 0, n);
        assert(o@.subrange(0, n as int) =~= o@);
        BlocklistKey(k)
    }
}

/// Name of the kernel map for an address's family.
pub fn xdp_map_for(ip: IpAddr) -> (r: &'static str)
    ensures
        r@ == (match ip {
            IpAddr::V4(_) => "BLOCKLIST"@,
            IpAddr::V6(_) => "BLOCKLIST6"@,
        }),
{
    match ip {
        IpAddr::V4(_) => "BLOCKLIST",
        IpAddr::V6(_) => "BLOCKLIST6",
    }
}

/// The keys of the addresses of one family, in order.
pub open spec fn keys_of_family(ips: Seq<IpAddr>, v4: bool) -> Seq<u128>
    decreases ips.len(),
{
    if ips.len() == 0 {
        Seq::empty()
    } else {
        let rest = keys_of_family(ips.drop_last(), v4);
        if (ips.last() is V4) == v4 {
            rest.push(le_value(ips.last().octets_spec()) as u128)
        } else {
            rest
        }
    }
}

/// Split expected blocks into the IPv4 map's keys and the IPv6 map's keys,
/// each in input order.
pub fn split_by_family(expected_blocks: &[IpAddr]) -> (r: (Vec<BlocklistKey>, Vec<BlocklistKey>))
    ensures
        r.0@.map_values(|k: BlocklistKey| k.0) == keys_of_family(expected_blocks@, true),
        r.1@.map_values(|k: BlocklistKey| k.0) == keys_of_family(expected_blocks@, false),
{
    let n: usize = expected_blocks.len();
    let mut v4: Vec<BlocklistKey> = Vec::new();
    let mut v6: Vec<BlocklistKey> = Vec::new();
    let mut i: usize = 0;
    while i < n
        invariant
            n == expected_blocks@.len(),
            i <= n,
            v4@.map_values(|k: BlocklistKey| k.0) == keys_of_family(
                expected_blocks@.take(i as int),
                true,
            ),
            v6@.map_values(|k: BlocklistKey| k.0) == keys_of_family(
                expected_blocks@.take(i as int),
                false,
            ),
        decreases n - i,
    {
        let ip = expected_blocks[i];
        assert(expected_blocks@.take(i + 1).drop_last() =~= expected_blocks@.take(i as int));
        let key = BlocklistKey::from_ip(ip);
        match ip {
            IpAddr::V4(_) => {
                let ghost before = v4@;
                v4.push(key);
                assert(v4@.map_values(|k: BlocklistKey| k.0) =~= before.map_values(
                    |k: BlocklistKey| k.0,
                ).push(key.0));
            },
            IpAddr::V6(_) => {
                let ghost before = v6@;
                v6.push(key);
                assert(v6@.map_values(|k: BlocklistKey| k.0) =~= before.map_values(
                    |k: BlocklistKey| k.0,
                ).push(key.0));
            },
        }
        i = i + 1;
    }
    assert(expected_blocks@.take(n as int) =~= expected_blocks@);
    (v4, v6)
}

/// A drop notification from the kernel program.
#[derive(Debug, Clone, Copy, PartialEq, Eq, Structural)]
pub struct XdpDropEvent {
    pub ip: IpAddr,
    pub ts_ns: u64,
    pub slot: u8,
}

/// What a drop record decodes to: the address from its first 16 bytes
/// (the first four as IPv4 for slot 0, all sixteen as IPv6 otherwise), the
/// little-endian timestamp at bytes 16..24 and the slot byte at 25; records
/// shorter than 26 bytes are refused.
pub open spec fn drop_event_of(rec: Seq<u8>) -> Option<XdpDropEvent> {
    if rec.len() < 26 {
        None
    } else {
        let slot = rec[25];
        let ip = if slot == 0 {
            IpAddr::V4(crate::bytes::be_value(rec.subrange(0, 4)) as u32)
        } else {
            IpAddr::V6(crate::bytes::be_value(rec.subrange(0, 16)) as u128)
        };
        Some(XdpDropEvent { ip, ts_ns: le_value(rec.subrange(16, 24)) as u64, slot })
    }
}

/// Parse one EVENTS record.
pub fn parse_drop_event(rec: &[u8]) -> (r: Option<XdpDropEvent>)
    ensures
        r == drop_event_of(rec@),
{
    let len: usize = rec.len();
    if len < 26 {
        return None;
    }
    let slot = rec[25];
    let ip = if slot == 0 {
        IpAddr::V4(crate::bytes::decode_be(rec, 0, 4) as u32)
    } else {
        IpAddr::V6(crate::bytes::decode_be(rec, 0, 16))
    };
    proof {
        crate::bytes::lemma_le_bytes_of_value(rec@.subrange(16, 24));
        crate::bytes::lemma_pow256_values();
        crate::bytes::lemma_be_bytes_of_value(rec@.subrange(0, 4));
    }
    let ts = decode_le(rec, 16, 8) as u64;
    Some(XdpDropEvent { ip, ts_ns: ts, slot })
}

} // verus!
