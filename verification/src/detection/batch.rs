//! Per-flush aggregation of connection events: per-address counters and
//! the subnet keys (IPv4 /24, IPv6 /64) that group addresses into swarms.

use vstd::prelude::*;
use crate::bytes::{be_value, decode_be, lemma_be_bytes_of_value, lemma_pow256_values, pow256};
use crate::types::events::ConnectionEvent;
use crate::types::ip_network::{pack_spec, subnet_of, IpNetwork};
use crate::types::net::IpAddr;

verus! {

/// The status-class bucket of an HTTP status code: 1xx → 0, 2xx → 1, …,
/// 5xx and above → 4; codes under 200 land in bucket 0.
pub open spec fn status_bucket_of(code: u16) -> int {
    let q = code / 100;
    let b: int = if q >= 1 { q - 1 } else { 0 };
    if b > 4 { 4 } else { b }
}

/// Aggregated counters of one address over one flush window.
#[derive(Debug, Clone, Copy)]
pub struct IpAgg {
    pub count: u32,
    pub bytes: u64,
    pub status_dist: [u32; 5],
    pub proto_fp: u32,
    pub first_ts_ns: u64,
    pub last_ts_ns: u64,
}

impl Default for IpAgg {
    fn default() -> (r: Self)
        ensures
            r.count == 0,
            r.bytes == 0,
            r.status_dist@ == seq![0u32, 0, 0, 0, 0],
            r.proto_fp == 0,
            r.first_ts_ns == 0,
            r.last_ts_ns == 0,
    {
        IpAgg { count: 0, bytes: 0, status_dist: [0u32; 5], proto_fp: 0, first_ts_ns: 0, last_ts_ns: 0 }
    }
}

impl IpAgg {
    /// Fold one event into the counters: one more event, its bytes, its
    /// status bucket; the first event fixes the first timestamp and the
    /// protocol fingerprint, every event moves the last timestamp.
    pub fn absorb(&mut self, ev: &ConnectionEvent)
        requires
            old(self).count < u32::MAX,
            old(self).bytes + ev.bytes <= u64::MAX,
            old(self).status_dist[status_bucket_of(ev.status_code)] < u32::MAX,
        ensures
            final(self).count == old(self).count + 1,
            final(self).bytes == old(self).bytes + ev.bytes,
            final(self).status_dist@ == old(self).status_dist@.update(
                status_bucket_of(ev.status_code),
                (old(self).status_dist[status_bucket_of(ev.status_code)] + 1) as u32,
            ),
            final(self).first_ts_ns == (if old(self).count == 0 {
                ev.timestamp_ns
            } else {
                old(self).first_ts_ns
            }),
            final(self).proto_fp == (if old(self).count == 0 {
                ev.proto_fingerprint
            } else {
                old(self).proto_fp
            }),
            final(self).last_ts_ns == ev.timestamp_ns,
    {
        self.count = self.count + 1;
        self.bytes = self.bytes + ev.bytes;
        let q: u16 = ev.status_code / 100;
        let b0: u16 = q.saturating_sub(1);
        let bucket: usize = if b0 > 4 { 4 } else { b0 as usize };
        self.status_dist[bucket] = self.status_dist[bucket] + 1;
        if self.count == 1 {
            self.first_ts_ns = ev.timestamp_ns;
            self.proto_fp = ev.proto_fingerprint;
        }
        self.last_ts_ns = ev.timestamp_ns;
    }
}

impl IpAgg {
    /// Fold another worker's counters for the same address into these:
    /// counts, bytes and status buckets summed, the window widened to the
    /// earliest first and latest last timestamp, and the first non-zero
    /// fingerprint kept.
    pub fn merge_with(&mut self, other: &IpAgg)
        requires
            old(self).count + other.count <= u32::MAX,
            old(self).bytes + other.bytes <= u64::MAX,
            forall|i: int| 0 <= i < 5 ==> old(self).status_dist[i] + other.status_dist[i] <= u32::MAX,
        ensures
            final(self).count == old(self).count + other.count,
            final(self).bytes == old(self).bytes + other.bytes,
            forall|i: int|
                0 <= i < 5 ==> final(self).status_dist[i] == old(self).status_dist[i]
                    + other.status_dist[i],
            final(self).first_ts_ns == (if other.first_ts_ns < old(self).first_ts_ns {
                other.first_ts_ns
            } else {
                old(self).first_ts_ns
            }),
            final(self).last_ts_ns == (if other.last_ts_ns > old(self).last_ts_ns {
                other.last_ts_ns
            } else {
                old(self).last_ts_ns
            }),
            final(self).proto_fp == (if old(self).proto_fp == 0 {
                other.proto_fp
            } else {
                old(self).proto_fp
            }),
    {
        self.count = self.count + other.count;
        self.bytes = self.bytes + other.bytes;
        let mut i: usize = 0;
        while i < 5
            invariant
                i <= 5,
                forall|j: int| 0 <= j < 5 ==> old(self).status_dist[j] + other.status_dist[j] <= u32::MAX,
                forall|j: int| 0 <= j < i ==> self.status_dist[j] == old(self).status_dist[j] + other.status_dist[j],
                forall|j: int| i <= j < 5 ==> self.status_dist[j] == old(self).status_dist[j],
                self.count == old(self).count + other.count,
                self.bytes == old(self).bytes + other.bytes,
                self.first_ts_ns == old(self).first_ts_ns,
                self.last_ts_ns == old(self).last_ts_ns,
                self.proto_fp == old(self).proto_fp,
            decreases 5 - i,
        {
            self.status_dist[i] = self.status_dist[i] + other.status_dist[i];
            i = i + 1;
        }
        if other.first_ts_ns < self.first_ts_ns {
            self.first_ts_ns = other.first_ts_ns;
        }
        if other.last_ts_ns > self.last_ts_ns {
            self.last_ts_ns = other.last_ts_ns;
        }
        if self.proto_fp == 0 {
            self.proto_fp = other.proto_fp;
        }
    }
}

/// The /24 key of IPv4 octets: the big-endian number with its last octet
/// zeroed.
pub fn subnet_key_v4(octets: [u8; 4]) -> (r: u32)
    ensures
        r == octets[0] * 0x100_0000 + octets[1] * 0x1_0000 + octets[2] * 0x100,
        r == (be_value(octets@) / 256) * 256,
{
    let r: u32 = (octets[0] as u32) * 0x100_0000 + (octets[1] as u32) * 0x1_0000
        + (octets[2] as u32) * 0x100;
    proof {
        reveal_with_fuel(be_value, 5);
        let s = octets@;
        assert(s.drop_last().drop_last().drop_last().drop_last() =~= Seq::<u8>::empty());
        assert(s.drop_last().drop_last().drop_last() =~= seq![s[0]]);
        assert(s.drop_last().drop_last() =~= seq![s[0], s[1]]);
        assert(s.drop_last() =~= seq![s[0], s[1], s[2]]);
        assert(be_value(s) == s[0] * 0x100_0000 + s[1] * 0x1_0000 + s[2] * 0x100 + s[3]);
    }
    r
}

/// The /64 key of IPv6 octets: the big-endian number with its low 64 bits
/// zeroed.
pub fn subnet_key_v6(octets: [u8; 16]) -> (r: u128)
    ensures
        r == (be_value(octets@) / 0x1_0000_0000_0000_0000) * 0x1_0000_0000_0000_0000,
{
    proof {
        lemma_be_bytes_of_value(octets@);
        lemma_pow256_values();
        reveal_with_fuel(pow256, 17);
        assert(pow256(16) == 0x1_0000_0000_0000_0000_0000_0000_0000_0000);
    }
    let full: u128 = decode_be(octets.as_slice(), 0, 16);
    assert(octets@.subrange(0, 16) =~= octets@);
    (full / 0x1_0000_0000_0000_0000) * 0x1_0000_0000_0000_0000
}

/// The subnet key and network of an address: the /24 key in the low 32 bits
/// for IPv4, the /64 key for IPv6. Every address has one.
pub fn subnet_key(ip: IpAddr) -> (r: Option<(u128, IpNetwork)>)
    ensures
        r == Some((pack_spec(subnet_of(ip)), subnet_of(ip))),
{
    let net = IpNetwork::of_ip(ip);
    Some((net.pack(), net))
}

/// Whether `ip` is an IPv4 address in the /24 whose first three octets are
/// `prefix`. IPv6 addresses never match.
pub fn ip_in_subnet(ip: IpAddr, prefix: [u8; 3]) -> (r: bool)
    ensures
        r == (match ip {
            IpAddr::V4(v) => v / 256 == prefix[0] * 0x1_0000 + prefix[1] * 0x100 + prefix[2],
            IpAddr::V6(_) => false,
        }),
{
    match ip {
        IpAddr::V4(v) => {
            let p: u32 = (prefix[0] as u32) * 0x1_0000 + (prefix[1] as u32) * 0x100
                + prefix[2] as u32;
            v / 256 == p
        },
        IpAddr::V6(_) => false,
    }
}

/// The first three octets of a /24 key.
pub fn subnet_prefix(key: u32) -> (r: [u8; 3])
    ensures
        r@ == seq![
            ((key / 0x100_0000) % 256) as u8,
            ((key / 0x1_0000) % 256) as u8,
            ((key / 0x100) % 256) as u8,
        ],
{
    let r = [
        ((key / 0x100_0000) % 256) as u8,
        ((key / 0x1_0000) % 256) as u8,
        ((key / 0x100) % 256) as u8,
    ];
    assert(r@ =~= seq![r[0], r[1], r[2]]);
    r
}

/// Round trip: the prefix of the /24 key of some octets is their first
/// three octets.
pub proof fn lemma_subnet_prefix_of_key(o0: u8, o1: u8, o2: u8)
    ensures
        ({
            let key = o0 * 0x100_0000 + o1 * 0x1_0000 + o2 * 0x100;
            &&& (key / 0x100_0000) % 256 == o0
            &&& (key / 0x1_0000) % 256 == o1
            &&& (key / 0x100) % 256 == o2
        }),
{
    let key = o0 * 0x100_0000 + o1 * 0x1_0000 + o2 * 0x100;
    assert((key / 0x100_0000) % 256 == o0) by (nonlinear_arith)
        requires key == o0 * 0x100_0000 + o1 * 0x1_0000 + o2 * 0x100, o0 < 256, o1 < 256, o2 < 256;
    assert((key / 0x1_0000) % 256 == o1) by (nonlinear_arith)
        requires key == o0 * 0x100_0000 + o1 * 0x1_0000 + o2 * 0x100, o0 < 256, o1 < 256, o2 < 256;
    assert((key / 0x100) % 256 == o2) by (nonlinear_arith)
        requires key == o0 * 0x100_0000 + o1 * 0x1_0000 + o2 * 0x100, o0 < 256, o1 < 256, o2 < 256;
}

} // verus!
