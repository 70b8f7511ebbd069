//! One flush window's events grouped by address and by subnet, in the
//! order addresses and subnets were first seen.

use vstd::prelude::*;
use crate::detection::batch::{status_bucket_of, IpAgg};
use crate::types::events::ConnectionEvent;
use crate::types::ip_network::{pack_spec, subnet_of, IpNetwork};
use crate::types::net::IpAddr;

verus! {

/// The addresses of `es` in the order they first appear.
pub open spec fn first_seen(es: Seq<ConnectionEvent>) -> Seq<IpAddr>
    decreases es.len(),
{
    if es.len() == 0 {
        Seq::empty()
    } else {
        let s = first_seen(es.drop_last());
        if s.contains(es.last().ip) {
            s
        } else {
            s.push(es.last().ip)
        }
    }
}

/// The events of `es` from `ip`, in order.
pub open spec fn events_of(es: Seq<ConnectionEvent>, ip: IpAddr) -> Seq<ConnectionEvent>
    decreases es.len(),
{
    if es.len() == 0 {
        Seq::empty()
    } else {
        let s = events_of(es.drop_last(), ip);
        if es.last().ip == ip {
            s.push(es.last())
        } else {
            s
        }
    }
}

/// The total bytes of `es`.
pub open spec fn bytes_sum(es: Seq<ConnectionEvent>) -> nat
    decreases es.len(),
{
    if es.len() == 0 {
        0
    } else {
        bytes_sum(es.drop_last()) + es.last().bytes as nat
    }
}

/// How many events of `es` fall in status bucket `b`.
pub open spec fn bucket_count(es: Seq<ConnectionEvent>, b: int) -> nat
    decreases es.len(),
{
    if es.len() == 0 {
        0
    } else {
        bucket_count(es.drop_last(), b) + (if status_bucket_of(es.last().status_code) == b {
            1nat
        } else {
            0nat
        })
    }
}

/// Whether `a` holds the counters of the (non-empty) events `es` of one
/// address: their number, bytes and status buckets, the first event's
/// timestamp and fingerprint, and the last event's timestamp.
pub open spec fn summarizes(a: IpAgg, es: Seq<ConnectionEvent>) -> bool {
    &&& es.len() > 0
    &&& a.count == es.len()
    &&& a.bytes == bytes_sum(es)
    &&& forall|b: int| 0 <= b < 5 ==> a.status_dist[b] == bucket_count(es, b)
    &&& a.first_ts_ns == es[0].timestamp_ns
    &&& a.proto_fp == es[0].proto_fingerprint
    &&& a.last_ts_ns == es.last().timestamp_ns
}

proof fn lemma_push_unfolds(p: Seq<ConnectionEvent>, e: ConnectionEvent)
    ensures
        first_seen(p.push(e)) == (if first_seen(p).contains(e.ip) {
            first_seen(p)
        } else {
            first_seen(p).push(e.ip)
        }),
        forall|ip: IpAddr| #[trigger] events_of(p.push(e), ip) == (if e.ip == ip {
            events_of(p, ip).push(e)
        } else {
            events_of(p, ip)
        }),
{
    assert(p.push(e).drop_last() =~= p);
    assert forall|ip: IpAddr| #[trigger] events_of(p.push(e), ip) == (if e.ip == ip {
        events_of(p, ip).push(e)
    } else {
        events_of(p, ip)
    }) by {
        assert(p.push(e).drop_last() =~= p);
    }
}

proof fn lemma_sums_push(s: Seq<ConnectionEvent>, e: ConnectionEvent)
    ensures
        bytes_sum(s.push(e)) == bytes_sum(s) + e.bytes,
        forall|b: int| #[trigger] bucket_count(s.push(e), b) == bucket_count(s, b) + (if status_bucket_of(
            e.status_code,
        ) == b {
            1nat
        } else {
            0nat
        }),
{
    assert(s.push(e).drop_last() =~= s);
    assert forall|b: int| #[trigger] bucket_count(s.push(e), b) == bucket_count(s, b) + (if status_bucket_of(
        e.status_code,
    ) == b {
        1nat
    } else {
        0nat
    }) by {
        assert(s.push(e).drop_last() =~= s);
    }
}

proof fn lemma_events_of_bounds(p: Seq<ConnectionEvent>, ip: IpAddr)
    ensures
        events_of(p, ip).len() <= p.len(),
        bytes_sum(events_of(p, ip)) <= bytes_sum(p),
        first_seen(p).contains(ip) <==> events_of(p, ip).len() > 0,
        first_seen(p).no_duplicates(),
    decreases p.len(),
{
    if p.len() > 0 {
        let q = p.drop_last();
        lemma_events_of_bounds(q, ip);
        assert(q.push(p.last()) =~= p);
        lemma_push_unfolds(q, p.last());
        lemma_sums_push(events_of(q, ip), p.last());
        assert(bytes_sum(p) == bytes_sum(q) + p.last().bytes);
        let s = first_seen(q);
        let x = p.last().ip;
        if !s.contains(x) {
            assert forall|i: int, j: int| 0 <= i < j < s.push(x).len() implies s.push(x)[i] != s.push(
                x,
            )[j] by {
                if j == s.len() {
                    assert(s.contains(s[i]));
                }
            }
            assert(s.push(x)[s.len() as int] == x);
            if ip != x {
                if first_seen(p).contains(ip) {
                    let k = choose|k: int| 0 <= k < first_seen(p).len() && first_seen(p)[k] == ip;
                    assert(k < s.len());
                    assert(s[k] == ip);
                }
                if s.contains(ip) {
                    let k = choose|k: int| 0 <= k < s.len() && s[k] == ip;
                    assert(first_seen(p)[k] == ip);
                }
            }
        }
    }
}

proof fn lemma_bucket_bound(s: Seq<ConnectionEvent>, b: int)
    ensures
        bucket_count(s, b) <= s.len(),
    decreases s.len(),
{
    if s.len() > 0 {
        lemma_bucket_bound(s.drop_last(), b);
    }
}

proof fn lemma_bytes_prefix(es: Seq<ConnectionEvent>, i: int)
    requires
        0 <= i <= es.len(),
    ensures
        bytes_sum(es.take(i)) <= bytes_sum(es),
    decreases es.len(),
{
    if i < es.len() {
        let q = es.drop_last();
        assert(es.take(i) =~= q.take(i));
        lemma_bytes_prefix(q, i);
    } else {
        assert(es.take(i) =~= es);
    }
}

/// The sum of the counts of `s`.
pub open spec fn total_count(s: Seq<(IpAddr, IpAgg)>) -> nat
    decreases s.len(),
{
    if s.len() == 0 {
        0
    } else {
        total_count(s.drop_last()) + s.last().1.count as nat
    }
}

proof fn lemma_total_update(s: Seq<(IpAddr, IpAgg)>, j: int, v: (IpAddr, IpAgg))
    requires
        0 <= j < s.len(),
    ensures
        total_count(s.update(j, v)) + s[j].1.count == total_count(s) + v.1.count,
    decreases s.len(),
{
    let u = s.update(j, v);
    if j == s.len() - 1 {
        assert(u.drop_last() =~= s.drop_last());
    } else {
        assert(u.drop_last() =~= s.drop_last().update(j, v));
        lemma_total_update(s.drop_last(), j, v);
    }
}

/// The position of `ip` in `aggs`, or its length when absent.
fn find_agg(aggs: &Vec<(IpAddr, IpAgg)>, ip: IpAddr) -> (r: usize)
    ensures
        r <= aggs@.len(),
        r < aggs@.len() ==> aggs@[r as int].0 == ip,
        r == aggs@.len() ==> forall|j: int| 0 <= j < aggs@.len() ==> aggs@[j].0 != ip,
{
    let n = aggs.len();
    let mut i: usize = 0;
    while i < n
        invariant
            n == aggs@.len(),
            i <= n,
            forall|j: int| 0 <= j < i ==> aggs@[j].0 != ip,
        decreases n - i,
    {
        if aggs[i].0 == ip {
            return i;
        }
        i = i + 1;
    }
    i
}

/// Per-address counters of a flush window's events, one entry per
/// address in first-seen order.
pub fn aggregate_ips(events: &[ConnectionEvent]) -> (r: Vec<(IpAddr, IpAgg)>)
    requires
        events@.len() <= u32::MAX,
        bytes_sum(events@) <= u64::MAX,
    ensures
        r@.len() == first_seen(events@).len(),
        forall|k: int|
            0 <= k < r@.len() ==> #[trigger] r@[k].0 == first_seen(events@)[k] && summarizes(
                r@[k].1,
                events_of(events@, r@[k].0),
            ),
        total_count(r@) == events@.len(),
        forall|k: u128| #[trigger] count_in(r@, k) == key_events(events@, k),
{
    let mut out: Vec<(IpAddr, IpAgg)> = Vec::new();
    let n = events.len();
    let mut i: usize = 0;
    while i < n
        invariant
            n == events@.len(),
            n <= u32::MAX,
            bytes_sum(events@) <= u64::MAX,
            i <= n,
            out@.len() == first_seen(events@.take(i as int)).len(),
            forall|k: int|
                0 <= k < out@.len() ==> #[trigger] out@[k].0 == first_seen(events@.take(i as int))[k]
                    && summarizes(out@[k].1, events_of(events@.take(i as int), out@[k].0)),
            total_count(out@) == i,
            forall|k: u128| #[trigger] count_in(out@, k) == key_events(events@.take(i as int), k),
        decreases n - i,
    {
        let e = events[i];
        let ghost p = events@.take(i as int);
        assert(events@.take(i as int + 1) =~= p.push(e));
        proof {
            lemma_push_unfolds(p, e);
            lemma_events_of_bounds(p, e.ip);
            lemma_bytes_prefix(events@, i as int + 1);
            lemma_sums_push(p, e);
            lemma_sums_push(events_of(p, e.ip), e);
            lemma_bucket_bound(events_of(p, e.ip), status_bucket_of(e.status_code));
        }
        let j = find_agg(&out, e.ip);
        if j < out.len() {
            proof {
                assert(first_seen(p)[j as int] == e.ip);
                assert(first_seen(p).contains(e.ip));
            }
            let mut a = out[j].1;
            a.absorb(&e);
            proof {
                lemma_total_update(out@, j as int, (e.ip, a));
                assert forall|k: u128| #[trigger] count_in(out@.update(j as int, (e.ip, a)), k)
                    == key_events(p.push(e), k) by {
                    lemma_count_in_update(out@, j as int, (e.ip, a), k);
                    assert(p.push(e).drop_last() =~= p);
                }
            }
            out.set(j, (e.ip, a));
            proof {
                lemma_events_of_bounds(p, e.ip);
                assert forall|k: int| 0 <= k < out@.len() implies #[trigger] out@[k].0 == first_seen(
                    events@.take(i as int + 1),
                )[k] && summarizes(out@[k].1, events_of(events@.take(i as int + 1), out@[k].0)) by {
                    if k == j {
                        let s = events_of(p, e.ip);
                        assert(s.push(e)[0] == s[0]);
                    } else {
                        assert(first_seen(p)[k] != first_seen(p)[j as int]);
                    }
                }
            }
        } else {
            proof {
                assert(!first_seen(p).contains(e.ip)) by {
                    if first_seen(p).contains(e.ip) {
                        let k = choose|k: int| 0 <= k < first_seen(p).len() && first_seen(p)[k] == e.ip;
                        assert(out@[k].0 == e.ip);
                    }
                }
                assert(events_of(p, e.ip) =~= Seq::<ConnectionEvent>::empty());
                assert(bytes_sum(Seq::<ConnectionEvent>::empty()) == 0);
            }
            let mut a = IpAgg::default();
            a.absorb(&e);
            let ghost before = out@;
            out.push((e.ip, a));
            proof {
                assert(out@.drop_last() =~= before);
                lemma_subnet_push(before, (e.ip, a));
                assert(out@ == before.push((e.ip, a)));
                assert forall|k: u128| #[trigger] count_in(out@, k) == key_events(p.push(e), k) by {
                    assert(p.push(e).drop_last() =~= p);
                }
                let s0 = Seq::<ConnectionEvent>::empty();
                assert(s0.push(e)[0] == e);
                assert forall|b: int| 0 <= b < 5 implies a.status_dist[b] == bucket_count(s0.push(e), b) by {
                    assert(bucket_count(s0, b) == 0);
                }
                assert forall|k: int| 0 <= k < out@.len() implies #[trigger] out@[k].0 == first_seen(
                    events@.take(i as int + 1),
                )[k] && summarizes(out@[k].1, events_of(events@.take(i as int + 1), out@[k].0)) by {
                    if k < out@.len() - 1 {
                        assert(out@[k].0 != e.ip);
                    }
                }
            }
        }
        i = i + 1;
    }
    assert(events@.take(n as int) =~= events@);
    out
}

/// The subnet key of an address (IPv4 /24 in the low 32 bits, IPv6 /64).
pub open spec fn skey(ip: IpAddr) -> u128 {
    pack_spec(subnet_of(ip))
}

/// The subnet keys of `s`'s addresses in the order they first appear.
pub open spec fn first_keys(s: Seq<(IpAddr, IpAgg)>) -> Seq<u128>
    decreases s.len(),
{
    if s.len() == 0 {
        Seq::empty()
    } else {
        let ks = first_keys(s.drop_last());
        if ks.contains(skey(s.last().0)) {
            ks
        } else {
            ks.push(skey(s.last().0))
        }
    }
}

/// The addresses of `s` in subnet `k`, in order.
pub open spec fn members_in(s: Seq<(IpAddr, IpAgg)>, k: u128) -> Seq<IpAddr>
    decreases s.len(),
{
    if s.len() == 0 {
        Seq::empty()
    } else {
        let m = members_in(s.drop_last(), k);
        if skey(s.last().0) == k {
            m.push(s.last().0)
        } else {
            m
        }
    }
}

/// The summed counts of `s`'s addresses in subnet `k`.
pub open spec fn count_in(s: Seq<(IpAddr, IpAgg)>, k: u128) -> nat
    decreases s.len(),
{
    if s.len() == 0 {
        0
    } else {
        count_in(s.drop_last(), k) + (if skey(s.last().0) == k {
            s.last().1.count as nat
        } else {
            0nat
        })
    }
}

/// One subnet's share of a flush window: its key, its events, and its
/// member addresses.
#[derive(Debug, Clone)]
pub struct SubnetCount {
    pub key: u128,
    pub events: u32,
    pub members: Vec<IpAddr>,
}

proof fn lemma_subnet_push(s: Seq<(IpAddr, IpAgg)>, x: (IpAddr, IpAgg))
    ensures
        first_keys(s.push(x)) == (if first_keys(s).contains(skey(x.0)) {
            first_keys(s)
        } else {
            first_keys(s).push(skey(x.0))
        }),
        forall|k: u128| #[trigger] members_in(s.push(x), k) == (if skey(x.0) == k {
            members_in(s, k).push(x.0)
        } else {
            members_in(s, k)
        }),
        forall|k: u128| #[trigger] count_in(s.push(x), k) == count_in(s, k) + (if skey(x.0) == k {
            x.1.count as nat
        } else {
            0nat
        }),
        total_count(s.push(x)) == total_count(s) + x.1.count,
{
    assert(s.push(x).drop_last() =~= s);
    assert forall|k: u128| #[trigger] members_in(s.push(x), k) == (if skey(x.0) == k {
        members_in(s, k).push(x.0)
    } else {
        members_in(s, k)
    }) by {
        assert(s.push(x).drop_last() =~= s);
    }
    assert forall|k: u128| #[trigger] count_in(s.push(x), k) == count_in(s, k) + (if skey(x.0) == k {
        x.1.count as nat
    } else {
        0nat
    }) by {
        assert(s.push(x).drop_last() =~= s);
    }
}

proof fn lemma_subnet_bounds(s: Seq<(IpAddr, IpAgg)>, k: u128)
    ensures
        count_in(s, k) <= total_count(s),
        first_keys(s).contains(k) <==> members_in(s, k).len() > 0,
        !first_keys(s).contains(k) ==> count_in(s, k) == 0,
        first_keys(s).no_duplicates(),
    decreases s.len(),
{
    if s.len() > 0 {
        let q = s.drop_last();
        let x = s.last();
        lemma_subnet_bounds(q, k);
        assert(q.push(x) =~= s);
        lemma_subnet_push(q, x);
        let ks = first_keys(q);
        let kx = skey(x.0);
        if !ks.contains(kx) {
            assert forall|i: int, j: int| 0 <= i < j < ks.push(kx).len() implies ks.push(kx)[i]
                != ks.push(kx)[j] by {
                if j == ks.len() {
                    assert(ks.contains(ks[i]));
                }
            }
            assert(ks.push(kx)[ks.len() as int] == kx);
            if k != kx {
                if first_keys(s).contains(k) {
                    let i = choose|i: int| 0 <= i < first_keys(s).len() && first_keys(s)[i] == k;
                    assert(ks[i] == k);
                }
                if ks.contains(k) {
                    let i = choose|i: int| 0 <= i < ks.len() && ks[i] == k;
                    assert(first_keys(s)[i] == k);
                }
            }
        }
    }
}

proof fn lemma_total_prefix(s: Seq<(IpAddr, IpAgg)>, i: int)
    requires
        0 <= i <= s.len(),
    ensures
        total_count(s.take(i)) <= total_count(s),
    decreases s.len(),
{
    if i < s.len() {
        let q = s.drop_last();
        assert(s.take(i) =~= q.take(i));
        lemma_total_prefix(q, i);
    } else {
        assert(s.take(i) =~= s);
    }
}

/// How many events of `es` come from subnet `k`.
pub open spec fn key_events(es: Seq<ConnectionEvent>, k: u128) -> nat
    decreases es.len(),
{
    if es.len() == 0 {
        0
    } else {
        key_events(es.drop_last(), k) + (if skey(es.last().ip) == k {
            1nat
        } else {
            0nat
        })
    }
}

proof fn lemma_count_in_update(s: Seq<(IpAddr, IpAgg)>, j: int, v: (IpAddr, IpAgg), k: u128)
    requires
        0 <= j < s.len(),
    ensures
        count_in(s.update(j, v), k) + (if skey(s[j].0) == k {
            s[j].1.count as nat
        } else {
            0nat
        }) == count_in(s, k) + (if skey(v.0) == k {
            v.1.count as nat
        } else {
            0nat
        }),
    decreases s.len(),
{
    let u = s.update(j, v);
    if j == s.len() - 1 {
        assert(u.drop_last() =~= s.drop_last());
    } else {
        assert(u.drop_last() =~= s.drop_last().update(j, v));
        lemma_count_in_update(s.drop_last(), j, v, k);
    }
}

/// The position of the subnet `key` in `subnets`, or its length when absent.
fn find_subnet(subnets: &Vec<SubnetCount>, key: u128) -> (r: usize)
    ensures
        r <= subnets@.len(),
        r < subnets@.len() ==> subnets@[r as int].key == key,
        r == subnets@.len() ==> forall|j: int| 0 <= j < subnets@.len() ==> subnets@[j].key != key,
{
    let n = subnets.len();
    let mut i: usize = 0;
    while i < n
        invariant
            n == subnets@.len(),
            i <= n,
            forall|j: int| 0 <= j < i ==> subnets@[j].key != key,
        decreases n - i,
    {
        if subnets[i].key == key {
            return i;
        }
        i = i + 1;
    }
    i
}

/// The subnets of per-address counters, in first-seen order: each with
/// its summed event count and its member addresses in order.
pub fn subnet_counts_of(aggs: &[(IpAddr, IpAgg)]) -> (r: Vec<SubnetCount>)
    requires
        total_count(aggs@) <= u32::MAX,
    ensures
        r@.len() == first_keys(aggs@).len(),
        forall|j: int|
            0 <= j < r@.len() ==> {
                let k = #[trigger] r@[j].key;
                &&& k == first_keys(aggs@)[j]
                &&& r@[j].events == count_in(aggs@, k)
                &&& r@[j].members@ == members_in(aggs@, k)
            },
{
    let mut out: Vec<SubnetCount> = Vec::new();
    let n = aggs.len();
    let mut i: usize = 0;
    while i < n
        invariant
            n == aggs@.len(),
            total_count(aggs@) <= u32::MAX,
            i <= n,
            out@.len() == first_keys(aggs@.take(i as int)).len(),
            forall|j: int|
                0 <= j < out@.len() ==> {
                    let k = #[trigger] out@[j].key;
                    &&& k == first_keys(aggs@.take(i as int))[j]
                    &&& out@[j].events == count_in(aggs@.take(i as int), k)
                    &&& out@[j].members@ == members_in(aggs@.take(i as int), k)
                },
        decreases n - i,
    {
        let ip = aggs[i].0;
        let count = aggs[i].1.count;
        let ghost a = aggs@.take(i as int);
        let ghost x = aggs@[i as int];
        assert(aggs@.take(i as int + 1) =~= a.push(x));
        let key = IpNetwork::of_ip(ip).pack();
        proof {
            lemma_subnet_push(a, x);
            lemma_subnet_bounds(a.push(x), key);
            lemma_subnet_bounds(a, key);
            lemma_total_prefix(aggs@, i as int + 1);
        }
        let j = find_subnet(&out, key);
        if j < out.len() {
            proof {
                assert(first_keys(a)[j as int] == key);
                assert(first_keys(a).contains(key));
            }
            let ghost before = out@;
            let mut sc = out.remove(j);
            sc.events = sc.events + count;
            sc.members.push(ip);
            out.insert(j, sc);
            proof {
                assert(out@ =~= before.update(j as int, sc));
                assert forall|jj: int| 0 <= jj < out@.len() implies {
                    let k = #[trigger] out@[jj].key;
                    &&& k == first_keys(aggs@.take(i as int + 1))[jj]
                    &&& out@[jj].events == count_in(aggs@.take(i as int + 1), k)
                    &&& out@[jj].members@ == members_in(aggs@.take(i as int + 1), k)
                } by {
                    if jj != j {
                        lemma_subnet_bounds(a, before[jj].key);
                        assert(first_keys(a)[jj] != first_keys(a)[j as int]);
                    }
                }
            }
        } else {
            proof {
                assert(!first_keys(a).contains(key)) by {
                    if first_keys(a).contains(key) {
                        let jj = choose|jj: int| 0 <= jj < first_keys(a).len() && first_keys(a)[jj] == key;
                        assert(out@[jj].key == key);
                    }
                }
                assert(members_in(a, key) =~= Seq::<IpAddr>::empty());
            }
            let mut members: Vec<IpAddr> = Vec::new();
            members.push(ip);
            let ghost before = out@;
            out.push(SubnetCount { key, events: count, members });
            proof {
                assert forall|jj: int| 0 <= jj < out@.len() implies {
                    let k = #[trigger] out@[jj].key;
                    &&& k == first_keys(aggs@.take(i as int + 1))[jj]
                    &&& out@[jj].events == count_in(aggs@.take(i as int + 1), k)
                    &&& out@[jj].members@ == members_in(aggs@.take(i as int + 1), k)
                } by {
                    if jj < before.len() {
                        assert(before[jj].key != key);
                        assert(out@[jj] == before[jj]);
                    } else {
                        assert(members@ =~= Seq::<IpAddr>::empty().push(ip));
                    }
                }
            }
        }
        i = i + 1;
    }
    assert(aggs@.take(n as int) =~= aggs@);
    out
}

/// A flush window's aggregates: per-address counters, per-subnet event
/// and member counts, and the network each subnet key stands for.
pub struct FlushAggs {
    pub ips: Vec<(IpAddr, IpAgg)>,
    pub subnets: Vec<SubnetCount>,
    pub networks: Vec<(u128, IpNetwork)>,
}

/// Aggregate a window's events in one pass: one counter per address, and
/// per subnet the number of its events, its distinct member addresses
/// (each once, in first-seen order) and its network.
pub fn aggregate(events: &[ConnectionEvent]) -> (r: FlushAggs)
    requires
        events@.len() <= u32::MAX,
        bytes_sum(events@) <= u64::MAX,
    ensures
        r.ips@.len() == first_seen(events@).len(),
        forall|k: int|
            0 <= k < r.ips@.len() ==> #[trigger] r.ips@[k].0 == first_seen(events@)[k] && summarizes(
                r.ips@[k].1,
                events_of(events@, r.ips@[k].0),
            ),
        r.subnets@.len() == first_keys(r.ips@).len(),
        r.networks@.len() == r.subnets@.len(),
        forall|j: int|
            0 <= j < r.subnets@.len() ==> {
                let k = #[trigger] r.subnets@[j].key;
                &&& k == first_keys(r.ips@)[j]
                &&& r.subnets@[j].events == key_events(events@, k)
                &&& r.subnets@[j].members@ == members_in(r.ips@, k)
                &&& r.subnets@[j].members@.len() > 0
                &&& r.networks@[j] == (k, subnet_of(r.subnets@[j].members@[0]))
            },
{
    let ips = aggregate_ips(events);
    let subnets = subnet_counts_of(ips.as_slice());
    let mut networks: Vec<(u128, IpNetwork)> = Vec::new();
    let n = subnets.len();
    let mut j: usize = 0;
    while j < n
        invariant
            n == subnets@.len(),
            n == first_keys(ips@).len(),
            j <= n,
            networks@.len() == j,
            forall|jj: int|
                0 <= jj < n ==> {
                    let k = #[trigger] subnets@[jj].key;
                    &&& k == first_keys(ips@)[jj]
                    &&& subnets@[jj].members@ == members_in(ips@, k)
                },
            forall|jj: int|
                0 <= jj < j ==> #[trigger] networks@[jj] == (subnets@[jj].key, subnet_of(
                    subnets@[jj].members@[0],
                )),
        decreases n - j,
    {
        proof {
            let k = subnets@[j as int].key;
            lemma_subnet_bounds(ips@, k);
            assert(first_keys(ips@)[j as int] == k);
            assert(first_keys(ips@).contains(k));
        }
        let net = IpNetwork::of_ip(subnets[j].members[0]);
        networks.push((subnets[j].key, net));
        j = j + 1;
    }
    proof {
        assert forall|jj: int| 0 <= jj < subnets@.len() implies subnets@[jj].members@.len() > 0 by {
            let k = subnets@[jj].key;
            lemma_subnet_bounds(ips@, k);
            assert(first_keys(ips@)[jj] == k);
            assert(first_keys(ips@).contains(k));
        }
    }
    FlushAggs { ips, subnets, networks }
}

} // verus!
