//! The subnet dual gate: a subnet whose window shows both many distinct
//! addresses and many events is batch-blocked, member by member.

use vstd::prelude::*;
use crate::config::DetectionConfig;
use crate::enforcement::new_decision_id;
use crate::storage::store::{expired_at, marked_count, BlockState, SubnetRecord, Store, Value, SUBNET_WINDOW_NS};
use crate::arith::sat_sub_u64_spec;
use crate::types::command::{EnforceAction, EnforceCommand};
use crate::types::net::IpAddr;

verus! {

/// Whether `ip` holds a live address record last seen within the subnet
/// window (`SUBNET_WINDOW_NS`) before `now`.
pub open spec fn seen_recently(s: Store, ip: IpAddr, now: u64) -> bool {
    match s.entries().get(ip) {
        Some(e) => !expired_at(e, now) && e.value is IpRecord && sat_sub_u64_spec(
            now,
            e.value->IpRecord_0.last_seen_ns,
        ) <= SUBNET_WINDOW_NS,
        None => false,
    }
}

/// How many of `ms` were seen within the window.
pub open spec fn recent_count(s: Store, ms: Seq<IpAddr>, now: u64) -> nat
    decreases ms.len(),
{
    if ms.len() == 0 {
        0
    } else {
        recent_count(s, ms.drop_last(), now) + if seen_recently(s, ms.last(), now) {
            1nat
        } else {
            0nat
        }
    }
}

/// A subnet's distinct addresses in the window: the IPv4 host bitmap of a
/// /24 key (keys below 2^32), the indexed members of an IPv6 /64 seen
/// within the window (the index itself keeps every member ever seen).
pub open spec fn subnet_uniques(s: Store, sk: u128, r: SubnetRecord, now: u64) -> nat {
    if sk <= u32::MAX {
        marked_count(r.host_bitmap@, 256)
    } else if s.members().contains_key(sk) {
        recent_count(s, s.members()[sk], now)
    } else {
        0
    }
}

/// Whether a subnet passes the dual gate: enough distinct addresses and
/// enough events in the window.
pub open spec fn subnet_hot(s: Store, sk: u128, r: SubnetRecord, det: DetectionConfig, now: u64) -> bool {
    subnet_uniques(s, sk, r, now) >= det.subnet_batch_threshold && r.total_rps >= det.subnet_batch_min_events
}

/// Whether `ip` is a member to block: seen within the window, and its
/// record not yet blocked.
pub open spec fn batch_target(s: Store, ip: IpAddr, now: u64) -> bool {
    seen_recently(s, ip, now) && !(s.entries()[ip].value->IpRecord_0.block_state is Blocked)
}

/// Whether `c` is the batch block of `ip` with TTL `ttl` stamped `secs`.
pub open spec fn is_subnet_block(c: EnforceCommand, ip: IpAddr, ttl: u64, secs: int) -> bool {
    &&& c.ip == ip
    &&& c.action == EnforceAction::Block
    &&& c.policy_version == 1
    &&& c.source@ == "detection"@
    &&& c.actor@ == "system"@
    &&& c.reason@ == "subnet_burst"@
    &&& c.ttl_seconds == ttl
    &&& c.timestamp_utc == secs
}

/// The block command for one member of a hot subnet.
pub fn subnet_block_command(ip: IpAddr, ttl_secs: u64, decision_id: u128, timestamp_utc: i64) -> (c: EnforceCommand)
    ensures
        is_subnet_block(c, ip, ttl_secs, timestamp_utc as int),
        c.decision_id == decision_id,
{
    EnforceCommand {
        decision_id,
        policy_version: 1,
        source: "detection".to_string(),
        actor: "system".to_string(),
        timestamp_utc,
        ttl_seconds: ttl_secs,
        reason: "subnet_burst".to_string(),
        ip,
        action: EnforceAction::Block,
    }
}

fn recent(store: &Store, ip: IpAddr, now_ns: u64) -> (r: bool)
    ensures
        r == seen_recently(*store, ip, now_ns),
{
    match store.get(ip, now_ns) {
        Some(Value::IpRecord(rec)) => now_ns.saturating_sub(rec.last_seen_ns) <= SUBNET_WINDOW_NS,
        _ => false,
    }
}

fn uniques_of(store: &Store, sk: u128, r: &SubnetRecord, now_ns: u64) -> (n: u64)
    ensures
        n == subnet_uniques(*store, sk, *r, now_ns),
{
    if sk <= 0xFFFF_FFFF {
        r.unique_ips()
    } else {
        let ms = store.get_ips_in_subnet(sk);
        let m = ms.len();
        let mut c: u64 = 0;
        let mut i: usize = 0;
        while i < m
            invariant
                m == ms@.len(),
                i <= m,
                c <= i,
                c == recent_count(*store, ms@.take(i as int), now_ns),
                ms@ == (if store.members().contains_key(sk) {
                    store.members()[sk]
                } else {
                    Seq::<IpAddr>::empty()
                }),
            decreases m - i,
        {
            assert(ms@.take(i + 1).drop_last() =~= ms@.take(i as int));
            if recent(store, ms[i], now_ns) {
                c = c + 1;
            }
            i = i + 1;
        }
        assert(ms@.take(m as int) =~= ms@);
        c
    }
}

/// Whether some command of `out` is for `ip`.
fn has_command_for(out: &Vec<EnforceCommand>, ip: IpAddr) -> (r: bool)
    ensures
        r == exists|c: int| 0 <= c < out@.len() && (#[trigger] out@[c]).ip == ip,
{
    let n = out.len();
    let mut i: usize = 0;
    while i < n
        invariant
            n == out@.len(),
            i <= n,
            forall|c: int| 0 <= c < i ==> (#[trigger] out@[c]).ip != ip,
        decreases n - i,
    {
        if out[i].ip == ip {
            return true;
        }
        i = i + 1;
    }
    false
}

/// One pass of the subnet dual gate at `now_ns`: when batch blocking is
/// enabled, every subnet over both thresholds (an IPv6 subnet counting only
/// the members seen within the window) has each member seen within the
/// window that holds an unblocked record blocked (with the subnet-burst TTL), one command per
/// address, and its window reset; returns the block commands, for the
/// caller to send.
pub fn subnet_batch_scan(store: &mut Store, det: &DetectionConfig, now_ns: u64) -> (r: Vec<EnforceCommand>)
    ensures
        !det.batch_block_enabled ==> r@.len() == 0 && *final(store) == *old(store),
        det.batch_block_enabled ==> {
            let s0 = *old(store);
            let secs = (now_ns / 1_000_000_000) as int;
            &&& final(store).entries() == s0.entries()
            &&& final(store).members() == s0.members()
            &&& final(store).counts() == s0.counts()
            &&& final(store).subnets().dom() == s0.subnets().dom()
            &&& forall|sk: u128|
                #[trigger] s0.subnets().contains_key(sk) && !subnet_hot(s0, sk, s0.subnets()[sk], *det, now_ns)
                    ==> final(store).subnets()[sk] == s0.subnets()[sk]
            &&& forall|sk: u128|
                #[trigger] s0.subnets().contains_key(sk) && subnet_hot(s0, sk, s0.subnets()[sk], *det, now_ns) ==> {
                    let a = final(store).subnets()[sk];
                    let o = s0.subnets()[sk];
                    &&& a.total_rps == 0
                    &&& a.host_bitmap@ == seq![0u64, 0, 0, 0]
                    &&& a.prefix == o.prefix
                    &&& a.last_updated_ns == o.last_updated_ns
                }
            &&& forall|i: int|
                0 <= i < r@.len() ==> {
                    let ip = (#[trigger] r@[i]).ip;
                    &&& is_subnet_block(r@[i], ip, det.subnet_burst_ttl_secs, secs)
                    &&& batch_target(s0, ip, now_ns)
                    &&& exists|sk: u128|
                        s0.subnets().contains_key(sk) && subnet_hot(s0, sk, s0.subnets()[sk], *det, now_ns)
                            && s0.members().contains_key(sk) && #[trigger] s0.members()[sk].contains(ip)
                }
            &&& forall|sk: u128, ip: IpAddr|
                s0.subnets().contains_key(sk) && subnet_hot(s0, sk, s0.subnets()[sk], *det, now_ns)
                    && s0.members().contains_key(sk) && #[trigger] s0.members()[sk].contains(ip)
                    && batch_target(s0, ip, now_ns) ==> exists|i: int| 0 <= i < r@.len() && (#[trigger] r@[i]).ip == ip
            &&& forall|i: int, j: int| 0 <= i < j < r@.len() ==> #[trigger] r@[i].ip != #[trigger] r@[j].ip
        },
{
    let mut out: Vec<EnforceCommand> = Vec::new();
    if !det.batch_block_enabled {
        return out;
    }
    let ghost s0 = *store;
    let ip_threshold = det.subnet_batch_threshold as u64;
    let ev_threshold = det.subnet_batch_min_events;
    let secs: i64 = (now_ns / 1_000_000_000) as i64;
    let items = store.subnet_records_list();
    let mut hot: Vec<u128> = Vec::new();
    let n = items.len();
    let mut i: usize = 0;
    while i < n
        invariant
            n == items@.len(),
            i <= n,
            *store == s0,
            ip_threshold == det.subnet_batch_threshold,
            ev_threshold == det.subnet_batch_min_events,
            forall|a: int, b: int| 0 <= a < b < items@.len() ==> items@[a].0 != items@[b].0,
            forall|a: int|
                0 <= a < items@.len() ==> s0.subnets().contains_key(#[trigger] items@[a].0) && items@[a].1
                    == s0.subnets()[items@[a].0],
            forall|a: int, b: int| 0 <= a < b < hot@.len() ==> hot@[a] != hot@[b],
            forall|k: u128|
                hot@.contains(k) <==> exists|a: int|
                    0 <= a < i && items@[a].0 == k && subnet_hot(s0, k, #[trigger] items@[a].1, *det, now_ns),
        decreases n - i,
    {
        let sk = items[i].0;
        let rec = items[i].1;
        let uniq = uniques_of(store, sk, &rec, now_ns);
        let ghost before = hot@;
        if uniq >= ip_threshold && rec.total_rps >= ev_threshold {
            hot.push(sk);
            proof {
                assert forall|a: int, b: int| 0 <= a < b < hot@.len() implies hot@[a] != hot@[b] by {
                    if b == hot@.len() - 1 && hot@[a] == hot@[b] {
                        assert(before.contains(hot@[a]));
                        let c = choose|c: int|
                            0 <= c < i && items@[c].0 == hot@[a] && subnet_hot(s0, hot@[a], #[trigger] items@[c].1, *det, now_ns);
                    }
                }
                assert forall|k: u128|
                    hot@.contains(k) <==> exists|a: int|
                        0 <= a < i + 1 && items@[a].0 == k && subnet_hot(s0, k, #[trigger] items@[a].1, *det, now_ns) by {
                    if hot@.contains(k) {
                        let x = choose|x: int| 0 <= x < hot@.len() && hot@[x] == k;
                        if x < before.len() {
                            assert(before.contains(k));
                        } else {
                            assert(subnet_hot(s0, k, items@[i as int].1, *det, now_ns));
                        }
                    }
                    if exists|a: int|
                        0 <= a < i + 1 && items@[a].0 == k && subnet_hot(s0, k, #[trigger] items@[a].1, *det, now_ns) {
                        let a = choose|a: int|
                            0 <= a < i + 1 && items@[a].0 == k && subnet_hot(s0, k, #[trigger] items@[a].1, *det, now_ns);
                        if a < i {
                            assert(before.contains(k));
                            let x = choose|x: int| 0 <= x < before.len() && before[x] == k;
                            assert(hot@[x] == k);
                        } else {
                            assert(hot@[before.len() as int] == k);
                        }
                    }
                }
            }
        } else {
            proof {
                assert forall|k: u128|
                    hot@.contains(k) <==> exists|a: int|
                        0 <= a < i + 1 && items@[a].0 == k && subnet_hot(s0, k, #[trigger] items@[a].1, *det, now_ns) by {
                    if exists|a: int|
                        0 <= a < i + 1 && items@[a].0 == k && subnet_hot(s0, k, #[trigger] items@[a].1, *det, now_ns) {
                        let a = choose|a: int|
                            0 <= a < i + 1 && items@[a].0 == k && subnet_hot(s0, k, #[trigger] items@[a].1, *det, now_ns);
                        assert(a < i);
                        assert(exists|a: int|
                            0 <= a < i && items@[a].0 == k && subnet_hot(s0, k, #[trigger] items@[a].1, *det, now_ns));
                    }
                    if hot@.contains(k) {
                        let a = choose|a: int|
                            0 <= a < i && items@[a].0 == k && subnet_hot(s0, k, #[trigger] items@[a].1, *det, now_ns);
                        assert(0 <= a < i + 1);
                    }
                }
            }
        }
        i = i + 1;
    }
    proof {
        assert forall|k: u128| hot@.contains(k) <==> (s0.subnets().contains_key(k) && subnet_hot(s0, k, s0.subnets()[k], *det, now_ns)) by {
            if s0.subnets().contains_key(k) && subnet_hot(s0, k, s0.subnets()[k], *det, now_ns) {
                let a = choose|a: int| 0 <= a < items@.len() && items@[a].0 == k;
                assert(subnet_hot(s0, k, items@[a].1, *det, now_ns));
            }
        }
    }
    let h = hot.len();
    let mut j: usize = 0;
    while j < h
        invariant
            h == hot@.len(),
            j <= h,
            secs == now_ns / 1_000_000_000,
            forall|a: int, b: int| 0 <= a < b < hot@.len() ==> hot@[a] != hot@[b],
            forall|k: u128| hot@.contains(k) <==> (s0.subnets().contains_key(k) && subnet_hot(s0, k, s0.subnets()[k], *det, now_ns)),
            store.entries() == s0.entries(),
            store.members() == s0.members(),
            store.counts() == s0.counts(),
            store.subnets().dom() == s0.subnets().dom(),
            forall|k: u128|
                #[trigger] s0.subnets().contains_key(k) && (forall|a: int| 0 <= a < j ==> hot@[a] != k)
                    ==> store.subnets()[k] == s0.subnets()[k],
            forall|a: int|
                0 <= a < j ==> {
                    let x = store.subnets()[#[trigger] hot@[a]];
                    let o = s0.subnets()[hot@[a]];
                    &&& x.total_rps == 0
                    &&& x.host_bitmap@ == seq![0u64, 0, 0, 0]
                    &&& x.prefix == o.prefix
                    &&& x.last_updated_ns == o.last_updated_ns
                },
            forall|c: int|
                0 <= c < out@.len() ==> {
                    let ip = (#[trigger] out@[c]).ip;
                    &&& is_subnet_block(out@[c], ip, det.subnet_burst_ttl_secs, secs as int)
                    &&& batch_target(s0, ip, now_ns)
                    &&& exists|sk: u128|
                        s0.subnets().contains_key(sk) && subnet_hot(s0, sk, s0.subnets()[sk], *det, now_ns)
                            && s0.members().contains_key(sk) && #[trigger] s0.members()[sk].contains(ip)
                },
            forall|c1: int, c2: int| 0 <= c1 < c2 < out@.len() ==> #[trigger] out@[c1].ip != #[trigger] out@[c2].ip,
            forall|a: int, ip: IpAddr|
                0 <= a < j && s0.members().contains_key(hot@[a]) && #[trigger] s0.members()[#[trigger] hot@[a]].contains(ip)
                    && batch_target(s0, ip, now_ns) ==> exists|c: int| 0 <= c < out@.len() && (#[trigger] out@[c]).ip == ip,
        decreases h - j,
    {
        let sk = hot[j];
        proof {
            assert(hot@.contains(sk));
        }
        let ips = store.get_ips_in_subnet(sk);
        let m = ips.len();
        let ghost out_before = out@;
        let mut k: usize = 0;
        while k < m
            invariant
                m == ips@.len(),
                k <= m,
                secs == now_ns / 1_000_000_000,
                sk == hot@[j as int],
                hot@.contains(sk),
                forall|k2: u128| hot@.contains(k2) <==> (s0.subnets().contains_key(k2) && subnet_hot(s0, k2, s0.subnets()[k2], *det, now_ns)),
                ips@ == (if s0.members().contains_key(sk) {
                    s0.members()[sk]
                } else {
                    Seq::<IpAddr>::empty()
                }),
                store.entries() == s0.entries(),
                out_before.len() <= out@.len(),
                forall|c: int| 0 <= c < out_before.len() ==> out@[c] == out_before[c],
                forall|c: int|
                    0 <= c < out@.len() ==> {
                        let ip = (#[trigger] out@[c]).ip;
                        &&& is_subnet_block(out@[c], ip, det.subnet_burst_ttl_secs, secs as int)
                        &&& batch_target(s0, ip, now_ns)
                        &&& exists|sk2: u128|
                            s0.subnets().contains_key(sk2) && subnet_hot(s0, sk2, s0.subnets()[sk2], *det, now_ns)
                                && s0.members().contains_key(sk2) && #[trigger] s0.members()[sk2].contains(ip)
                    },
                forall|c1: int, c2: int| 0 <= c1 < c2 < out@.len() ==> #[trigger] out@[c1].ip != #[trigger] out@[c2].ip,
                forall|x: int|
                    0 <= x < k && batch_target(s0, #[trigger] ips@[x], now_ns) ==> exists|c: int|
                        0 <= c < out@.len() && (#[trigger] out@[c]).ip == ips@[x],
            decreases m - k,
        {
            let ip = ips[k];
            let ghost ob = out@;
            let target: bool = match store.get(ip, now_ns) {
                Some(Value::IpRecord(rec)) => now_ns.saturating_sub(rec.last_seen_ns) <= SUBNET_WINDOW_NS && !matches!(
                    rec.block_state,
                    BlockState::Blocked { .. }
                ),
                _ => false,
            };
            assert(target == batch_target(s0, ip, now_ns));
            let dup: bool = if !target {
                true
            } else {
                has_command_for(&out, ip)
            };
            if !dup {
                out.push(subnet_block_command(ip, det.subnet_burst_ttl_secs, new_decision_id(), secs));
                proof {
                    assert(s0.members().contains_key(sk));
                    assert(s0.members()[sk][k as int] == ip);
                    assert(s0.members()[sk].contains(ip));
                    assert forall|x: int|
                        0 <= x < k + 1 && batch_target(s0, #[trigger] ips@[x], now_ns) implies exists|c: int|
                            0 <= c < out@.len() && (#[trigger] out@[c]).ip == ips@[x] by {
                        if x < k {
                            let c = choose|c: int| 0 <= c < ob.len() && (#[trigger] ob[c]).ip == ips@[x];
                            assert(out@[c] == ob[c]);
                        } else {
                            assert(out@[ob.len() as int].ip == ips@[x]);
                        }
                    }
                }
            } else {
                proof {
                    assert forall|x: int|
                        0 <= x < k + 1 && batch_target(s0, #[trigger] ips@[x], now_ns) implies exists|c: int|
                            0 <= c < out@.len() && (#[trigger] out@[c]).ip == ips@[x] by {
                        if x == k && target {
                            assert(ips@[x] == ip);
                        } else {
                            assert(x < k);
                        }
                    }
                }
            }
            k = k + 1;
        }
        let ghost sb = store.subnets();
        store.reset_subnet_window(sk);
        proof {
            assert forall|k2: u128|
                #[trigger] s0.subnets().contains_key(k2) && (forall|a: int| 0 <= a < j + 1 ==> hot@[a] != k2)
                    ==> store.subnets()[k2] == s0.subnets()[k2] by {
                if s0.subnets().contains_key(k2) && (forall|a: int| 0 <= a < j + 1 ==> hot@[a] != k2) {
                    assert(hot@[j as int] != k2);
                }
            }
            assert forall|a: int|
                0 <= a < j + 1 implies {
                    let x = store.subnets()[#[trigger] hot@[a]];
                    let o = s0.subnets()[hot@[a]];
                    &&& x.total_rps == 0
                    &&& x.host_bitmap@ == seq![0u64, 0, 0, 0]
                    &&& x.prefix == o.prefix
                    &&& x.last_updated_ns == o.last_updated_ns
                } by {
                assert(hot@.contains(hot@[a]));
                assert(s0.subnets().contains_key(hot@[a]));
                if a < j {
                    assert(hot@[a] != hot@[j as int]);
                    assert(sb.contains_key(hot@[a]));
                } else {
                    assert(sb.contains_key(sk));
                    assert(forall|a2: int| 0 <= a2 < j ==> hot@[a2] != sk);
                    assert(sb[sk] == s0.subnets()[sk]);
                }
            }
            assert forall|a: int, ip: IpAddr|
                0 <= a < j + 1 && s0.members().contains_key(hot@[a]) && #[trigger] s0.members()[#[trigger] hot@[a]].contains(ip)
                    && batch_target(s0, ip, now_ns) implies exists|c: int| 0 <= c < out@.len() && (#[trigger] out@[c]).ip == ip by {
                if a < j {
                    let c = choose|c: int| 0 <= c < out_before.len() && (#[trigger] out_before[c]).ip == ip;
                    assert(out@[c] == out_before[c]);
                } else {
                    let x = choose|x: int| 0 <= x < ips@.len() && ips@[x] == ip;
                    assert(batch_target(s0, ips@[x], now_ns));
                }
            }
        }
        j = j + 1;
    }
    proof {
        assert forall|sk: u128, ip: IpAddr|
            s0.subnets().contains_key(sk) && subnet_hot(s0, sk, s0.subnets()[sk], *det, now_ns)
                && s0.members().contains_key(sk) && #[trigger] s0.members()[sk].contains(ip)
                && batch_target(s0, ip, now_ns) implies exists|i: int| 0 <= i < out@.len() && (#[trigger] out@[i]).ip == ip by {
            assert(hot@.contains(sk));
            let a = choose|a: int| 0 <= a < hot@.len() && hot@[a] == sk;
            assert(s0.members()[hot@[a]].contains(ip));
        }
        assert forall|sk: u128|
            #[trigger] s0.subnets().contains_key(sk) && !subnet_hot(s0, sk, s0.subnets()[sk], *det, now_ns)
                implies store.subnets()[sk] == s0.subnets()[sk] by {
            assert forall|a: int| 0 <= a < h implies hot@[a] != sk by {
                assert(hot@.contains(hot@[a]));
            }
        }
        assert forall|sk: u128|
            #[trigger] s0.subnets().contains_key(sk) && subnet_hot(s0, sk, s0.subnets()[sk], *det, now_ns) implies {
                let a = store.subnets()[sk];
                let o = s0.subnets()[sk];
                &&& a.total_rps == 0
                &&& a.host_bitmap@ == seq![0u64, 0, 0, 0]
                &&& a.prefix == o.prefix
                &&& a.last_updated_ns == o.last_updated_ns
            } by {
            assert(hot@.contains(sk));
            let a = choose|a: int| 0 <= a < hot@.len() && hot@[a] == sk;
            assert(store.subnets()[hot@[a]].total_rps == 0);
        }
    }
    out
}

} // verus!
