//! Decisions of the two-phase enforcement coordinator: the CGNAT veto on
//! the mitigation tier, which addresses count as shared infrastructure,
//! and when an active ban has run its tier's course.

use vstd::prelude::*;
use crate::storage::store::{expired_at, BlockState, EntryModel, Store, Value};
use crate::types::net::IpAddr;

verus! {

/// The tier actually applied: shared infrastructure is never taken past
/// the XDP-drop tier (a block tier of 3 or more becomes 2).
pub fn cgnat_veto(raw_tier: u8, shared_infra: bool) -> (r: u8)
    ensures
        r == (if shared_infra && raw_tier >= 3 {
            2
        } else {
            raw_tier
        }),
{
    if shared_infra && raw_tier >= 3 {
        2
    } else {
        raw_tier
    }
}

/// Whether an address is treated as shared infrastructure: IPv6 ones are.
pub fn is_shared_infrastructure(ip: IpAddr) -> (r: bool)
    ensures
        r == (ip is V6),
{
    match ip {
        IpAddr::V4(_) => false,
        IpAddr::V6(_) => true,
    }
}

/// How long a ban of each tier lasts, in nanoseconds: 5 minutes for tier
/// 0 (and unknown tiers), 10 minutes for 1, an hour for 2, 24 000 seconds
/// for 3.
pub open spec fn tier_ttl_ns(tier: u8) -> u64 {
    if tier == 1 {
        600_000_000_000
    } else if tier == 2 {
        3_600_000_000_000
    } else if tier == 3 {
        24_000_000_000_000
    } else {
        300_000_000_000
    }
}

/// How long a ban of `tier` lasts, in nanoseconds.
pub fn tier_default_ttl_ns(tier: u8) -> (r: u64)
    ensures
        r == tier_ttl_ns(tier),
{
    match tier {
        0 => 300_000_000_000,
        1 => 600_000_000_000,
        2 => 3_600_000_000_000,
        3 => 24_000_000_000_000,
        _ => 300_000_000_000,
    }
}

/// Whether a ban at `tier` is over at `now_ns`, given the store entry of
/// its address: a live blocked record is over once it has been blocked
/// for longer than the tier's TTL; a live record that is not blocked is left
/// alone; no live address record at all counts as over.
pub open spec fn ban_over(entry: Option<EntryModel>, tier: u8, now_ns: u64) -> bool {
    match entry {
        Some(e) if !expired_at(e, now_ns) && e.value is IpRecord => match e.value->IpRecord_0.block_state {
            BlockState::Blocked { since_ns, .. } => (if now_ns >= since_ns {
                now_ns - since_ns
            } else {
                0
            }) > tier_ttl_ns(tier),
            _ => false,
        },
        _ => true,
    }
}

/// Whether the active ban of `ip` at `tier` is over at `now_ns`: the
/// stored record is blocked for longer than the tier's TTL, or there is no
/// live address record at all; a record that is not blocked is left alone.
pub fn ban_expired(store: &Store, ip: IpAddr, tier: u8, now_ns: u64) -> (r: bool)
    ensures
        r == ban_over(store.entries().get(ip), tier, now_ns),
{
    match store.get(ip, now_ns) {
        Some(Value::IpRecord(rec)) => match rec.block_state {
            BlockState::Blocked { since_ns, .. } => now_ns.saturating_sub(since_ns) > tier_default_ttl_ns(tier),
            _ => false,
        },
        _ => true,
    }
}

/// Tier law: a ban lasts 5 minutes at tier 0 and at any unknown tier,
/// 10 minutes at tier 1, an hour at tier 2 and 24 000 seconds at tier 3,
/// so each known tier lasts strictly longer than the one below it.
pub proof fn lemma_tier_durations(tier: u8)
    ensures
        (tier == 0 || tier > 3) ==> tier_ttl_ns(tier) == 5 * 60 * 1_000_000_000,
        tier == 1 ==> tier_ttl_ns(tier) == 10 * 60 * 1_000_000_000,
        tier == 2 ==> tier_ttl_ns(tier) == 60 * 60 * 1_000_000_000,
        tier == 3 ==> tier_ttl_ns(tier) == 24_000 * 1_000_000_000,
        tier_ttl_ns(0) < tier_ttl_ns(1),
        tier_ttl_ns(1) < tier_ttl_ns(2),
        tier_ttl_ns(2) < tier_ttl_ns(3),
{
}

/// Ban-lifetime law: a live blocked record whose ban began at `since_ns`
/// is still in force while no more than its tier's duration has passed
/// (5 minutes at tier 0 and unknown tiers, 10 minutes at tier 1, an hour at
/// tier 2, 24 000 seconds at tier 3), and over once more than that has
/// passed; a live record that is not blocked is never over, and an address
/// without a live record always is.
pub proof fn lemma_ban_lifetime(entry: Option<EntryModel>, tier: u8, now_ns: u64)
    ensures
        ({
            let ttl: nat = if tier == 1 {
                10 * 60 * 1_000_000_000
            } else if tier == 2 {
                60 * 60 * 1_000_000_000
            } else if tier == 3 {
                24_000 * 1_000_000_000
            } else {
                5 * 60 * 1_000_000_000
            };
            match entry {
                Some(e) if !expired_at(e, now_ns) && e.value is IpRecord => match e.value->IpRecord_0.block_state {
                    BlockState::Blocked { since_ns, .. } => (since_ns <= now_ns && now_ns - since_ns > ttl)
                        <==> ban_over(entry, tier, now_ns),
                    _ => !ban_over(entry, tier, now_ns),
                },
                _ => ban_over(entry, tier, now_ns),
            }
        }),
{
}

} // verus!
