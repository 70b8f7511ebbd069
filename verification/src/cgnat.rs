//! CGNAT guard: graduated mitigation tiers for shared-infrastructure
//! clients, keyed by a stable hash of their fingerprint, and the layout of
//! the shared rule table.

use vstd::prelude::*;
use vstd::wrapping::u64_specs::wrapping_mul;

verus! {

pub const CGNAT_TIER_ALLOW: u8 = 0;
pub const CGNAT_TIER_CHALLENGE: u8 = 1;
pub const CGNAT_TIER_XDP_DROP: u8 = 2;
pub const CGNAT_TIER_BLOCK: u8 = 3;

/// Rule slots of the shared table (a power of two).
pub const SHM_TABLE_CAPACITY: usize = 65_536;

/// Rule flag: shared infrastructure (CGNAT / proxy).
pub const FLAG_SHARED_INFRA: u8 = 0x01;

/// FNV-1a offset basis and prime.
pub const FNV_OFFSET: u64 = 0xcbf2_9ce4_8422_2325;
pub const FNV_PRIME: u64 = 0x0000_0100_0000_01b3;

/// FNV-1a of a byte string.
pub open spec fn fnv1a(s: Seq<u8>) -> u64
    decreases s.len(),
{
    if s.len() == 0 {
        FNV_OFFSET
    } else {
        wrapping_mul(fnv1a(s.drop_last()) ^ (s.last() as u64), FNV_PRIME)
    }
}

/// The table slot key of a fingerprint: its FNV-1a hash (of its bytes, not
/// its address, so every copy finds the same rule).
pub fn fingerprint_hash(fingerprint: &[u8]) -> (r: u64)
    ensures
        r == fnv1a(fingerprint@),
{
    let n: usize = fingerprint.len();
    let mut hash: u64 = FNV_OFFSET;
    let mut i: usize = 0;
    while i < n
        invariant
            n == fingerprint@.len(),
            i <= n,
            hash == fnv1a(fingerprint@.take(i as int)),
        decreases n - i,
    {
        assert(fingerprint@.take(i + 1).drop_last() =~= fingerprint@.take(i as int));
        hash = hash ^ (fingerprint[i] as u64);
        hash = hash.wrapping_mul(FNV_PRIME);
        i = i + 1;
    }
    assert(fingerprint@.take(n as int) =~= fingerprint@);
    hash
}

/// How often byte `v` occurs in `s`.
pub open spec fn occurrences(s: Seq<u8>, v: u8) -> nat
    decreases s.len(),
{
    if s.len() == 0 {
        0
    } else {
        occurrences(s.drop_last(), v) + if s.last() == v {
            1nat
        } else {
            0nat
        }
    }
}

proof fn lemma_occurrences_bounded(s: Seq<u8>, v: u8)
    ensures
        occurrences(s, v) <= s.len(),
    decreases s.len(),
{
    if s.len() > 0 {
        lemma_occurrences_bounded(s.drop_last(), v);
    }
}

/// The byte-value histogram of a fingerprint.
pub fn fingerprint_counts(fingerprint: &[u8]) -> (r: [u64; 256])
    ensures
        forall|v: u8| r[v as int] == occurrences(fingerprint@, v),
{
    let n: usize = fingerprint.len();
    let mut counts = [0u64; 256];
    let mut i: usize = 0;
    while i < n
        invariant
            n == fingerprint@.len(),
            i <= n,
            forall|v: u8| counts[v as int] == occurrences(fingerprint@.take(i as int), v),
        decreases n - i,
    {
        let b = fingerprint[i];
        assert(fingerprint@.take(i + 1).drop_last() =~= fingerprint@.take(i as int));
        proof {
            lemma_occurrences_bounded(fingerprint@.take(i as int), b);
        }
        counts[b as usize] = counts[b as usize] + 1;
        i = i + 1;
    }
    assert(fingerprint@.take(n as int) =~= fingerprint@);
    counts
}

/// The tier of a client: no published rule keeps the hard block; a
/// published rule with a low-entropy fingerprint drops at XDP; otherwise
/// the rule's own tier applies.
pub fn classify_tier(rule_tier: Option<u8>, entropy_below_threshold: bool) -> (r: u8)
    ensures
        r == (match rule_tier {
            None => CGNAT_TIER_BLOCK,
            Some(t) => if entropy_below_threshold {
                CGNAT_TIER_XDP_DROP
            } else {
                t
            },
        }),
{
    match rule_tier {
        None => CGNAT_TIER_BLOCK,
        Some(t) => if entropy_below_threshold {
            CGNAT_TIER_XDP_DROP
        } else {
            t
        },
    }
}

/// One rule of the shared table, as plain values.
#[derive(Debug, Clone, Copy)]
pub struct ShmRuleEntry {
    /// 0 marks an empty slot.
    pub client_hash: u64,
    /// Absolute expiry, Unix epoch milliseconds.
    pub expires_at_ms: u64,
    /// 0 blocks; more rate-limits.
    pub max_rps: u16,
    pub tier: u8,
    /// Bit 0: shared infrastructure.
    pub flags: u8,
    pub challenge_seed: [u8; 16],
}

/// The slot of a client hash: its low bits.
pub fn slot_index(client_hash: u64) -> (r: usize)
    ensures
        r == client_hash % (SHM_TABLE_CAPACITY as u64),
{
    (client_hash % 65_536) as usize
}

/// The rule a publication writes: the tier and rate limit, the shared flag,
/// and an expiry `ttl_ms` after `now_ms`.
pub fn rule_for(
    client_hash: u64,
    now_ms: u64,
    ttl_ms: u64,
    tier: u8,
    max_rps: u16,
    is_shared: bool,
    challenge_seed: [u8; 16],
) -> (r: ShmRuleEntry)
    requires
        now_ms + ttl_ms <= u64::MAX,
    ensures
        r.client_hash == client_hash,
        r.expires_at_ms == now_ms + ttl_ms,
        r.max_rps == max_rps,
        r.tier == tier,
        r.flags == (if is_shared { FLAG_SHARED_INFRA } else { 0 }),
        r.challenge_seed == challenge_seed,
{
    ShmRuleEntry {
        client_hash,
        expires_at_ms: now_ms + ttl_ms,
        max_rps,
        tier,
        flags: if is_shared { FLAG_SHARED_INFRA } else { 0 },
        challenge_seed,
    }
}

} // verus!
