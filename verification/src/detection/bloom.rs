//! Two-hash Bloom filter over a flat `u64` bit array: no false negatives for
//! inserted pairs, cleared periodically because it only ever fills up.

use vstd::prelude::*;
use crate::types::net::IpAddr;
use std::hash::{Hash, Hasher};

verus! {

/// The advisory "seen recently" filter.
#[derive(Clone, Debug)]
pub struct BloomFilter {
    bits: Vec<u64>,
    size: usize,
}

/// Whether bit `i` of a word array is set.
pub open spec fn bit_set(words: Seq<u64>, i: int) -> bool {
    (words[i / 64] >> ((i % 64) as u64)) & 1u64 == 1u64
}

/// The number of words needed for `n` bits.
pub open spec fn words_for(n: int) -> int {
    n / 64 + if n % 64 != 0 {
        1int
    } else {
        0int
    }
}

proof fn lemma_set_bit(w: u64, j: u64, k: u64)
    requires
        j < 64,
        k < 64,
    ensures
        ((w | (1u64 << k)) >> j) & 1u64 == 1u64 <==> ((w >> j) & 1u64 == 1u64 || j == k),
{
    assert(((w | (1u64 << k)) >> j) & 1u64 == 1u64 <==> ((w >> j) & 1u64 == 1u64 || j == k))
        by (bit_vector)
        requires
            j < 64,
            k < 64,
    ;
}

proof fn lemma_zero_bit(j: u64)
    requires
        j < 64,
    ensures
        (0u64 >> j) & 1u64 != 1u64,
{
    assert((0u64 >> j) & 1u64 != 1u64) by (bit_vector);
}

/// `ahash::AHasher::default()` over the address: the filter's hash of an IP.
/// The hasher's keys are generated once per process, so nothing is claimed
/// of the value.
#[verifier::external_body]
fn ip_hash(ip: &IpAddr) -> u64 {
    let mut h = ahash::AHasher::default();
    ip.hash(&mut h);
    h.finish()
}

/// The two probe positions derived from one 64-bit hash.
pub open spec fn slots_of(x: u64) -> (usize, usize) {
    (
        x as usize,
        vstd::wrapping::usize_specs::wrapping_mul(
            (((x << 17u64) | (x >> 47u64)) as usize),
            2_654_435_761,
        ),
    )
}

impl BloomFilter {
    /// The set bit positions.
    pub closed spec fn positions(&self) -> Set<int> {
        Set::new(|i: int| 0 <= i < self.size && bit_set(self.bits@, i))
    }

    /// Number of bit positions.
    pub closed spec fn size_spec(&self) -> usize {
        self.size
    }

    /// The word array covers exactly the bit positions.
    pub closed spec fn wf(&self) -> bool {
        self.bits@.len() == words_for(self.size as int)
    }

    /// An empty filter over `bits` positions.
    pub fn new(bits: usize) -> (r: Self)
        ensures
            r.wf(),
            r.size_spec() == bits,
            r.positions() == Set::<int>::empty(),
    {
        let n: usize = bits / 64 + if bits % 64 != 0 { 1 } else { 0 };
        let mut words: Vec<u64> = Vec::new();
        let mut i: usize = 0;
        while i < n
            invariant
                i <= n,
                words@.len() == i,
                forall|j: int| 0 <= j < i ==> words@[j] == 0,
            decreases n - i,
        {
            words.push(0);
            i = i + 1;
        }
        let r = BloomFilter { bits: words, size: bits };
        assert forall|p: int| !(#[trigger] r.positions().contains(p)) by {
            if 0 <= p < bits {
                lemma_zero_bit((p % 64) as u64);
            }
        }
        assert(r.positions() =~= Set::<int>::empty());
        r
    }

    /// Reset every bit.
    pub fn clear(&mut self)
        requires
            old(self).wf(),
        ensures
            final(self).wf(),
            final(self).size_spec() == old(self).size_spec(),
            final(self).positions() == Set::<int>::empty(),
    {
        let n: usize = self.bits.len();
        let ghost sz = self.size;
        let mut i: usize = 0;
        while i < n
            invariant
                i <= n,
                self.size == sz,
                n == self.bits@.len(),
                self.bits@.len() == words_for(self.size as int),
                forall|j: int| 0 <= j < i ==> self.bits@[j] == 0,
            decreases n - i,
        {
            self.bits.set(i, 0);
            i = i + 1;
        }
        assert forall|p: int| !(#[trigger] self.positions().contains(p)) by {
            if 0 <= p < self.size {
                lemma_zero_bit((p % 64) as u64);
            }
        }
        assert(self.positions() =~= Set::<int>::empty());
    }

    fn bit_at(&self, i: usize) -> (r: bool)
        requires
            i < self.size,
            self.bits@.len() == words_for(self.size as int),
        ensures
            r == bit_set(self.bits@, i as int),
    {
        (self.bits[i / 64] >> ((i % 64) as u64)) & 1 == 1
    }

    /// Whether both positions (taken modulo the size) are set.
    pub fn contains_hashed(&self, a: usize, b: usize) -> (r: bool)
        requires
            self.wf(),
            self.size_spec() > 0,
        ensures
            r == (self.positions().contains((a % self.size_spec()) as int) && self.positions().contains(
                (b % self.size_spec()) as int,
            )),
    {
        let a: usize = a % self.size;
        let b: usize = b % self.size;
        self.bit_at(a) && self.bit_at(b)
    }

    /// Set both positions (taken modulo the size).
    pub fn insert_hashed(&mut self, a: usize, b: usize)
        requires
            old(self).wf(),
            old(self).size_spec() > 0,
        ensures
            final(self).wf(),
            final(self).size_spec() == old(self).size_spec(),
            final(self).positions() == old(self).positions().insert(
                (a % old(self).size_spec()) as int,
            ).insert((b % old(self).size_spec()) as int),
    {
        let ghost before = self.positions();
        let a: usize = a % self.size;
        let b: usize = b % self.size;
        self.set_bit(a);
        self.set_bit(b);
        assert(self.positions() =~= before.insert(a as int).insert(b as int));
    }

    fn set_bit(&mut self, p: usize)
        requires
            p < old(self).size,
            old(self).bits@.len() == words_for(old(self).size as int),
        ensures
            final(self).size == old(self).size,
            final(self).bits@.len() == old(self).bits@.len(),
            final(self).positions() == old(self).positions().insert(p as int),
    {
        let ghost before = self.positions();
        let w: u64 = self.bits[p / 64];
        let k: u64 = (p % 64) as u64;
        self.bits.set(p / 64, w | (1u64 << k));
        assert forall|i: int| #[trigger] self.positions().contains(i) == before.insert(p as int).contains(i) by {
            if 0 <= i < self.size {
                lemma_set_bit(w, (i % 64) as u64, k);
                if i / 64 != p / 64 {
                    assert(self.bits@[i / 64] == old(self).bits@[i / 64]);
                }
            }
        }
        assert(self.positions() =~= before.insert(p as int));
    }

    /// The two probe positions of an address.
    pub fn slots(ip: &IpAddr) -> (r: (usize, usize))
        ensures
            exists|x: u64| r == #[trigger] slots_of(x),
    {
        let x: u64 = ip_hash(ip);
        let rot: u64 = (x << 17u64) | (x >> 47u64);
        let r = (x as usize, (rot as usize).wrapping_mul(2_654_435_761));
        assert(r == slots_of(x));
        r
    }

    /// Whether the address may have been inserted (no false negatives).
    pub fn contains(&self, ip: IpAddr) -> (r: bool)
        requires
            self.wf(),
            self.size_spec() > 0,
        ensures
            exists|x: u64|
                r == (self.positions().contains((#[trigger] slots_of(x).0 % self.size_spec()) as int)
                    && self.positions().contains((slots_of(x).1 % self.size_spec()) as int)),
    {
        let (a, b) = Self::slots(&ip);
        self.contains_hashed(a, b)
    }

    /// Record the address.
    pub fn insert(&mut self, ip: IpAddr)
        requires
            old(self).wf(),
            old(self).size_spec() > 0,
        ensures
            final(self).wf(),
            final(self).size_spec() == old(self).size_spec(),
            exists|x: u64|
                final(self).positions() == old(self).positions().insert(
                    (#[trigger] slots_of(x).0 % old(self).size_spec()) as int,
                ).insert((slots_of(x).1 % old(self).size_spec()) as int),
    {
        let (a, b) = Self::slots(&ip);
        self.insert_hashed(a, b);
    }
}

/// The positions after inserting every pair of `pairs`, starting from `s`.
pub open spec fn insert_all(s: Set<int>, pairs: Seq<(usize, usize)>, size: usize) -> Set<int>
    decreases pairs.len(),
{
    if pairs.len() == 0 {
        s
    } else {
        insert_all(s, pairs.drop_last(), size).insert((pairs.last().0 % size) as int).insert(
            (pairs.last().1 % size) as int,
        )
    }
}

/// Bloom law (no false negatives): after inserting a sequence of hashed
/// pairs, every one of them tests as contained.
pub proof fn lemma_no_false_negatives(s: Set<int>, pairs: Seq<(usize, usize)>, size: usize, i: int)
    requires
        size > 0,
        0 <= i < pairs.len(),
    ensures
        insert_all(s, pairs, size).contains((pairs[i].0 % size) as int),
        insert_all(s, pairs, size).contains((pairs[i].1 % size) as int),
    decreases pairs.len(),
{
    if i < pairs.len() - 1 {
        lemma_no_false_negatives(s, pairs.drop_last(), size, i);
    }
}

} // verus!
