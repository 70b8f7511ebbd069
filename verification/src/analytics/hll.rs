//! HyperLogLog registers for the number of distinct sources in a subnet:
//! 1024 one-byte registers, no heap allocation.

use vstd::prelude::*;
use vstd::std_specs::bits::u64_trailing_zeros;
use vstd::arithmetic::power2::{lemma2_to64, lemma2_to64_rest, lemma_pow2_pos, lemma_pow2_strictly_increases, lemma_pow2_unfold, pow2};

verus! {

/// 1024 HyperLogLog registers.
pub struct SubnetHll {
    registers: [u8; 1024],
}

/// The register a hash selects: its low 10 bits.
pub open spec fn register_index(hash: u64) -> int {
    (hash % 1024) as int
}

/// The rank a hash contributes: one plus the trailing zeros of its remaining
/// 54 bits (with an implicit top bit), capped at 63.
pub open spec fn rank(hash: u64) -> u8 {
    let tz = u64_trailing_zeros((hash >> 10u64) | (1u64 << 53u64)) + 1;
    if tz > 63 {
        63
    } else {
        tz as u8
    }
}

/// `2^(63 - r)`: the weight of a register holding `r` in the harmonic sum,
/// scaled by `2^63`.
pub open spec fn weight(r: u8) -> nat
    decreases 63 - r,
{
    if r >= 63 {
        1
    } else {
        2 * weight((r + 1) as u8)
    }
}

/// The scaled harmonic sum of registers `0..n`.
pub open spec fn weight_sum(regs: Seq<u8>, n: int) -> nat
    decreases n,
{
    if n <= 0 {
        0
    } else {
        weight_sum(regs, n - 1) + weight(regs[n - 1])
    }
}

/// The number of zero registers among `0..n`.
pub open spec fn zero_count(regs: Seq<u8>, n: int) -> nat
    decreases n,
{
    if n <= 0 {
        0
    } else {
        zero_count(regs, n - 1) + if regs[n - 1] == 0 {
            1nat
        } else {
            0nat
        }
    }
}

proof fn lemma_weight_pow2(r: u8)
    requires
        r <= 63,
    ensures
        weight(r) == pow2((63 - r) as nat),
    decreases 63 - r,
{
    if r < 63 {
        lemma_weight_pow2((r + 1) as u8);
        lemma_pow2_unfold((63 - r) as nat);
    } else {
        lemma2_to64();
    }
}

proof fn lemma_weight_bound(r: u8)
    requires
        r <= 63,
    ensures
        1 <= weight(r) <= 0x8000_0000_0000_0000,
{
    lemma_weight_pow2(r);
    lemma_pow2_pos((63 - r) as nat);
    lemma2_to64_rest();
    if r > 0 {
        lemma_pow2_strictly_increases((63 - r) as nat, 63);
    }
}

impl SubnetHll {
    /// Every register holds a rank, so at most 63.
    #[verifier::type_invariant]
    spec fn registers_bounded(&self) -> bool {
        forall|i: int| 0 <= i < 1024 ==> self.registers@[i] <= 63
    }

    /// The register values.
    pub closed spec fn registers_spec(&self) -> Seq<u8> {
        self.registers@
    }

    /// There are always 1024 registers.
    pub proof fn lemma_register_count(&self)
        ensures
            self.registers_spec().len() == 1024,
    {
    }

    /// All registers at zero.
    pub fn new() -> (r: Self)
        ensures
            r.registers_spec() == Seq::new(1024, |i: int| 0u8),
    {
        let regs: [u8; 1024] = [0u8; 1024];
        assert(regs@ =~= Seq::new(1024, |i: int| 0u8));
        SubnetHll { registers: regs }
    }

    /// Observe one hashed element: its register keeps the larger of its
    /// value and the hash's rank.
    pub fn insert(&mut self, hash: u64)
        ensures
            old(self).registers_spec().len() == 1024,
            final(self).registers_spec().len() == 1024,
            final(self).registers_spec() == old(self).registers_spec().update(
                register_index(hash),
                if rank(hash) > old(self).registers_spec()[register_index(hash)] {
                    rank(hash)
                } else {
                    old(self).registers_spec()[register_index(hash)]
                },
            ),
    {
        proof {
            use_type_invariant(&*self);
            lemma_rank_bounded(hash);
        }
        let index: usize = (hash % 1024) as usize;
        let remainder: u64 = (hash >> 10u64) | (1u64 << 53u64);
        let tz: u32 = remainder.trailing_zeros() + 1;
        let leading_zeros: u8 = if tz > 63 { 63 } else { tz as u8 };
        if leading_zeros > self.registers[index] {
            self.registers[index] = leading_zeros;
        }
        assert(self.registers@ =~= old(self).registers@.update(
            register_index(hash),
            if rank(hash) > old(self).registers@[register_index(hash)] {
                rank(hash)
            } else {
                old(self).registers@[register_index(hash)]
            },
        ));
    }

    /// The exact integer parts of the estimate: the harmonic sum of the
    /// registers scaled by `2^63` (`sum of 2^(63 - r)`), and the number of
    /// zero registers.
    pub fn register_sums(&self) -> (r: (u128, u32))
        ensures
            r.0 == weight_sum(self.registers_spec(), 1024),
            r.1 == zero_count(self.registers_spec(), 1024),
    {
        proof {
            use_type_invariant(self);
        }
        let mut sum: u128 = 0;
        let mut zeros: u32 = 0;
        let mut i: usize = 0;
        while i < 1024
            invariant
                i <= 1024,
                forall|j: int| 0 <= j < 1024 ==> self.registers@[j] <= 63,
                sum == weight_sum(self.registers@, i as int),
                sum <= i * 0x8000_0000_0000_0000,
                zeros == zero_count(self.registers@, i as int),
                zeros <= i,
            decreases 1024 - i,
        {
            let v: u8 = self.registers[i];
            proof {
                lemma_weight_bound(v);
            }
            sum = sum + weight_of(v);
            if v == 0 {
                zeros = zeros + 1;
            }
            i = i + 1;
        }
        (sum, zeros)
    }
}

fn weight_of(r: u8) -> (w: u128)
    requires
        r <= 63,
    ensures
        w == weight(r),
{
    let mut w: u128 = 1;
    let mut k: u8 = 63;
    while k > r
        invariant
            r <= k <= 63,
            w == weight(k),
            w <= 0x8000_0000_0000_0000,
        decreases k - r,
    {
        proof {
            lemma_weight_bound((k - 1) as u8);
        }
        w = w * 2;
        k = k - 1;
    }
    w
}

/// Register values never exceed 63: the cap on ranks keeps them bounded.
pub proof fn lemma_rank_bounded(hash: u64)
    ensures
        1 <= rank(hash) <= 63,
{
    vstd::std_specs::bits::axiom_u64_trailing_zeros((hash >> 10u64) | (1u64 << 53u64));
}

} // verus!
