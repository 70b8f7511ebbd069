//! Little- and big-endian integer encodings, as used by every wire and disk
//! format of the crate, with their round-trip lemmas.

use vstd::prelude::*;

verus! {

/// 256 to the power `n`.
pub open spec fn pow256(n: nat) -> nat
    decreases n,
{
    if n == 0 {
        1
    } else {
        256 * pow256((n - 1) as nat)
    }
}

/// The number a little-endian byte sequence denotes.
pub open spec fn le_value(s: Seq<u8>) -> nat
    decreases s.len(),
{
    if s.len() == 0 {
        0
    } else {
        s[0] as nat + 256 * le_value(s.drop_first())
    }
}

/// The `n` little-endian bytes of `x` (its low `n` bytes).
pub open spec fn le_bytes(x: nat, n: nat) -> Seq<u8>
    decreases n,
{
    if n == 0 {
        Seq::empty()
    } else {
        seq![(x % 256) as u8] + le_bytes(x / 256, (n - 1) as nat)
    }
}

/// The number a big-endian byte sequence denotes.
pub open spec fn be_value(s: Seq<u8>) -> nat
    decreases s.len(),
{
    if s.len() == 0 {
        0
    } else {
        be_value(s.drop_last()) * 256 + s.last() as nat
    }
}

/// The `n` big-endian bytes of `x` (its low `n` bytes).
pub open spec fn be_bytes(x: nat, n: nat) -> Seq<u8>
    decreases n,
{
    if n == 0 {
        Seq::empty()
    } else {
        be_bytes(x / 256, (n - 1) as nat).push((x % 256) as u8)
    }
}

/// Every power of 256 is positive.
pub proof fn lemma_pow256_pos(n: nat)
    ensures
        pow256(n) >= 1,
    decreases n,
{
    if n > 0 {
        lemma_pow256_pos((n - 1) as nat);
    }
}

/// Encoding then decoding little-endian gives the number back.
pub proof fn lemma_le_value_of_bytes(x: nat, n: nat)
    requires
        x < pow256(n),
    ensures
        le_bytes(x, n).len() == n,
        le_value(le_bytes(x, n)) == x,
    decreases n,
{
    if n > 0 {
        lemma_le_value_of_bytes(x / 256, (n - 1) as nat);
        let s = le_bytes(x, n);
        assert(s.drop_first() =~= le_bytes(x / 256, (n - 1) as nat));
    }
}

/// Decoding then encoding little-endian gives the bytes back.
pub proof fn lemma_le_bytes_of_value(s: Seq<u8>)
    ensures
        le_value(s) < pow256(s.len()),
        le_bytes(le_value(s), s.len()) == s,
    decreases s.len(),
{
    if s.len() > 0 {
        lemma_le_bytes_of_value(s.drop_first());
        let v = le_value(s);
        assert(v % 256 == s[0] as nat);
        assert(v / 256 == le_value(s.drop_first()));
        assert(le_bytes(v, s.len()) =~= s);
    }
}

/// Encoding then decoding big-endian gives the number back.
pub proof fn lemma_be_value_of_bytes(x: nat, n: nat)
    requires
        x < pow256(n),
    ensures
        be_bytes(x, n).len() == n,
        be_value(be_bytes(x, n)) == x,
    decreases n,
{
    if n > 0 {
        lemma_be_value_of_bytes(x / 256, (n - 1) as nat);
        let s = be_bytes(x, n);
        assert(s.drop_last() =~= be_bytes(x / 256, (n - 1) as nat));
    }
}

/// Decoding then encoding big-endian gives the bytes back.
pub proof fn lemma_be_bytes_of_value(s: Seq<u8>)
    ensures
        be_value(s) < pow256(s.len()),
        be_bytes(be_value(s), s.len()) == s,
    decreases s.len(),
{
    if s.len() > 0 {
        lemma_be_bytes_of_value(s.drop_last());
        let v = be_value(s);
        assert(v % 256 == s.last() as nat);
        assert(v / 256 == be_value(s.drop_last()));
        assert(be_bytes(v, s.len()) =~= s);
    }
}

/// The powers of 256 for the integer widths used here.
pub proof fn lemma_pow256_values()
    ensures
        pow256(2) == 0x1_0000,
        pow256(4) == 0x1_0000_0000,
        pow256(8) == 0x1_0000_0000_0000_0000,
        pow256(16) == 0x1_0000_0000_0000_0000_0000_0000_0000_0000,
{
    reveal_with_fuel(pow256, 17);
}

/// The little-endian bytes of `x`, `n` of them.
pub fn encode_le(x: u128, n: usize) -> (r: Vec<u8>)
    ensures
        r@ == le_bytes(x as nat, n as nat),
{
    let mut out: Vec<u8> = Vec::new();
    let mut cur: u128 = x;
    let mut i: usize = 0;
    while i < n
        invariant
            i <= n,
            out@ + le_bytes(cur as nat, (n - i) as nat) == le_bytes(x as nat, n as nat),
        decreases n - i,
    {
        let ghost prev = out@;
        out.push((cur % 256) as u8);
        assert(le_bytes(cur as nat, (n - i) as nat) =~= seq![(cur % 256) as u8] + le_bytes(
            (cur / 256) as nat,
            (n - i - 1) as nat,
        ));
        assert(prev + le_bytes(cur as nat, (n - i) as nat) =~= out@ + le_bytes(
            (cur / 256) as nat,
            (n - i - 1) as nat,
        ));
        cur = cur / 256;
        i = i + 1;
    }
    assert(le_bytes(cur as nat, 0) =~= Seq::<u8>::empty());
    assert(out@ + Seq::<u8>::empty() =~= out@);
    out
}

/// The number the little-endian bytes `s[start..start + n]` denote.
pub fn decode_le(s: &[u8], start: usize, n: usize) -> (r: u128)
    requires
        n <= 16,
        start + n <= s@.len(),
    ensures
        r as nat == le_value(s@.subrange(start as int, start + n)),
{
    proof {
        lemma_pow256_values();
    }
    let len: usize = s.len();
    let mut v: u128 = 0;
    let mut k: usize = n;
    while k > 0
        invariant
            len == s@.len(),
            k <= n <= 16,
            start + n <= s@.len(),
            pow256(16) == 0x1_0000_0000_0000_0000_0000_0000_0000_0000,
            v as nat == le_value(s@.subrange(start + k, start + n)),
            (v as nat) < pow256((n - k) as nat),
        decreases k,
    {
        let ghost rest = s@.subrange(start + k, start + n);
        let ghost longer = s@.subrange(start + k - 1, start + n);
        assert(longer.drop_first() =~= rest);
        proof {
            lemma_pow_mono((n - k + 1) as nat, 16);
        }
        v = s[start + k - 1] as u128 + 256 * v;
        k = k - 1;
    }
    v
}

/// Powers of 256 grow with the exponent.
pub proof fn lemma_pow_mono(a: nat, b: nat)
    requires
        a <= b,
    ensures
        pow256(a) <= pow256(b),
    decreases b,
{
    if a < b {
        lemma_pow_mono(a, (b - 1) as nat);
    }
}

} // verus!

verus! {

/// The number the big-endian bytes `s[start..start + n]` denote.
pub fn decode_be(s: &[u8], start: usize, n: usize) -> (r: u128)
    requires
        n <= 16,
        start + n <= s@.len(),
    ensures
        r as nat == be_value(s@.subrange(start as int, start + n)),
{
    proof {
        lemma_pow256_values();
    }
    let len: usize = s.len();
    let mut v: u128 = 0;
    let mut k: usize = 0;
    while k < n
        invariant
            len == s@.len(),
            k <= n <= 16,
            start + n <= s@.len(),
            pow256(16) == 0x1_0000_0000_0000_0000_0000_0000_0000_0000,
            v as nat == be_value(s@.subrange(start as int, start + k)),
            (v as nat) < pow256(k as nat),
        decreases n - k,
    {
        let ghost prefix = s@.subrange(start as int, start + k);
        let ghost longer = s@.subrange(start as int, start + k + 1);
        assert(longer.drop_last() =~= prefix);
        proof {
            lemma_pow_mono((k + 1) as nat, 16);
        }
        v = v * 256 + s[start + k] as u128;
        k = k + 1;
    }
    v
}

/// The big-endian bytes of `x`, `n` of them.
pub fn encode_be(x: u128, n: usize) -> (r: Vec<u8>)
    ensures
        r@ == be_bytes(x as nat, n as nat),
{
    let le = encode_le(x, n);
    let mut out: Vec<u8> = Vec::new();
    let mut i: usize = n;
    proof {
        lemma_le_be_reverse(x as nat, n as nat);
    }
    while i > 0
        invariant
            i <= n,
            le@.len() == n,
            le@.reverse() == be_bytes(x as nat, n as nat),
            out@ == le@.reverse().take((n - i) as int),
        decreases i,
    {
        out.push(le[i - 1]);
        assert(le@.reverse().take((n - i + 1) as int) =~= le@.reverse().take((n - i) as int).push(
            le@[i - 1],
        ));
        i = i - 1;
    }
    assert(le@.reverse().take(n as int) =~= le@.reverse());
    out
}

/// Big-endian bytes are the little-endian bytes reversed.
pub proof fn lemma_le_be_reverse(x: nat, n: nat)
    ensures
        le_bytes(x, n).len() == n,
        be_bytes(x, n).len() == n,
        le_bytes(x, n).reverse() == be_bytes(x, n),
    decreases n,
{
    if n > 0 {
        lemma_le_be_reverse(x / 256, (n - 1) as nat);
        let l = le_bytes(x, n);
        assert(l =~= seq![(x % 256) as u8] + le_bytes(x / 256, (n - 1) as nat));
        assert(l.reverse() =~= le_bytes(x / 256, (n - 1) as nat).reverse().push((x % 256) as u8));
    }
}

} // verus!
