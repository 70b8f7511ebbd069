//! Decaying Count-Min Sketch: 4 rows × 65,536 columns of `u64` counters in
//! one flat heap vector (512 KiB).

use vstd::prelude::*;
use vstd::wrapping::u64_specs::{wrapping_add, wrapping_mul};

verus! {

pub const CMS_ROWS: usize = 4;

pub const CMS_COLS: usize = 65_536;

/// Multiplier of the per-row hash (the 64-bit golden ratio).
pub const HASH_MUL: u64 = 0x9E37_79B9_7F4A_7C15;

/// Frequency sketch with periodic halving.
pub struct DecayingCountMinSketch {
    counts: Vec<u64>,
    inserted_since_decay: u64,
}

/// The counters of an empty sketch.
pub open spec fn zero_counts() -> Seq<u64> {
    Seq::new((CMS_ROWS * CMS_COLS) as nat, |i: int| 0u64)
}

/// The per-row hash of a key.
pub open spec fn row_hash_spec(row: int, key: u64) -> u64 {
    wrapping_mul(key ^ wrapping_mul((row + 1) as u64, HASH_MUL), HASH_MUL)
}

/// The counter a key maps to in a row.
pub open spec fn cell(row: int, key: u64) -> int {
    row * CMS_COLS + (row_hash_spec(row, key) % 65536) as int
}

/// Whether `i` is one of the counters of `key`.
pub open spec fn is_cell_of(i: int, key: u64) -> bool {
    exists|r: int| 0 <= r < CMS_ROWS && i == #[trigger] cell(r, key)
}

pub open spec fn min_u64(a: u64, b: u64) -> u64 {
    if b < a {
        b
    } else {
        a
    }
}

/// The minimum of a key's counters over rows `0..n` (`u64::MAX` for none).
pub open spec fn est_upto(counts: Seq<u64>, key: u64, n: int) -> u64
    decreases n,
{
    if n <= 0 {
        u64::MAX
    } else {
        min_u64(est_upto(counts, key, n - 1), counts[cell(n - 1, key)])
    }
}

/// The frequency estimate of a key: the minimum of its counters.
pub open spec fn estimate_spec(counts: Seq<u64>, key: u64) -> u64 {
    est_upto(counts, key, CMS_ROWS as int)
}

/// The counters after one increment of `key` (each of its counters +1, wrapping).
pub open spec fn increment_spec(counts: Seq<u64>, key: u64) -> Seq<u64> {
    Seq::new(
        counts.len(),
        |i: int|
            if is_cell_of(i, key) {
                wrapping_add(counts[i], 1)
            } else {
                counts[i]
            },
    )
}

/// The counters after a decay (each halved).
pub open spec fn decay_spec(counts: Seq<u64>) -> Seq<u64> {
    Seq::new(counts.len(), |i: int| counts[i] / 2)
}

/// The cell of a key in row `r` lies inside that row.
pub proof fn lemma_cell_range(r: int, key: u64)
    requires
        0 <= r < CMS_ROWS,
    ensures
        r * CMS_COLS <= cell(r, key) < (r + 1) * CMS_COLS,
{
}

impl DecayingCountMinSketch {
    /// The counters, row-major.
    pub closed spec fn counts_spec(&self) -> Seq<u64> {
        self.counts@
    }

    /// Insertions since the last decay.
    pub closed spec fn inserted_spec(&self) -> u64 {
        self.inserted_since_decay
    }

    /// The sketch has its full set of counters.
    pub open spec fn wf(&self) -> bool {
        self.counts_spec().len() == CMS_ROWS * CMS_COLS
    }

    /// An all-zero sketch.
    pub fn new() -> (r: Self)
        ensures
            r.wf(),
            r.counts_spec() == zero_counts(),
            r.inserted_spec() == 0,
    {
        let mut counts: Vec<u64> = Vec::new();
        let mut i: usize = 0;
        while i < CMS_ROWS * CMS_COLS
            invariant
                i <= CMS_ROWS * CMS_COLS,
                counts@ == Seq::new(i as nat, |j: int| 0u64),
            decreases CMS_ROWS * CMS_COLS - i,
        {
            counts.push(0);
            assert(counts@ =~= Seq::new((i + 1) as nat, |j: int| 0u64));
            i = i + 1;
        }
        assert(counts@ =~= zero_counts());
        DecayingCountMinSketch { counts, inserted_since_decay: 0 }
    }

    /// The per-row hash of a key, mixing in a per-row salt.
    fn row_hash(row: usize, key: u64) -> (r: u64)
        requires
            row < CMS_ROWS,
        ensures
            r == row_hash_spec(row as int, key),
    {
        let salt: u64 = (row as u64 + 1).wrapping_mul(HASH_MUL);
        (key ^ salt).wrapping_mul(HASH_MUL)
    }

    fn cell_index(row: usize, key: u64) -> (idx: usize)
        requires
            row < CMS_ROWS,
        ensures
            idx == cell(row as int, key),
            idx < CMS_ROWS * CMS_COLS,
    {
        let h = Self::row_hash(row, key);
        let col: usize = (h % 65536) as usize;
        row * CMS_COLS + col
    }

    /// Count one occurrence of `key` (each of its counters +1, wrapping).
    pub fn increment(&mut self, key: u64)
        requires
            old(self).wf(),
        ensures
            final(self).wf(),
            final(self).counts_spec() == increment_spec(old(self).counts_spec(), key),
            final(self).inserted_spec() == wrapping_add(old(self).inserted_spec(), 1),
    {
        let ghost orig = self.counts@;
        let ghost ins = self.inserted_since_decay;
        let mut row: usize = 0;
        while row < CMS_ROWS
            invariant
                row <= CMS_ROWS,
                self.inserted_since_decay == ins,
                self.counts@.len() == CMS_ROWS * CMS_COLS,
                orig.len() == CMS_ROWS * CMS_COLS,
                forall|i: int|
                    0 <= i < orig.len() ==> #[trigger] self.counts@[i] == (if i < row * CMS_COLS
                        && is_cell_of(i, key) {
                        wrapping_add(orig[i], 1)
                    } else {
                        orig[i]
                    }),
            decreases CMS_ROWS - row,
        {
            let idx = Self::cell_index(row, key);
            let v: u64 = self.counts[idx];
            self.counts.set(idx, v.wrapping_add(1));
            assert forall|i: int| 0 <= i < orig.len() implies #[trigger] self.counts@[i] == (if i < (
            row + 1) * CMS_COLS && is_cell_of(i, key) {
                wrapping_add(orig[i], 1)
            } else {
                orig[i]
            }) by {
                if is_cell_of(i, key) {
                    let r = choose|r: int| 0 <= r < CMS_ROWS && i == #[trigger] cell(r, key);
                    lemma_cell_range(r, key);
                }
                lemma_cell_range(row as int, key);
            }
            row = row + 1;
        }
        assert(self.counts@ =~= increment_spec(orig, key));
        self.inserted_since_decay = self.inserted_since_decay.wrapping_add(1);
    }

    /// Frequency estimate: the minimum of the key's counters.
    pub fn estimate(&self, key: u64) -> (r: u64)
        requires
            self.wf(),
        ensures
            r == estimate_spec(self.counts_spec(), key),
    {
        let mut min: u64 = u64::MAX;
        let mut row: usize = 0;
        while row < CMS_ROWS
            invariant
                row <= CMS_ROWS,
                self.counts@.len() == CMS_ROWS * CMS_COLS,
                min == est_upto(self.counts@, key, row as int),
            decreases CMS_ROWS - row,
        {
            let idx = Self::cell_index(row, key);
            let v: u64 = self.counts[idx];
            if v < min {
                min = v;
            }
            row = row + 1;
        }
        min
    }

    /// Halve every counter and restart the insertion count.
    pub fn decay(&mut self)
        requires
            old(self).wf(),
        ensures
            final(self).wf(),
            final(self).counts_spec() == decay_spec(old(self).counts_spec()),
            final(self).inserted_spec() == 0,
    {
        let ghost orig = self.counts@;
        let mut i: usize = 0;
        while i < self.counts.len()
            invariant
                i <= self.counts@.len(),
                self.counts@.len() == orig.len(),
                forall|j: int|
                    0 <= j < orig.len() ==> #[trigger] self.counts@[j] == (if j < i {
                        orig[j] / 2
                    } else {
                        orig[j]
                    }),
            decreases self.counts@.len() - i,
        {
            let v: u64 = self.counts[i];
            self.counts.set(i, v / 2);
            i = i + 1;
        }
        assert(self.counts@ =~= decay_spec(orig));
        self.inserted_since_decay = 0;
    }

    /// Insertions since the last decay.
    pub fn inserted_since_decay(&self) -> (r: u64)
        ensures
            r == self.inserted_spec(),
    {
        self.inserted_since_decay
    }
}

} // verus!

verus! {

proof fn lemma_est_upto_bounds(counts: Seq<u64>, key: u64, n: int)
    requires
        0 <= n <= CMS_ROWS,
        counts.len() == CMS_ROWS * CMS_COLS,
    ensures
        forall|r: int| 0 <= r < n ==> est_upto(counts, key, n) <= counts[#[trigger] cell(r, key)],
        n > 0 ==> exists|r: int| 0 <= r < n && est_upto(counts, key, n) == counts[#[trigger] cell(r, key)],
    decreases n,
{
    if n > 0 {
        lemma_est_upto_bounds(counts, key, n - 1);
        lemma_cell_range(n - 1, key);
        let c = counts[cell(n - 1, key)];
        if n - 1 == 0 || c < est_upto(counts, key, n - 1) {
            assert(est_upto(counts, key, n) == counts[cell(n - 1, key)]);
        } else {
            let r = choose|r: int| 0 <= r < n - 1 && est_upto(counts, key, n - 1) == counts[#[trigger] cell(r, key)];
            assert(est_upto(counts, key, n) == counts[cell(r, key)]);
        }
    }
}

proof fn lemma_est_upto_inc(counts: Seq<u64>, key: u64, n: int)
    requires
        0 <= n <= CMS_ROWS,
        counts.len() == CMS_ROWS * CMS_COLS,
        forall|r: int| 0 <= r < CMS_ROWS ==> counts[#[trigger] cell(r, key)] < u64::MAX,
    ensures
        n > 0 ==> est_upto(increment_spec(counts, key), key, n) == est_upto(counts, key, n) + 1,
    decreases n,
{
    if n > 0 {
        lemma_est_upto_inc(counts, key, n - 1);
        lemma_cell_range(n - 1, key);
        assert(is_cell_of(cell(n - 1, key), key));
        let inc = increment_spec(counts, key);
        assert(inc[cell(n - 1, key)] == counts[cell(n - 1, key)] + 1);
        if n == 1 {
            assert(est_upto(inc, key, 0) == u64::MAX);
            assert(est_upto(counts, key, 0) == u64::MAX);
        }
    }
}

/// Counting a key raises its estimate by exactly one, as long as none of its
/// counters is saturated.
pub proof fn lemma_increment_raises_estimate(counts: Seq<u64>, key: u64)
    requires
        counts.len() == CMS_ROWS * CMS_COLS,
        forall|r: int| 0 <= r < CMS_ROWS ==> counts[#[trigger] cell(r, key)] < u64::MAX,
    ensures
        estimate_spec(increment_spec(counts, key), key) == estimate_spec(counts, key) + 1,
{
    lemma_est_upto_inc(counts, key, CMS_ROWS as int);
}

proof fn lemma_est_upto_mono(a: Seq<u64>, b: Seq<u64>, key: u64, n: int)
    requires
        0 <= n <= CMS_ROWS,
        a.len() == CMS_ROWS * CMS_COLS,
        b.len() == a.len(),
        forall|i: int| 0 <= i < a.len() ==> a[i] <= b[i],
    ensures
        est_upto(a, key, n) <= est_upto(b, key, n),
    decreases n,
{
    if n > 0 {
        lemma_est_upto_mono(a, b, key, n - 1);
        lemma_cell_range(n - 1, key);
    }
}

/// Counting one key never lowers the estimate of any key, as long as none of
/// the counted key's counters is saturated.
pub proof fn lemma_increment_monotone(counts: Seq<u64>, key: u64, other: u64)
    requires
        counts.len() == CMS_ROWS * CMS_COLS,
        forall|r: int| 0 <= r < CMS_ROWS ==> counts[#[trigger] cell(r, key)] < u64::MAX,
    ensures
        estimate_spec(increment_spec(counts, key), other) >= estimate_spec(counts, other),
{
    let inc = increment_spec(counts, key);
    assert forall|i: int| 0 <= i < counts.len() implies counts[i] <= inc[i] by {
        if is_cell_of(i, key) {
            let r = choose|r: int| 0 <= r < CMS_ROWS && i == #[trigger] cell(r, key);
        }
    }
    lemma_est_upto_mono(counts, inc, other, CMS_ROWS as int);
}

proof fn lemma_est_upto_decay(counts: Seq<u64>, key: u64, n: int)
    requires
        0 <= n <= CMS_ROWS,
        counts.len() == CMS_ROWS * CMS_COLS,
    ensures
        n > 0 ==> est_upto(decay_spec(counts), key, n) == est_upto(counts, key, n) / 2,
    decreases n,
{
    if n > 0 {
        lemma_est_upto_decay(counts, key, n - 1);
        lemma_cell_range(n - 1, key);
        let d = decay_spec(counts);
        assert(d[cell(n - 1, key)] == counts[cell(n - 1, key)] / 2);
        if n == 1 {
            assert(est_upto(d, key, 0) == u64::MAX);
            assert(est_upto(counts, key, 0) == u64::MAX);
        }
    }
}

/// Decay halves every estimate (rounding down).
pub proof fn lemma_decay_halves_estimate(counts: Seq<u64>, key: u64)
    requires
        counts.len() == CMS_ROWS * CMS_COLS,
    ensures
        estimate_spec(decay_spec(counts), key) == estimate_spec(counts, key) / 2,
{
    lemma_est_upto_decay(counts, key, CMS_ROWS as int);
}

/// The counters after counting every key of `keys` in order.
pub open spec fn increments(counts: Seq<u64>, keys: Seq<u64>) -> Seq<u64>
    decreases keys.len(),
{
    if keys.len() == 0 {
        counts
    } else {
        increment_spec(increments(counts, keys.drop_last()), keys.last())
    }
}

/// How often `key` occurs in `keys`.
pub open spec fn occurrences(keys: Seq<u64>, key: u64) -> nat
    decreases keys.len(),
{
    if keys.len() == 0 {
        0
    } else {
        occurrences(keys.drop_last(), key) + if keys.last() == key {
            1nat
        } else {
            0nat
        }
    }
}

proof fn lemma_increments_bounded(keys: Seq<u64>, key: u64)
    requires
        keys.len() < u64::MAX,
    ensures
        increments(zero_counts(), keys).len() == CMS_ROWS
            * CMS_COLS,
        forall|i: int|
            0 <= i < CMS_ROWS * CMS_COLS ==> #[trigger] increments(
                zero_counts(),
                keys,
            )[i] <= keys.len(),
        estimate_spec(increments(zero_counts(), keys), key)
            >= occurrences(keys, key),
    decreases keys.len(),
{
    let zeros = zero_counts();
    if keys.len() == 0 {
        lemma_est_upto_bounds(zeros, key, CMS_ROWS as int);
        let r = choose|r: int| 0 <= r < CMS_ROWS && est_upto(zeros, key, CMS_ROWS as int) == zeros[#[trigger] cell(r, key)];
        lemma_cell_range(r, key);
    } else {
        let prev_keys = keys.drop_last();
        let k = keys.last();
        lemma_increments_bounded(prev_keys, key);
        lemma_increments_bounded(prev_keys, k);
        let prev = increments(zeros, prev_keys);
        let cur = increments(zeros, keys);
        assert(cur == increment_spec(prev, k));
        assert forall|r: int| 0 <= r < CMS_ROWS implies prev[#[trigger] cell(r, k)] < u64::MAX by {
            lemma_cell_range(r, k);
        }
        assert forall|i: int| 0 <= i < CMS_ROWS * CMS_COLS implies #[trigger] cur[i] <= keys.len() by {
            if is_cell_of(i, k) {
                let r = choose|r: int| 0 <= r < CMS_ROWS && i == #[trigger] cell(r, k);
                lemma_cell_range(r, k);
            }
        }
        if k == key {
            lemma_increment_raises_estimate(prev, k);
        } else {
            lemma_increment_monotone(prev, k, key);
        }
    }
}

/// Count-Min law: starting from an empty sketch, after counting any sequence
/// of keys (shorter than `u64::MAX`), the estimate of every key is at least
/// the number of times it was counted — the sketch never under-counts.
pub proof fn lemma_never_undercounts(keys: Seq<u64>, key: u64)
    requires
        keys.len() < u64::MAX,
    ensures
        estimate_spec(increments(zero_counts(), keys), key)
            >= occurrences(keys, key),
{
    lemma_increments_bounded(keys, key);
}

} // verus!
