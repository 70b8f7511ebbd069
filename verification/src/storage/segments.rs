//! Write-ahead-log segment management: the decisions each append takes
//! (sync, flush, rotate), segment file names, retention, and the highest
//! LSN a segment holds. The file operations are the caller's.

use vstd::prelude::*;
use vstd::string::StringExecFns;
use crate::storage::wal::{from_slice, header_of, HEADER, MAGIC, MAX_RECORD_SIZE};
use crate::text::{chars_of, decimal, parse_decimal_chars, parse_unsigned};
use crate::types::error::Durability;

verus! {

/// The group-commit interval between syncs.
pub const SYNC_INTERVAL_NS: u64 = 100_000_000;

/// What one append does after writing its record.
#[derive(Debug, Clone, Copy, PartialEq, Eq, Structural)]
pub struct AppendPlan {
    /// Sync the segment's data to disk.
    pub must_sync: bool,
    /// Flush the write buffer.
    pub must_flush: bool,
    /// Start a new segment (and sync the directory).
    pub must_rotate: bool,
    /// The deadline of the next group-commit sync.
    pub next_sync_due_ns: u64,
}

/// The plan of an append that leaves the segment at `bytes_after` bytes:
/// syncing modes sync once the deadline has passed (and arm the next one
/// a sync interval later); reaching `seg_max` rotates; a sync, a rotation
/// or `Flush` durability flushes the buffer first.
pub open spec fn append_plan_spec(
    durability: Durability,
    bytes_after: u64,
    seg_max: u64,
    now_ns: u64,
    due_ns: u64,
) -> AppendPlan {
    let want_sync = durability == Durability::Fsync || durability == Durability::GroupCommit;
    let must_sync = want_sync && now_ns >= due_ns;
    let must_rotate = bytes_after >= seg_max;
    AppendPlan {
        must_sync,
        must_flush: must_sync || durability == Durability::Flush || must_rotate,
        must_rotate,
        next_sync_due_ns: if must_sync {
            (now_ns + SYNC_INTERVAL_NS) as u64
        } else {
            due_ns
        },
    }
}

/// Decide what an append does after writing its record.
pub fn append_plan(durability: Durability, bytes_after: u64, seg_max: u64, now_ns: u64, due_ns: u64) -> (r: AppendPlan)
    requires
        now_ns + SYNC_INTERVAL_NS <= u64::MAX,
    ensures
        r == append_plan_spec(durability, bytes_after, seg_max, now_ns, due_ns),
{
    let want_sync = durability == Durability::Fsync || durability == Durability::GroupCommit;
    let must_sync = want_sync && now_ns >= due_ns;
    let must_rotate = bytes_after >= seg_max;
    AppendPlan {
        must_sync,
        must_flush: must_sync || durability == Durability::Flush || must_rotate,
        must_rotate,
        next_sync_due_ns: if must_sync {
            now_ns + SYNC_INTERVAL_NS
        } else {
            due_ns
        },
    }
}

/// `n` zero characters.
pub open spec fn zeros(n: nat) -> Seq<char>
    decreases n,
{
    if n == 0 {
        Seq::empty()
    } else {
        zeros((n - 1) as nat).push('0')
    }
}

/// The decimal text of `n`, zero-padded to at least eight digits.
pub open spec fn padded8(n: nat) -> Seq<char> {
    let d = decimal(n);
    if d.len() < 8 {
        zeros((8 - d.len()) as nat) + d
    } else {
        d
    }
}

/// The file name of segment `idx`: `wal-` and the zero-padded index, then
/// `.rshw`.
pub open spec fn seg_name_spec(idx: u64) -> Seq<char> {
    "wal-"@ + padded8(idx as nat) + ".rshw"@
}

/// The file name of segment `idx`.
pub fn seg_file_name(idx: u64) -> (r: String)
    ensures
        r@ == seg_name_spec(idx),
{
    let digits = crate::text::decimal_string(idx);
    let ghost d = digits@;
    let len: usize = digits.as_str().unicode_len();
    let mut s = String::new();
    s.append("wal-");
    let ghost head = s@;
    let mut k: usize = len;
    while k < 8
        invariant
            len == d.len(),
            len <= k <= 8 || (len > 8 && k == len),
            s@ == head + zeros((k - len) as nat),
        decreases 8 - k,
    {
        s.append("0");
        proof {
            reveal_strlit("0");
        }
        assert(zeros((k + 1 - len) as nat) =~= zeros((k - len) as nat).push('0'));
        k = k + 1;
    }
    s.append(digits.as_str());
    s.append(".rshw");
    proof {
        if len < 8 {
            assert(k == 8);
        } else {
            assert(zeros(0) =~= Seq::<char>::empty());
        }
    }
    assert(s@ =~= seg_name_spec(idx));
    s
}

/// The segment index a file name denotes: `wal-<digits>.rshw`, the digits
/// read as `str::parse::<u64>` reads them.
pub open spec fn seg_index_of(name: Seq<char>) -> Option<u64> {
    if name.len() >= 9 && name.take(4) == "wal-"@ && name.skip(name.len() - 5) == ".rshw"@ {
        match parse_unsigned(name.subrange(4, name.len() - 5)) {
            Some(v) => if v <= u64::MAX {
                Some(v as u64)
            } else {
                None
            },
            None => None,
        }
    } else {
        None
    }
}

/// The segment index a file name denotes, if it is a segment file.
pub fn parse_seg_name(name: &str) -> (r: Option<u64>)
    ensures
        r == seg_index_of(name@),
{
    let cs = chars_of(name);
    let n: usize = cs.len();
    proof {
        reveal_strlit("wal-");
        reveal_strlit(".rshw");
    }
    if n < 9 {
        return None;
    }
    if !(cs[0] == 'w' && cs[1] == 'a' && cs[2] == 'l' && cs[3] == '-') {
        assert(cs@.take(4) != "wal-"@) by {
            assert(cs@.take(4)[0] == cs@[0] && cs@.take(4)[1] == cs@[1] && cs@.take(4)[2] == cs@[2]
                && cs@.take(4)[3] == cs@[3]);
        }
        return None;
    }
    if !(cs[n - 5] == '.' && cs[n - 4] == 'r' && cs[n - 3] == 's' && cs[n - 2] == 'h' && cs[n - 1]
        == 'w') {
        assert(cs@.skip(n - 5) != ".rshw"@) by {
            let t = cs@.skip(n - 5);
            assert(t[0] == cs@[n - 5] && t[1] == cs@[n - 4] && t[2] == cs@[n - 3] && t[3] == cs@[n - 2]
                && t[4] == cs@[n - 1]);
        }
        return None;
    }
    assert(cs@.take(4) =~= "wal-"@);
    assert(cs@.skip(n - 5) =~= ".rshw"@);
    let mut mid: Vec<char> = Vec::new();
    let mut i: usize = 4;
    while i < n - 5
        invariant
            n == cs@.len(),
            n >= 9,
            4 <= i <= n - 5,
            mid@ == cs@.subrange(4, i as int),
        decreases n - 5 - i,
    {
        mid.push(cs[i]);
        assert(cs@.subrange(4, i + 1) =~= cs@.subrange(4, i as int).push(cs@[i as int]));
        i = i + 1;
    }
    parse_decimal_chars(&mid, u64::MAX)
}

/// Total size of the segments.
pub open spec fn total_size(segs: Seq<(u64, u64)>) -> nat
    decreases segs.len(),
{
    if segs.len() == 0 {
        0
    } else {
        total_size(segs.drop_last()) + segs.last().1 as nat
    }
}

/// The oldest segments deleted, in order, while an excess of `over` bytes
/// remains.
pub open spec fn victims_from(segs: Seq<(u64, u64)>, over: nat) -> Seq<u64>
    decreases segs.len(),
{
    if segs.len() == 0 || over == 0 {
        Seq::empty()
    } else {
        seq![segs[0].0] + victims_from(
            segs.drop_first(),
            if over > segs[0].1 {
                (over - segs[0].1) as nat
            } else {
                0
            },
        )
    }
}

/// The segments retention deletes: with `segs` in index order as
/// `(index, size)`, the oldest segments (never the newest) until the bytes
/// they free cover the excess over `max_bytes`; none when `max_bytes` is 0
/// (unlimited) or the total fits.
pub open spec fn retention_victims_spec(segs: Seq<(u64, u64)>, max_bytes: u64) -> Seq<u64> {
    let total = total_size(segs);
    if max_bytes == 0 || total <= max_bytes || segs.len() == 0 {
        Seq::empty()
    } else {
        victims_from(segs.drop_last(), (total - max_bytes) as nat)
    }
}

proof fn lemma_total_prefix(segs: Seq<(u64, u64)>, k: int)
    requires
        0 <= k <= segs.len(),
    ensures
        total_size(segs.take(k)) <= total_size(segs),
    decreases segs.len(),
{
    if k < segs.len() {
        assert(segs.drop_last().take(k) =~= segs.take(k));
        lemma_total_prefix(segs.drop_last(), k);
    } else {
        assert(segs.take(k) =~= segs);
    }
}

/// The segments to delete for retention (`segs` in index order).
pub fn retention_victims(segs: &Vec<(u64, u64)>, max_bytes: u64) -> (r: Vec<u64>)
    requires
        total_size(segs@) <= u64::MAX,
    ensures
        r@ == retention_victims_spec(segs@, max_bytes),
{
    let n: usize = segs.len();
    let mut total: u64 = 0;
    let mut i: usize = 0;
    while i < n
        invariant
            n == segs@.len(),
            i <= n,
            total_size(segs@) <= u64::MAX,
            total == total_size(segs@.take(i as int)),
        decreases n - i,
    {
        assert(segs@.take(i + 1).drop_last() =~= segs@.take(i as int));
        proof {
            lemma_total_prefix(segs@, i + 1);
        }
        total = total + segs[i].1;
        i = i + 1;
    }
    assert(segs@.take(n as int) =~= segs@);
    let mut out: Vec<u64> = Vec::new();
    if max_bytes == 0 || total <= max_bytes || n == 0 {
        return out;
    }
    let mut over: u64 = total - max_bytes;
    let ghost rest0 = segs@.drop_last();
    assert(rest0.skip(0) =~= rest0);
    assert(out@ + victims_from(rest0, over as nat) =~= victims_from(rest0, over as nat));
    let mut j: usize = 0;
    while j + 1 < n && over > 0
        invariant
            n == segs@.len(),
            n >= 1,
            j + 1 <= n,
            rest0 == segs@.drop_last(),
            total == total_size(segs@),
            max_bytes < total,
            out@ + victims_from(rest0.skip(j as int), over as nat) == victims_from(
                rest0,
                (total - max_bytes) as nat,
            ),
        decreases n - j,
    {
        let (idx, sz) = segs[j];
        let ghost r = rest0.skip(j as int);
        let ghost over0 = over;
        assert(r[0] == (idx, sz));
        assert(r.drop_first() =~= rest0.skip(j + 1));
        let ghost before = out@;
        out.push(idx);
        over = if over > sz {
            over - sz
        } else {
            0
        };
        assert(victims_from(r, over0 as nat) == seq![idx] + victims_from(rest0.skip(j + 1), over as nat));
        assert(out@ + victims_from(rest0.skip(j + 1), over as nat) =~= before + victims_from(r, over0 as nat));
        j = j + 1;
    }
    assert(victims_from(rest0.skip(j as int), over as nat) =~= Seq::<u64>::empty());
    assert(out@ + Seq::<u64>::empty() =~= out@);
    out
}

/// The highest LSN among the headers readable from `pos` on (0 when none):
/// the walk stops at a short header, a foreign magic or an oversized
/// length, and after a record whose payload is cut short (its LSN counts).
pub open spec fn max_lsn_from(buf: Seq<u8>, pos: int) -> u64
    decreases buf.len() - pos,
{
    if pos < 0 || buf.len() - pos < HEADER {
        0
    } else {
        let h = header_of(buf.subrange(pos, pos + HEADER));
        if h.magic != MAGIC || h.payload_len > MAX_RECORD_SIZE {
            0
        } else {
            let rest = if buf.len() - pos - HEADER < h.payload_len {
                0
            } else {
                max_lsn_from(buf, pos + HEADER + h.payload_len)
            };
            if h.lsn > rest {
                h.lsn
            } else {
                rest
            }
        }
    }
}

/// The highest LSN a segment's headers carry (0 when none).
pub fn max_lsn_in_segment(buf: &[u8]) -> (r: u64)
    ensures
        r == max_lsn_from(buf@, 0),
{
    let len: usize = buf.len();
    let mut pos: usize = 0;
    let mut best: u64 = 0;
    loop
        invariant
            len == buf@.len(),
            pos <= len,
            (if best > max_lsn_from(buf@, pos as int) {
                best
            } else {
                max_lsn_from(buf@, pos as int)
            }) == max_lsn_from(buf@, 0),
        ensures
            best == max_lsn_from(buf@, 0),
        decreases len - pos,
    {
        if len - pos < HEADER {
            break;
        }
        let h = from_slice(buf, pos);
        if h.magic != MAGIC || h.payload_len as usize > MAX_RECORD_SIZE {
            break;
        }
        if h.lsn > best {
            best = h.lsn;
        }
        let plen: usize = h.payload_len as usize;
        if len - pos - HEADER < plen {
            break;
        }
        pos = pos + HEADER + plen;
    }
    best
}

/// The highest LSN across segments, given each segment's highest (0 for
/// none): `None` when no segment carries one.
pub fn max_lsn_across(seg_maxima: &[u64]) -> (r: Option<u64>)
    ensures
        r is None <==> forall|i: int| 0 <= i < seg_maxima@.len() ==> seg_maxima@[i] == 0,
        r is Some ==> (forall|i: int| 0 <= i < seg_maxima@.len() ==> seg_maxima@[i] <= r->Some_0)
            && exists|i: int| 0 <= i < seg_maxima@.len() && seg_maxima@[i] == r->Some_0,
{
    let n: usize = seg_maxima.len();
    let mut best: u64 = 0;
    let mut i: usize = 0;
    while i < n
        invariant
            n == seg_maxima@.len(),
            i <= n,
            forall|j: int| 0 <= j < i ==> seg_maxima@[j] <= best,
            best == 0 || exists|j: int| 0 <= j < i && seg_maxima@[j] == best,
        decreases n - i,
    {
        if seg_maxima[i] > best {
            best = seg_maxima[i];
        }
        i = i + 1;
    }
    if best == 0 {
        None
    } else {
        Some(best)
    }
}

/// The entry the first record with LSN `lsn` in `s` carries, if any.
pub open spec fn first_entry<T>(s: Seq<(u64, T)>, lsn: u64) -> Option<T>
    decreases s.len(),
{
    if s.len() == 0 {
        None
    } else if s[0].0 == lsn {
        Some(s[0].1)
    } else {
        first_entry(s.skip(1), lsn)
    }
}

/// Whether the LSNs of `s` strictly increase.
pub open spec fn lsns_increase<T>(s: Seq<(u64, T)>) -> bool {
    forall|i: int, j: int| 0 <= i < j < s.len() ==> #[trigger] s[i].0 < #[trigger] s[j].0
}

/// The first index of `out` whose LSN is at least `lsn`.
fn lsn_position<T>(out: &Vec<(u64, T)>, lsn: u64) -> (r: usize)
    requires
        lsns_increase(out@),
    ensures
        r <= out@.len(),
        forall|j: int| 0 <= j < r ==> out@[j].0 < lsn,
        r < out@.len() ==> out@[r as int].0 >= lsn,
{
    let n = out.len();
    let mut i: usize = 0;
    while i < n
        invariant
            n == out@.len(),
            i <= n,
            forall|j: int| 0 <= j < i ==> out@[j].0 < lsn,
        decreases n - i,
    {
        if out[i].0 >= lsn {
            return i;
        }
        i = i + 1;
    }
    i
}

/// Replayed records in LSN order with each LSN once: the first record
/// read with a given LSN is the one kept.
pub fn order_by_lsn<T>(recs: Vec<(u64, T)>) -> (r: Vec<(u64, T)>)
    ensures
        lsns_increase(r@),
        forall|i: int| 0 <= i < r@.len() ==> first_entry(recs@, #[trigger] r@[i].0) == Some(r@[i].1),
        forall|lsn: u64|
            (#[trigger] first_entry(recs@, lsn)) is Some ==> exists|i: int|
                0 <= i < r@.len() && r@[i].0 == lsn,
{
    let ghost all = recs@;
    let mut rest = recs;
    let mut out: Vec<(u64, T)> = Vec::new();
    while rest.len() > 0
        invariant
            rest@.len() <= all.len(),
            rest@ == all.take(rest@.len() as int),
            lsns_increase(out@),
            forall|i: int|
                0 <= i < out@.len() ==> first_entry(all.skip(rest@.len() as int), #[trigger] out@[i].0)
                    == Some(out@[i].1),
            forall|lsn: u64|
                (#[trigger] first_entry(all.skip(rest@.len() as int), lsn)) is Some ==> exists|i: int|
                    0 <= i < out@.len() && out@[i].0 == lsn,
        decreases rest@.len(),
    {
        let ghost k = rest@.len() as int;
        let x = rest.pop().unwrap();
        proof {
            assert(all.take(k - 1) =~= all.take(k).drop_last());
            assert(all[k - 1] == x);
            assert(all.skip(k - 1)[0] == x);
            assert(all.skip(k - 1).skip(1) =~= all.skip(k));
        }
        let pos = lsn_position(&out, x.0);
        let ghost before = out@;
        if pos < out.len() && out[pos].0 == x.0 {
            out.set(pos, x);
            proof {
                assert forall|i: int, j: int| 0 <= i < j < out@.len() implies #[trigger] out@[i].0
                    < #[trigger] out@[j].0 by {
                    assert(before[i].0 < before[j].0);
                }
                assert forall|lsn: u64| (#[trigger] first_entry(all.skip(k - 1), lsn)) is Some implies exists|i: int|
                    0 <= i < out@.len() && out@[i].0 == lsn by {
                    if lsn == x.0 {
                        assert(out@[pos as int].0 == lsn);
                    } else {
                        assert(first_entry(all.skip(k), lsn) is Some);
                        let i = choose|i: int| 0 <= i < before.len() && before[i].0 == lsn;
                        assert(out@[i].0 == lsn);
                    }
                }
            }
        } else {
            proof {
                assert(first_entry(all.skip(k), x.0) is None) by {
                    if first_entry(all.skip(k), x.0) is Some {
                        let i = choose|i: int| 0 <= i < before.len() && before[i].0 == x.0;
                        if i < pos {
                        } else {
                            assert(before[pos as int].0 <= before[i].0);
                        }
                    }
                }
            }
            out.insert(pos, x);
            proof {
                assert forall|i: int, j: int| 0 <= i < j < out@.len() implies #[trigger] out@[i].0
                    < #[trigger] out@[j].0 by {
                    if j < pos {
                        assert(before[i].0 < before[j].0);
                    } else if j == pos {
                    } else if i < pos {
                        assert(out@[j] == before[j - 1]);
                    } else if i == pos {
                        assert(out@[j] == before[j - 1]);
                    } else {
                        assert(before[i - 1].0 < before[j - 1].0);
                    }
                }
                assert forall|i: int| 0 <= i < out@.len() implies first_entry(all.skip(k - 1), #[trigger] out@[i].0)
                    == Some(out@[i].1) by {
                    if i < pos {
                        assert(out@[i] == before[i]);
                    } else if i > pos {
                        assert(out@[i] == before[i - 1]);
                    }
                }
                assert forall|lsn: u64| (#[trigger] first_entry(all.skip(k - 1), lsn)) is Some implies exists|i: int|
                    0 <= i < out@.len() && out@[i].0 == lsn by {
                    if lsn == x.0 {
                        assert(out@[pos as int].0 == lsn);
                    } else {
                        assert(first_entry(all.skip(k), lsn) is Some);
                        let i = choose|i: int| 0 <= i < before.len() && before[i].0 == lsn;
                        if i < pos {
                            assert(out@[i].0 == lsn);
                        } else {
                            assert(out@[i + 1].0 == lsn);
                        }
                    }
                }
            }
        }
    }
    assert(all.skip(0) =~= all);
    out
}

/// The log's sequence-number counter: the LSN the next append takes.
pub struct LsnCounter {
    next: u64,
}

impl LsnCounter {
    /// The LSN the next append takes.
    pub closed spec fn next_lsn(&self) -> u64 {
        self.next
    }

    /// Resume after the segments whose highest LSNs are `seg_maxima` (0 for
    /// a segment with none): one past the highest, or 1 for an empty log.
    pub fn resume(seg_maxima: &[u64]) -> (r: Self)
        requires
            forall|i: int| 0 <= i < seg_maxima@.len() ==> seg_maxima@[i] < u64::MAX,
        ensures
            forall|i: int| 0 <= i < seg_maxima@.len() ==> seg_maxima@[i] < r.next_lsn(),
            r.next_lsn() >= 1,
            (forall|i: int| 0 <= i < seg_maxima@.len() ==> seg_maxima@[i] == 0) ==> r.next_lsn() == 1,
            (exists|i: int| 0 <= i < seg_maxima@.len() && seg_maxima@[i] + 1 == r.next_lsn())
                || r.next_lsn() == 1,
    {
        match max_lsn_across(seg_maxima) {
            Some(m) => LsnCounter { next: m + 1 },
            None => LsnCounter { next: 1 },
        }
    }

    /// The LSN the next append takes.
    pub fn peek(&self) -> (r: u64)
        ensures
            r == self.next_lsn(),
    {
        self.next
    }

    /// Take the next LSN for an append.
    pub fn take(&mut self) -> (lsn: u64)
        requires
            old(self).next_lsn() < u64::MAX,
        ensures
            lsn == old(self).next_lsn(),
            final(self).next_lsn() == old(self).next_lsn() + 1,
    {
        let lsn = self.next;
        self.next = self.next + 1;
        lsn
    }
}

/// LSNs never repeat across restarts: after resuming past the segments'
/// highest LSNs, every LSN taken (each one more than the last) is above
/// all of them, so none is reused.
pub proof fn lemma_resumed_lsns_are_fresh(seg_maxima: Seq<u64>, first: u64, taken: u64)
    requires
        forall|i: int| 0 <= i < seg_maxima.len() ==> seg_maxima[i] < first,
        first <= taken,
    ensures
        forall|i: int| 0 <= i < seg_maxima.len() ==> seg_maxima[i] < taken,
        !seg_maxima.contains(taken),
{
}

} // verus!
