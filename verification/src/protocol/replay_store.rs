//! Replay protection: a bounded store of recently accepted frame digests
//! per key, with TTL expiry and oldest-first eviction.

use vstd::prelude::*;
use std::collections::VecDeque;
use std::time::Instant;
use crate::arith::sat_sub_u64_spec;
use crate::text::str_eq;
use crate::types::time::{instant_now, monotonic_now};
use std::hash::BuildHasher;
use ahash::AHashMap;

verus! {

broadcast use vstd::std_specs::vecdeque::group_vec_dequeue_axioms;

/// A store key: the key id (its text, and its hash carried beside it) and
/// the frame digest. Two keys are the same when their key-id texts and
/// digests are.
#[derive(Debug, Clone, PartialEq, Eq, Hash)]
pub struct NonceKey {
    pub key_id_hash: u64,
    pub key_id: String,
    pub nonce: Vec<u8>,
}

/// A stored key as plain values: `(key_id, digest, recorded_at)`.
pub type Seen = (Seq<char>, Seq<u8>, u64);

/// Whether an entry recorded at `at` has expired at `now`.
pub open spec fn expired(at: u64, now: u64, ttl: u64) -> bool {
    sat_sub_u64_spec(now, at) >= ttl
}

/// The entries left after dropping expired entries from the front.
pub open spec fn sweep_front(es: Seq<Seen>, now: u64, ttl: u64) -> Seq<Seen>
    decreases es.len(),
{
    if es.len() > 0 && expired(es[0].2, now, ttl) {
        sweep_front(es.drop_first(), now, ttl)
    } else {
        es
    }
}

/// The entries without those of key `(h, n)`.
pub open spec fn without_key(es: Seq<Seen>, h: Seq<char>, n: Seq<u8>) -> Seq<Seen> {
    crate::enforcement::keep(es, other_key(h, n))
}

/// Entries of a key other than `(h, n)`.
pub open spec fn other_key(h: Seq<char>, n: Seq<u8>) -> spec_fn(Seen) -> bool {
    |e: Seen| !(e.0 == h && e.1 == n)
}

/// The last `cap` entries.
pub open spec fn last_n(es: Seq<Seen>, cap: nat) -> Seq<Seen> {
    if es.len() > cap {
        es.subrange(es.len() - cap, es.len() as int)
    } else {
        es
    }
}

/// Whether key `(h, n)` is live in `es` at `now`.
pub open spec fn live_in(es: Seq<Seen>, h: Seq<char>, n: Seq<u8>, now: u64, ttl: u64) -> bool {
    exists|i: int|
        0 <= i < es.len() && #[trigger] es[i].0 == h && es[i].1 == n && !expired(es[i].2, now, ttl)
}

/// What recording digest `n` under key id `h` at `now` does to a store
/// holding `es`: expired entries are swept from the front; a live
/// duplicate is refused as a replay; otherwise the digest becomes the
/// newest entry and the oldest beyond `cap` are dropped.
pub open spec fn record_outcome(
    es: Seq<Seen>,
    cap: nat,
    ttl: u64,
    h: Seq<char>,
    n: Seq<u8>,
    now: u64,
    r: Result<(), &'static str>,
    after: Seq<Seen>,
) -> bool {
    let swept = sweep_front(es, now, ttl);
    if live_in(swept, h, n, now, ttl) {
        r is Err && r->Err_0@ == "replay"@ && after == swept
    } else {
        r is Ok && after == last_n(without_key(swept, h, n).push((h, n, now)), cap)
    }
}

/// The key of a stored entry: its key id and digest.
pub open spec fn key_of(e: Seen) -> (Seq<char>, Seq<u8>) {
    (e.0, e.1)
}

/// Whether no key is stored twice.
pub open spec fn distinct_keys(es: Seq<Seen>) -> bool {
    forall|i: int, j: int| 0 <= i < j < es.len() ==> key_of(#[trigger] es[i]) != key_of(#[trigger] es[j])
}

/// The index of stored entries: each key to the time it was recorded (the
/// later entry winning, though keys are stored once).
pub open spec fn index_of(es: Seq<Seen>) -> Map<(Seq<char>, Seq<u8>), u64>
    decreases es.len(),
{
    if es.len() == 0 {
        Map::empty()
    } else {
        index_of(es.drop_last()).insert(key_of(es.last()), es.last().2)
    }
}

proof fn lemma_index_lookup(es: Seq<Seen>, k: (Seq<char>, Seq<u8>))
    requires
        distinct_keys(es),
    ensures
        index_of(es).contains_key(k) <==> exists|i: int| 0 <= i < es.len() && key_of(#[trigger] es[i]) == k,
        forall|i: int| 0 <= i < es.len() && key_of(#[trigger] es[i]) == k ==> index_of(es)[k] == es[i].2,
    decreases es.len(),
{
    if es.len() > 0 {
        let p = es.drop_last();
        assert(distinct_keys(p)) by {
            assert forall|i: int, j: int| 0 <= i < j < p.len() implies key_of(#[trigger] p[i]) != key_of(#[trigger] p[j]) by {
                assert(key_of(es[i]) != key_of(es[j]));
            }
        }
        lemma_index_lookup(p, k);
        if index_of(es).contains_key(k) && key_of(es.last()) != k {
            let i = choose|i: int| 0 <= i < p.len() && key_of(#[trigger] p[i]) == k;
            assert(es[i] == p[i]);
        }
        if exists|i: int| 0 <= i < es.len() && key_of(#[trigger] es[i]) == k {
            let i = choose|i: int| 0 <= i < es.len() && key_of(#[trigger] es[i]) == k;
            if i < es.len() - 1 {
                assert(p[i] == es[i]);
            }
        }
        assert forall|i: int| 0 <= i < es.len() && key_of(#[trigger] es[i]) == k implies index_of(es)[k] == es[i].2 by {
            if i < es.len() - 1 {
                assert(key_of(es[i]) != key_of(es[es.len() - 1]));
                assert(p[i] == es[i]);
            }
        }
    }
}

proof fn lemma_index_drop_first(es: Seq<Seen>)
    requires
        distinct_keys(es),
        es.len() > 0,
    ensures
        distinct_keys(es.drop_first()),
        index_of(es.drop_first()) == index_of(es).remove(key_of(es[0])),
{
    let d = es.drop_first();
    assert(distinct_keys(d)) by {
        assert forall|i: int, j: int| 0 <= i < j < d.len() implies key_of(#[trigger] d[i]) != key_of(#[trigger] d[j]) by {
            assert(key_of(es[i + 1]) != key_of(es[j + 1]));
        }
    }
    assert forall|k: (Seq<char>, Seq<u8>)| #[trigger] index_of(d).contains_key(k) <==> index_of(es).remove(key_of(es[0])).contains_key(k) by {
        lemma_index_lookup(es, k);
        lemma_index_lookup(d, k);
        if index_of(d).contains_key(k) {
            let i = choose|i: int| 0 <= i < d.len() && key_of(#[trigger] d[i]) == k;
            assert(key_of(es[i + 1]) == k);
            assert(key_of(es[0]) != key_of(es[i + 1]));
        }
        if index_of(es).remove(key_of(es[0])).contains_key(k) {
            let i = choose|i: int| 0 <= i < es.len() && key_of(#[trigger] es[i]) == k;
            assert(i != 0);
            assert(key_of(d[i - 1]) == k);
        }
    }
    assert forall|k: (Seq<char>, Seq<u8>)| #[trigger] index_of(d).contains_key(k) implies index_of(d)[k] == index_of(es)[k] by {
        lemma_index_lookup(es, k);
        lemma_index_lookup(d, k);
        let i = choose|i: int| 0 <= i < d.len() && key_of(#[trigger] d[i]) == k;
        assert(key_of(es[i + 1]) == k);
    }
    assert(index_of(d) =~= index_of(es).remove(key_of(es[0])));
}

proof fn lemma_index_without(es: Seq<Seen>, h: Seq<char>, n: Seq<u8>)
    requires
        distinct_keys(es),
    ensures
        distinct_keys(without_key(es, h, n)),
        index_of(without_key(es, h, n)) == index_of(es).remove((h, n)),
    decreases es.len(),
{
    let f = other_key(h, n);
    if es.len() > 0 {
        let p = es.drop_last();
        assert(distinct_keys(p)) by {
            assert forall|i: int, j: int| 0 <= i < j < p.len() implies key_of(#[trigger] p[i]) != key_of(#[trigger] p[j]) by {
                assert(key_of(es[i]) != key_of(es[j]));
            }
        }
        lemma_index_without(p, h, n);
        let wp = without_key(p, h, n);
        let x = es.last();
        assert(without_key(es, h, n) == (if f(x) { wp.push(x) } else { wp }));
        if f(x) {
            let w = wp.push(x);
            assert forall|i: int, j: int| 0 <= i < j < w.len() implies key_of(#[trigger] w[i]) != key_of(#[trigger] w[j]) by {
                if j == w.len() - 1 {
                    crate::enforcement::lemma_keep_contains(p, f, wp[i]);
                    assert(wp.contains(wp[i]));
                    let q = choose|q: int| 0 <= q < p.len() && p[q] == wp[i];
                    assert(key_of(es[q]) != key_of(es[es.len() - 1]));
                } else {
                    assert(w[i] == wp[i] && w[j] == wp[j]);
                }
            }
            lemma_index_lookup(p, key_of(x));
            assert(!index_of(p).contains_key(key_of(x))) by {
                if index_of(p).contains_key(key_of(x)) {
                    let q = choose|q: int| 0 <= q < p.len() && key_of(#[trigger] p[q]) == key_of(x);
                    assert(key_of(es[q]) != key_of(es[es.len() - 1]));
                }
            }
            assert(w.drop_last() =~= wp);
            assert(key_of(x) != (h, n));
            assert(index_of(w) == index_of(wp).insert(key_of(x), x.2));
            assert(index_of(es) == index_of(p).insert(key_of(x), x.2));
            assert(index_of(w) =~= index_of(es).remove((h, n)));
        } else {
            assert(index_of(wp) =~= index_of(es).remove((h, n)));
        }
    }
}

#[verifier::external_type_specification]
#[verifier::external_body]
#[verifier::reject_recursive_types(K)]
#[verifier::reject_recursive_types(V)]
#[verifier::reject_recursive_types(S)]
pub struct ExAHashMap<K, V, S>(AHashMap<K, V, S>);

#[verifier::external_type_specification]
#[verifier::external_body]
pub struct ExAHashState(ahash::RandomState);

/// A store key as plain values: key id and digest.
pub type KeyView = (Seq<char>, Seq<u8>);

/// The store's index: (key id, digest) to the time it was recorded.
pub type ReplayIndex = AHashMap<(String, Vec<u8>), u64>;

/// What a replay index holds.
pub uninterp spec fn index_entries(m: ReplayIndex) -> Map<(Seq<char>, Seq<u8>), u64>;

/// `AHashMap::new()`: an empty map.
#[verifier::external_body]
fn idx_new() -> (r: ReplayIndex)
    ensures
        index_entries(r).dom() == Set::<KeyView>::empty(),
{
    AHashMap::new()
}

/// `HashMap::get` through the `AHashMap`, the time copied out.
#[verifier::external_body]
fn idx_get(m: &ReplayIndex, k: &(String, Vec<u8>)) -> (r: Option<u64>)
    ensures
        match r {
            Some(t) => index_entries(*m).contains_key((k.0@, k.1@)) && t == index_entries(*m)[(k.0@, k.1@)],
            None => !index_entries(*m).contains_key((k.0@, k.1@)),
        },
{
    m.get(k).copied()
}

/// `HashMap::insert` through the `AHashMap`.
#[verifier::external_body]
fn idx_insert(m: &mut ReplayIndex, k: (String, Vec<u8>), t: u64)
    ensures
        index_entries(*final(m)) == index_entries(*old(m)).insert((k.0@, k.1@), t),
{
    m.insert(k, t);
}

/// `HashMap::remove` through the `AHashMap`.
#[verifier::external_body]
fn idx_remove(m: &mut ReplayIndex, k: &(String, Vec<u8>))
    ensures
        index_entries(*final(m)) == index_entries(*old(m)).remove((k.0@, k.1@)),
{
    m.remove(k);
}

/// A bounded, TTL-limited store of accepted frame digests: the keys in
/// the order they were recorded, with their times, and an index from key
/// to time.
pub struct ReplayStore {
    cap: usize,
    ttl_ns: u64,
    epoch: Instant,
    order: VecDeque<NonceKey>,
    times: VecDeque<u64>,
    index: ReplayIndex,
}

impl ReplayStore {
    /// The stored entries, oldest first.
    pub closed spec fn entries(&self) -> Seq<Seen> {
        Seq::new(
            self.order@.len(),
            |i: int| (self.order@[i].key_id@, self.order@[i].nonce@, self.times@[i]),
        )
    }

    /// The capacity (at least one).
    pub closed spec fn capacity(&self) -> usize {
        self.cap
    }

    /// The TTL in nanoseconds.
    pub closed spec fn ttl(&self) -> u64 {
        self.ttl_ns
    }

    /// The store's invariant: the two queues line up and hold at most
    /// `capacity` entries.
    pub closed spec fn wf(&self) -> bool {
        &&& self.order@.len() == self.times@.len()
        &&& self.order@.len() <= self.cap
        &&& self.cap >= 1
        &&& distinct_keys(self.entries())
        &&& index_entries(self.index) == index_of(self.entries())
    }

    /// An empty store holding at most `capacity` entries (at least one),
    /// each for `ttl_ms` milliseconds.
    pub fn new(capacity: usize, ttl_ms: u64) -> (r: Self)
        ensures
            r.wf(),
            r.entries().len() == 0,
            r.capacity() == (if capacity == 0 { 1 } else { capacity }),
            r.ttl() == crate::arith::sat_mul_u64_spec(ttl_ms, 1_000_000),
    {
        let cap: usize = if capacity == 0 { 1 } else { capacity };
        let r = ReplayStore {
            cap,
            ttl_ns: crate::arith::sat_mul_u64(ttl_ms, 1_000_000),
            epoch: instant_now(),
            order: VecDeque::new(),
            times: VecDeque::new(),
            index: idx_new(),
        };
        assert(r.entries() =~= Seq::<Seen>::empty());
        assert(index_entries(r.index) =~= index_of(r.entries()));
        r
    }

    /// Number of stored entries.
    pub fn len(&self) -> (r: usize)
        requires
            self.wf(),
        ensures
            r == self.entries().len(),
    {
        self.order.len()
    }

    /// Whether the store is empty.
    pub fn is_empty(&self) -> (r: bool)
        requires
            self.wf(),
        ensures
            r == (self.entries().len() == 0),
    {
        self.order.len() == 0
    }
}

/// Byte-string equality.
fn bytes_eq(a: &Vec<u8>, b: &Vec<u8>) -> (r: bool)
    ensures
        r == (a@ == b@),
{
    if a.len() != b.len() {
        return false;
    }
    let n: usize = a.len();
    let mut i: usize = 0;
    while i < n
        invariant
            n == a@.len(),
            n == b@.len(),
            i <= n,
            forall|j: int| 0 <= j < i ==> a@[j] == b@[j],
        decreases n - i,
    {
        if a[i] != b[i] {
            return false;
        }
        i = i + 1;
    }
    assert(a@ =~= b@);
    true
}

/// Whether two keys are the same: same key-id text and digest.
fn key_eq(a: &NonceKey, b: &NonceKey) -> (r: bool)
    ensures
        r == (a.key_id@ == b.key_id@ && a.nonce@ == b.nonce@),
{
    str_eq(a.key_id.as_str(), b.key_id.as_str()) && bytes_eq(&a.nonce, &b.nonce)
}

/// A copy of a key.
fn copy_key(k: &NonceKey) -> (r: NonceKey)
    ensures
        r.key_id_hash == k.key_id_hash,
        r.key_id@ == k.key_id@,
        r.nonce@ == k.nonce@,
{
    let n: usize = k.nonce.len();
    let mut v: Vec<u8> = Vec::new();
    let mut i: usize = 0;
    while i < n
        invariant
            n == k.nonce@.len(),
            i <= n,
            v@ == k.nonce@.take(i as int),
        decreases n - i,
    {
        v.push(k.nonce[i]);
        assert(k.nonce@.take(i + 1) =~= k.nonce@.take(i as int).push(k.nonce@[i as int]));
        i = i + 1;
    }
    assert(k.nonce@.take(n as int) =~= k.nonce@);
    NonceKey { key_id_hash: k.key_id_hash, key_id: k.key_id.clone(), nonce: v }
}

/// The index key of a store key: its key-id text and digest.
fn index_key(k: &NonceKey) -> (r: (String, Vec<u8>))
    ensures
        r.0@ == k.key_id@,
        r.1@ == k.nonce@,
{
    let c = copy_key(k);
    (c.key_id, c.nonce)
}

impl ReplayStore {
    /// Record `key` seen at monotonic time `now_ns`: expired entries are
    /// first dropped from the front; a key still live is refused as a
    /// replay; otherwise the key is (re-)recorded as the newest entry and
    /// the oldest entries beyond the capacity are dropped.
    pub fn check_and_record_at(&mut self, key: NonceKey, now_ns: u64) -> (r: Result<(), &'static str>)
        requires
            old(self).wf(),
        ensures
            final(self).wf(),
            final(self).capacity() == old(self).capacity(),
            final(self).ttl() == old(self).ttl(),
            ({
                let swept = sweep_front(old(self).entries(), now_ns, old(self).ttl());
                if live_in(swept, key.key_id@, key.nonce@, now_ns, old(self).ttl()) {
                    &&& r is Err
                    &&& r->Err_0@ == "replay"@
                    &&& final(self).entries() == swept
                } else {
                    &&& r is Ok
                    &&& final(self).entries() == last_n(
                        without_key(swept, key.key_id@, key.nonce@).push(
                            (key.key_id@, key.nonce@, now_ns),
                        ),
                        old(self).capacity() as nat,
                    )
                }
            }),
    {
        let ghost e0 = self.entries();
        assert(e0 == old(self).entries());
        let ttl = self.ttl_ns;
        // Lazy TTL sweep of the front.
        loop
            invariant
                self.wf(),
                self.ttl_ns == ttl,
                self.cap == old(self).cap,
                ttl == old(self).ttl_ns,
                sweep_front(self.entries(), now_ns, ttl) == sweep_front(e0, now_ns, ttl),
            ensures
                self.wf(),
                self.cap == old(self).cap,
                self.ttl_ns == old(self).ttl_ns,
                self.entries() == sweep_front(e0, now_ns, ttl),
            decreases self.order@.len(),
        {
            if self.times.len() == 0 {
                assert(sweep_front(self.entries(), now_ns, ttl) == self.entries());
                break;
            }
            let t = self.times[0];
            if now_ns.saturating_sub(t) < ttl {
                assert(sweep_front(self.entries(), now_ns, ttl) == self.entries());
                break;
            }
            let ghost before = self.entries();
            let front = index_key(&self.order[0]);
            let _ = self.order.pop_front();
            let _ = self.times.pop_front();
            idx_remove(&mut self.index, &front);
            assert(self.entries() =~= before.drop_first());
            proof {
                lemma_index_drop_first(before);
            }
        }
        let ghost swept = self.entries();
        // Still-live duplicate?
        let n: usize = self.order.len();
        let ik = index_key(&key);
        proof {
            lemma_index_lookup(swept, (key.key_id@, key.nonce@));
        }
        match idx_get(&self.index, &ik) {
            Some(t) => {
                if now_ns.saturating_sub(t) < ttl {
                    proof {
                        let w = choose|w: int| 0 <= w < swept.len() && key_of(#[trigger] swept[w]) == (key.key_id@, key.nonce@);
                        assert(swept[w].0 == key.key_id@ && swept[w].1 == key.nonce@ && !expired(swept[w].2, now_ns, ttl));
                        assert(live_in(swept, key.key_id@, key.nonce@, now_ns, ttl));
                    }
                    return Err("replay");
                }
            },
            None => {},
        }
        proof {
            if live_in(swept, key.key_id@, key.nonce@, now_ns, ttl) {
                let w = choose|w: int|
                    0 <= w < swept.len() && #[trigger] swept[w].0 == key.key_id@ && swept[w].1 == key.nonce@ && !expired(
                        swept[w].2,
                        now_ns,
                        ttl,
                    );
                assert(key_of(swept[w]) == (key.key_id@, key.nonce@));
            }
        }
        assert(!live_in(swept, key.key_id@, key.nonce@, now_ns, ttl));
        // Drop any expired entry of the same key, then record it as newest.
        let mut order: VecDeque<NonceKey> = VecDeque::new();
        let mut times: VecDeque<u64> = VecDeque::new();
        let mut j: usize = 0;
        while j < n
            invariant
                self.wf(),
                self.cap == old(self).cap,
                self.ttl_ns == old(self).ttl_ns,
                self.entries() == swept,
                n == self.order@.len(),
                j <= n,
                order@.len() == times@.len(),
                Seq::new(order@.len(), |q: int| (order@[q].key_id@, order@[q].nonce@, times@[q]))
                    == without_key(swept.take(j as int), key.key_id@, key.nonce@),
            decreases n - j,
        {
            let ghost kept = Seq::new(order@.len(), |q: int| (order@[q].key_id@, order@[q].nonce@, times@[q]));
            assert(swept.take(j + 1).drop_last() =~= swept.take(j as int));
            assert(swept[j as int] == (self.order@[j as int].key_id@, self.order@[j as int].nonce@, self.times@[j as int]));
            if !key_eq(&self.order[j], &key) {
                order.push_back(copy_key(&self.order[j]));
                times.push_back(self.times[j]);
                assert(Seq::new(order@.len(), |q: int| (order@[q].key_id@, order@[q].nonce@, times@[q])) =~= kept.push(swept[j as int]));
            }
            j = j + 1;
        }
        assert(swept.take(n as int) =~= swept);
        let ghost kept = Seq::new(order@.len(), |q: int| (order@[q].key_id@, order@[q].nonce@, times@[q]));
        let ghost h = key.key_id@;
        let ghost kn = key.nonce@;
        proof {
            lemma_index_without(swept, h, kn);
            lemma_index_lookup(kept, (h, kn));
            assert(distinct_keys(kept.push((h, kn, now_ns)))) by {
                let f2 = kept.push((h, kn, now_ns));
                assert forall|a: int, b: int| 0 <= a < b < f2.len() implies key_of(#[trigger] f2[a]) != key_of(#[trigger] f2[b]) by {
                    if b == f2.len() - 1 {
                        assert(f2[a] == kept[a]);
                        assert(!index_of(kept).contains_key((h, kn)));
                    } else {
                        assert(f2[a] == kept[a] && f2[b] == kept[b]);
                    }
                }
            }
            assert(kept.push((h, kn, now_ns)).drop_last() =~= kept);
        }
        idx_insert(&mut self.index, ik, now_ns);
        order.push_back(key);
        times.push_back(now_ns);
        assert(Seq::new(order@.len(), |q: int| (order@[q].key_id@, order@[q].nonce@, times@[q])) =~= kept.push((h, kn, now_ns)));
        let ghost full = kept.push((h, kn, now_ns));
        assert(index_entries(self.index) =~= index_of(full));
        // Oldest-first eviction beyond the capacity.
        while order.len() > self.cap
            invariant
                order@.len() == times@.len(),
                self.cap >= 1,
                self.cap == old(self).cap,
                self.ttl_ns == old(self).ttl_ns,
                Seq::new(order@.len(), |q: int| (order@[q].key_id@, order@[q].nonce@, times@[q]))
                    == full.subrange(full.len() - order@.len(), full.len() as int),
                order@.len() <= full.len(),
                order@.len() == full.len() || order@.len() >= self.cap,
                distinct_keys(Seq::new(order@.len(), |q: int| (order@[q].key_id@, order@[q].nonce@, times@[q]))),
                index_entries(self.index) == index_of(
                    Seq::new(order@.len(), |q: int| (order@[q].key_id@, order@[q].nonce@, times@[q])),
                ),
            decreases order@.len(),
        {
            let ghost before = Seq::new(order@.len(), |q: int| (order@[q].key_id@, order@[q].nonce@, times@[q]));
            let front = index_key(&order[0]);
            let _ = order.pop_front();
            let _ = times.pop_front();
            idx_remove(&mut self.index, &front);
            assert(Seq::new(order@.len(), |q: int| (order@[q].key_id@, order@[q].nonce@, times@[q])) =~= before.drop_first());
            assert(before.drop_first() =~= full.subrange(full.len() - order@.len(), full.len() as int));
            proof {
                lemma_index_drop_first(before);
            }
        }
        assert(full.subrange(0, full.len() as int) =~= full);
        self.order = order;
        self.times = times;
        assert(self.entries() =~= last_n(full, self.cap as nat));
        Ok(())
    }
}

/// `ahash::RandomState::with_seeds(0, 0, 0, 0).hash_one(key_id)`: a 64-bit
/// hash of the key id. The value depends on the machine's hashing backend,
/// so nothing is claimed of it.
#[verifier::external_body]
fn key_id_hash(key_id: &str) -> u64 {
    ahash::RandomState::with_seeds(0, 0, 0, 0).hash_one(key_id)
}

impl ReplayStore {
    /// Record frame digest `nonce` under `key_id` at the current monotonic
    /// time; `Err("replay")` when the same digest under the same key id is
    /// still live. The key carries the key id's hash beside its text.
    pub fn check_and_record(&mut self, key_id: &str, nonce: &[u8]) -> (r: Result<(), &'static str>)
        requires
            old(self).wf(),
        ensures
            final(self).wf(),
            final(self).capacity() == old(self).capacity(),
            final(self).ttl() == old(self).ttl(),
            exists|now: u64|
                #[trigger] record_outcome(
                    old(self).entries(),
                    old(self).capacity() as nat,
                    old(self).ttl(),
                    key_id@,
                    nonce@,
                    now,
                    r,
                    final(self).entries(),
                ),
    {
        let h = key_id_hash(key_id);
        let now = monotonic_now(self.epoch).0;
        let n: usize = nonce.len();
        let mut v: Vec<u8> = Vec::new();
        let mut i: usize = 0;
        while i < n
            invariant
                n == nonce@.len(),
                i <= n,
                v@ == nonce@.take(i as int),
            decreases n - i,
        {
            v.push(nonce[i]);
            assert(nonce@.take(i + 1) =~= nonce@.take(i as int).push(nonce@[i as int]));
            i = i + 1;
        }
        assert(nonce@.take(n as int) =~= nonce@);
        let key_text = key_id.to_owned();
        let r = self.check_and_record_at(NonceKey { key_id_hash: h, key_id: key_text, nonce: v }, now);
        assert(record_outcome(
            old(self).entries(),
            old(self).capacity() as nat,
            old(self).ttl(),
            key_id@,
            nonce@,
            now,
            r,
            self.entries(),
        ));
        r
    }
}

/// Sweeping keeps the newest entry when it has not expired.
proof fn lemma_sweep_keeps_live_last(es: Seq<Seen>, now: u64, ttl: u64)
    requires
        es.len() > 0,
        !expired(es.last().2, now, ttl),
    ensures
        sweep_front(es, now, ttl).len() > 0,
        sweep_front(es, now, ttl).last() == es.last(),
    decreases es.len(),
{
    if es.len() > 0 && expired(es[0].2, now, ttl) {
        assert(es.len() > 1);
        assert(es.drop_first().last() == es.last());
        lemma_sweep_keeps_live_last(es.drop_first(), now, ttl);
    }
}

/// Replay law: a digest recorded at `t` is refused when presented again
/// under the same key before its TTL runs out.
pub proof fn lemma_recorded_digest_is_replay(
    swept: Seq<Seen>,
    h: Seq<char>,
    n: Seq<u8>,
    t: u64,
    later: u64,
    ttl: u64,
    cap: nat,
)
    requires
        cap >= 1,
        t <= later,
        later - t < ttl,
    ensures
        live_in(
            sweep_front(last_n(without_key(swept, h, n).push((h, n, t)), cap), later, ttl),
            h,
            n,
            later,
            ttl,
        ),
{
    let full = without_key(swept, h, n).push((h, n, t));
    let kept = last_n(full, cap);
    assert(kept.last() == (h, n, t));
    lemma_sweep_keeps_live_last(kept, later, ttl);
    let sw = sweep_front(kept, later, ttl);
    assert(sw[sw.len() - 1].0 == h && sw[sw.len() - 1].1 == n && !expired(sw[sw.len() - 1].2, later, ttl));
}

/// The store never holds more entries than its capacity.
pub proof fn lemma_store_bounded(es: Seq<Seen>, cap: nat)
    ensures
        last_n(es, cap).len() <= cap || es.len() <= cap,
        last_n(es, cap).len() <= es.len(),
{
}

} // verus!
