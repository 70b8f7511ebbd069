//! Add-wins observed-remove set (AWORSet) for fleet-federated blocklists.
//!
//! Each add is tagged with a dot unique to its replica: `(key, replica,
//! counter)`. A remove tombstones only the dots of the key that this
//! replica has observed, so an add that a remove has not seen survives it:
//! concurrent add and remove of a key resolve in favour of the add. Replicas
//! merge by taking the union of their dots and of their tombstones.

use vstd::prelude::*;
use dashmap::DashSet;
use crate::text::str_eq;

verus! {

#[verifier::external_type_specification]
#[verifier::external_body]
#[verifier::reject_recursive_types(K)]
#[verifier::reject_recursive_types(S)]
pub struct ExDashSet<K, S>(DashSet<K, S>);

/// A dot: the key, the replica that added it, and that replica's counter.
pub type Tag = (String, u32, u64);

/// A dot as plain values.
pub type TagModel = (Seq<char>, u32, u64);

/// The dot of a tag as plain values.
pub open spec fn tag_model(t: Tag) -> TagModel {
    (t.0@, t.1, t.2)
}

/// The dots of a sequence of tags.
pub open spec fn tag_models(s: Seq<Tag>) -> Seq<TagModel> {
    s.map_values(|t: Tag| tag_model(t))
}

/// The texts of a sequence of keys.
pub open spec fn key_texts(s: Seq<String>) -> Seq<Seq<char>> {
    s.map_values(|k: String| k@)
}

/// The dots a `DashSet` of tags holds.
pub uninterp spec fn dashset_tags(s: DashSet<(String, u32, u64)>) -> Set<(Seq<char>, u32, u64)>;

/// `DashSet::new()`: an empty set.
#[verifier::external_body]
fn ds_new() -> (r: DashSet<Tag>)
    ensures
        dashset_tags(r) == Set::<TagModel>::empty(),
{
    DashSet::new()
}

/// `DashSet::insert`: the tag is in the set afterwards; nothing else
/// changes.
#[verifier::external_body]
fn ds_insert(s: &mut DashSet<Tag>, t: Tag)
    ensures
        dashset_tags(*final(s)) == dashset_tags(*old(s)).insert(tag_model(t)),
{
    s.insert(t);
}

/// `DashSet::contains`.
#[verifier::external_body]
fn ds_contains(s: &DashSet<Tag>, t: &Tag) -> (r: bool)
    ensures
        r == dashset_tags(*s).contains(tag_model(*t)),
{
    s.contains(t)
}

/// `DashSet::iter`, each tag cloned: every tag once, in no stated order.
#[verifier::external_body]
fn ds_items(s: &DashSet<Tag>) -> (r: Vec<Tag>)
    ensures
        tag_models(r@).to_set() == dashset_tags(*s),
{
    s.iter().map(|t| t.key().clone()).collect()
}

/// A set element as exchanged between peers.
#[derive(Debug, Clone)]
pub struct Element {
    pub key: String,
    pub dot: u64,
    pub removed: bool,
}

/// Whether `key` is a member of a replica holding dots `added` and
/// tombstones `removed`: some dot of `key` is not tombstoned.
pub open spec fn member_of(added: Set<TagModel>, removed: Set<TagModel>, key: Seq<char>) -> bool {
    exists|t: TagModel| #[trigger] added.contains(t) && !removed.contains(t) && t.0 == key
}

/// The tombstones after removing `key`: every observed dot of `key` joins them.
pub open spec fn observed_removal(added: Set<TagModel>, removed: Set<TagModel>, key: Seq<char>) -> Set<TagModel> {
    removed.union(added.filter(|t: TagModel| t.0 == key))
}

/// An add-wins observed-remove set.
pub struct Aworset {
    replica: u32,
    next: u128,
    elements: DashSet<Tag>,
    tombstones: DashSet<Tag>,
}

impl Aworset {
    /// The dots added, here or at merged replicas.
    pub closed spec fn added(&self) -> Set<TagModel> {
        dashset_tags(self.elements)
    }

    /// The tombstoned dots.
    pub closed spec fn removed(&self) -> Set<TagModel> {
        dashset_tags(self.tombstones)
    }

    /// This replica's id.
    pub closed spec fn replica(&self) -> u32 {
        self.replica
    }

    /// The counter of this replica's next dot.
    pub closed spec fn next_dot(&self) -> u128 {
        self.next
    }

    /// Whether `key` is a member.
    pub open spec fn member(&self, key: Seq<char>) -> bool {
        member_of(self.added(), self.removed(), key)
    }

    /// The member keys.
    pub open spec fn members(&self) -> Set<Seq<char>> {
        Set::new(|k: Seq<char>| self.member(k))
    }

    /// The set's invariant: the dot sets are finite, and every dot of this
    /// replica, added or tombstoned, is older than its next dot.
    pub open spec fn wf(&self) -> bool {
        &&& self.added().finite()
        &&& self.removed().finite()
        &&& forall|t: TagModel| #[trigger] self.added().contains(t) && t.1 == self.replica() ==> t.2 < self.next_dot()
        &&& forall|t: TagModel| #[trigger] self.removed().contains(t) && t.1 == self.replica() ==> t.2 < self.next_dot()
    }

    /// An empty set for replica 0.
    pub fn new() -> (r: Self)
        ensures
            r.wf(),
            r.added() == Set::<TagModel>::empty(),
            r.removed() == Set::<TagModel>::empty(),
            r.replica() == 0,
            r.next_dot() == 0,
    {
        Self::with_replica(0)
    }

    /// An empty set for replica `replica` (replicas that merge must have
    /// distinct ids, so that their dots differ).
    pub fn with_replica(replica: u32) -> (r: Self)
        ensures
            r.wf(),
            r.added() == Set::<TagModel>::empty(),
            r.removed() == Set::<TagModel>::empty(),
            r.replica() == replica,
            r.next_dot() == 0,
    {
        Aworset { replica, next: 0, elements: ds_new(), tombstones: ds_new() }
    }

    /// Add `key` under a fresh dot of this replica; it is then a member.
    pub fn add(&mut self, key: String)
        requires
            old(self).wf(),
            old(self).next_dot() <= u64::MAX,
        ensures
            final(self).wf(),
            final(self).added() == old(self).added().insert((key@, old(self).replica(), old(self).next_dot() as u64)),
            final(self).removed() == old(self).removed(),
            final(self).replica() == old(self).replica(),
            final(self).next_dot() == old(self).next_dot() + 1,
            final(self).member(key@),
    {
        let counter: u64 = self.next as u64;
        let ghost t: TagModel = (key@, self.replica, counter);
        ds_insert(&mut self.elements, (key, self.replica, counter));
        self.next = self.next + 1;
        assert(!old(self).removed().contains(t));
        assert(self.added().contains(t));
    }

    /// Remove `key`: every dot of `key` this replica has observed is
    /// tombstoned; adds it has not seen are unaffected.
    pub fn remove(&mut self, key: String)
        requires
            old(self).wf(),
        ensures
            final(self).wf(),
            final(self).added() == old(self).added(),
            final(self).removed() == observed_removal(old(self).added(), old(self).removed(), key@),
            final(self).replica() == old(self).replica(),
            final(self).next_dot() == old(self).next_dot(),
            !final(self).member(key@),
    {
        let items = ds_items(&self.elements);
        let ghost added = self.added();
        let ghost removed0 = self.removed();
        let ghost f = |t: TagModel| t.0 == key@;
        let n = items.len();
        let mut i: usize = 0;
        while i < n
            invariant
                n == items@.len(),
                i <= n,
                tag_models(items@).to_set() == added,
                self.added() == added,
                added == old(self).added(),
                removed0 == old(self).removed(),
                self.replica == old(self).replica,
                self.next == old(self).next,
                f == (|t: TagModel| t.0 == key@),
                self.removed() == removed0.union(
                    tag_models(items@.take(i as int)).to_set().filter(f),
                ),
            decreases n - i,
        {
            let ghost before = self.removed();
            let ghost m = tag_models(items@.take(i as int));
            assert(tag_models(items@.take(i + 1)) =~= m.push(tag_model(items@[i as int])));
            proof {
                m.lemma_push_to_set_commute(tag_model(items@[i as int]));
            }
            if str_eq(items[i].0.as_str(), key.as_str()) {
                let t: Tag = (items[i].0.clone(), items[i].1, items[i].2);
                ds_insert(&mut self.tombstones, t);
                assert(self.removed() =~= removed0.union(
                    tag_models(items@.take(i + 1)).to_set().filter(f),
                ));
            } else {
                assert(self.removed() =~= removed0.union(
                    tag_models(items@.take(i + 1)).to_set().filter(f),
                ));
            }
            i = i + 1;
        }
        assert(items@.take(n as int) =~= items@);
        assert(self.removed() =~= observed_removal(added, removed0, key@));
        assert(self.removed().finite()) by {
            added.lemma_len_filter(f);
        }
        assert forall|t: TagModel| #[trigger] self.added().contains(t) && t.0 == key@ implies self.removed().contains(t) by {
            assert(added.filter(f).contains(t));
        }
    }

    /// Whether `key` is a member.
    pub fn contains(&self, key: &str) -> (r: bool)
        ensures
            r == self.member(key@),
    {
        let items = ds_items(&self.elements);
        let n = items.len();
        let mut i: usize = 0;
        while i < n
            invariant
                n == items@.len(),
                i <= n,
                tag_models(items@).to_set() == self.added(),
                forall|j: int|
                    0 <= j < i ==> !(tag_model(#[trigger] items@[j]).0 == key@ && !self.removed().contains(
                        tag_model(items@[j]),
                    )),
            decreases n - i,
        {
            if str_eq(items[i].0.as_str(), key) && !ds_contains(&self.tombstones, &items[i]) {
                proof {
                    let t = tag_model(items@[i as int]);
                    assert(tag_models(items@)[i as int] == t);
                    assert(self.added().contains(t));
                }
                return true;
            }
            i = i + 1;
        }
        proof {
            assert forall|t: TagModel| #[trigger] self.added().contains(t) && !self.removed().contains(t) implies t.0
                != key@ by {
                let ms = tag_models(items@);
                assert(ms.to_set().contains(t));
                let j = choose|j: int| 0 <= j < ms.len() && ms[j] == t;
                assert(tag_model(items@[j]) == t);
            }
        }
        false
    }

    /// Number of member keys.
    pub fn len(&self) -> (r: usize)
        requires
            self.wf(),
        ensures
            r == self.members().len(),
    {
        let items = ds_items(&self.elements);
        let n = items.len();
        let mut keys: Vec<String> = Vec::new();
        let mut i: usize = 0;
        while i < n
            invariant
                n == items@.len(),
                i <= n,
                tag_models(items@).to_set() == self.added(),
                key_texts(keys@).no_duplicates(),
                forall|k: Seq<char>|
                    #[trigger] key_texts(keys@).contains(k) <==> exists|j: int|
                        0 <= j < i && tag_model(#[trigger] items@[j]).0 == k && !self.removed().contains(
                            tag_model(items@[j]),
                        ),
            decreases n - i,
        {
            let ghost kv = key_texts(keys@);
            let live = !ds_contains(&self.tombstones, &items[i]);
            if live && !has_key(&keys, items[i].0.as_str()) {
                keys.push(items[i].0.clone());
                proof {
                    let kv2 = key_texts(keys@);
                    assert(kv2 =~= kv.push(items@[i as int].0@));
                    assert forall|a: int, b: int| 0 <= a < kv2.len() && 0 <= b < kv2.len() && a != b implies kv2[a]
                        != kv2[b] by {
                        if a == kv.len() {
                            assert(kv.contains(kv[b]));
                        } else if b == kv.len() {
                            assert(kv.contains(kv[a]));
                        }
                    }
                    assert forall|k: Seq<char>|
                        #[trigger] kv2.contains(k) <==> exists|j: int|
                            0 <= j < i + 1 && tag_model(#[trigger] items@[j]).0 == k && !self.removed().contains(
                                tag_model(items@[j]),
                            ) by {
                        if kv2.contains(k) {
                            let w = choose|w: int| 0 <= w < kv2.len() && kv2[w] == k;
                            if w < kv.len() {
                                assert(kv.contains(k));
                            } else {
                                assert(tag_model(items@[i as int]).0 == k);
                            }
                        }
                        if exists|j: int|
                            0 <= j < i + 1 && tag_model(#[trigger] items@[j]).0 == k && !self.removed().contains(
                                tag_model(items@[j]),
                            ) {
                            let j = choose|j: int|
                                0 <= j < i + 1 && tag_model(#[trigger] items@[j]).0 == k && !self.removed().contains(
                                    tag_model(items@[j]),
                                );
                            if j < i {
                                assert(kv.contains(k));
                                let w = choose|w: int| 0 <= w < kv.len() && kv[w] == k;
                                assert(kv2[w] == k);
                            } else {
                                assert(kv2[kv.len() as int] == k);
                            }
                        }
                    }
                }
            } else {
                proof {
                    assert forall|k: Seq<char>|
                        #[trigger] kv.contains(k) <==> exists|j: int|
                            0 <= j < i + 1 && tag_model(#[trigger] items@[j]).0 == k && !self.removed().contains(
                                tag_model(items@[j]),
                            ) by {
                        if exists|j: int|
                            0 <= j < i + 1 && tag_model(#[trigger] items@[j]).0 == k && !self.removed().contains(
                                tag_model(items@[j]),
                            ) {
                            let j = choose|j: int|
                                0 <= j < i + 1 && tag_model(#[trigger] items@[j]).0 == k && !self.removed().contains(
                                    tag_model(items@[j]),
                                );
                            if j < i {
                                assert(exists|j2: int|
                                    0 <= j2 < i && tag_model(#[trigger] items@[j2]).0 == k && !self.removed().contains(
                                        tag_model(items@[j2]),
                                    ));
                            }
                        }
                        if kv.contains(k) {
                            let j = choose|j: int|
                                0 <= j < i && tag_model(#[trigger] items@[j]).0 == k && !self.removed().contains(
                                    tag_model(items@[j]),
                                );
                            assert(0 <= j < i + 1);
                        }
                    }
                }
            }
            i = i + 1;
        }
        proof {
            let kv = key_texts(keys@);
            let ms = tag_models(items@);
            assert forall|k: Seq<char>| #[trigger] kv.to_set().contains(k) <==> self.members().contains(k) by {
                if kv.contains(k) {
                    let j = choose|j: int|
                        0 <= j < n && tag_model(#[trigger] items@[j]).0 == k && !self.removed().contains(
                            tag_model(items@[j]),
                        );
                    assert(ms[j] == tag_model(items@[j]));
                    assert(ms.to_set().contains(tag_model(items@[j])));
                    assert(self.added().contains(tag_model(items@[j])));
                }
                if self.member(k) {
                    let t = choose|t: TagModel| #[trigger] self.added().contains(t) && !self.removed().contains(t) && t.0 == k;
                    assert(ms.to_set().contains(t));
                    let j = choose|j: int| 0 <= j < ms.len() && ms[j] == t;
                    assert(tag_model(items@[j]) == t);
                    assert(kv.contains(k));
                }
            }
            assert(kv.to_set() =~= self.members());
            kv.unique_seq_to_set();
        }
        keys.len()
    }

    /// Whether there is no member.
    pub fn is_empty(&self) -> (r: bool)
        requires
            self.wf(),
        ensures
            r == (self.members().len() == 0),
    {
        self.len() == 0
    }

    /// Merge another replica: dots and tombstones are unioned, and this
    /// replica's next dot moves past any of its own dots seen there.
    pub fn merge(&mut self, other: &Aworset)
        requires
            old(self).wf(),
            other.wf(),
        ensures
            final(self).wf(),
            final(self).added() == old(self).added().union(other.added()),
            final(self).removed() == old(self).removed().union(other.removed()),
            final(self).replica() == old(self).replica(),
            final(self).next_dot() >= old(self).next_dot(),
    {
        let es = ds_items(&other.elements);
        let n: usize = es.len();
        let mut i: usize = 0;
        while i < n
            invariant
                n == es@.len(),
                i <= n,
                tag_models(es@).to_set() == other.added(),
                self.added() == old(self).added().union(tag_models(es@.take(i as int)).to_set()),
                self.removed() == old(self).removed(),
                self.replica == old(self).replica,
                self.next >= old(self).next,
                self.added().finite(),
                self.removed().finite(),
                forall|t: TagModel| #[trigger] self.added().contains(t) && t.1 == self.replica ==> t.2 < self.next,
                forall|t: TagModel| #[trigger] self.removed().contains(t) && t.1 == self.replica ==> t.2 < self.next,
            decreases n - i,
        {
            let ghost m = tag_models(es@.take(i as int));
            let t: Tag = (es[i].0.clone(), es[i].1, es[i].2);
            if t.1 == self.replica && (t.2 as u128) >= self.next {
                self.next = (t.2 as u128) + 1;
            }
            ds_insert(&mut self.elements, t);
            assert(tag_models(es@.take(i + 1)) =~= m.push(tag_model(es@[i as int])));
            proof {
                m.lemma_push_to_set_commute(tag_model(es@[i as int]));
            }
            assert(self.added() =~= old(self).added().union(tag_models(es@.take(i + 1)).to_set()));
            i = i + 1;
        }
        assert(es@.take(n as int) =~= es@);
        let ts = ds_items(&other.tombstones);
        let m: usize = ts.len();
        let mut j: usize = 0;
        while j < m
            invariant
                m == ts@.len(),
                j <= m,
                tag_models(ts@).to_set() == other.removed(),
                self.added() == old(self).added().union(other.added()),
                self.removed() == old(self).removed().union(tag_models(ts@.take(j as int)).to_set()),
                self.replica == old(self).replica,
                self.next >= old(self).next,
                self.added().finite(),
                self.removed().finite(),
                forall|t: TagModel| #[trigger] self.added().contains(t) && t.1 == self.replica ==> t.2 < self.next,
                forall|t: TagModel| #[trigger] self.removed().contains(t) && t.1 == self.replica ==> t.2 < self.next,
            decreases m - j,
        {
            let ghost mm = tag_models(ts@.take(j as int));
            let t: Tag = (ts[j].0.clone(), ts[j].1, ts[j].2);
            if t.1 == self.replica && (t.2 as u128) >= self.next {
                self.next = (t.2 as u128) + 1;
            }
            ds_insert(&mut self.tombstones, t);
            assert(tag_models(ts@.take(j + 1)) =~= mm.push(tag_model(ts@[j as int])));
            proof {
                mm.lemma_push_to_set_commute(tag_model(ts@[j as int]));
            }
            assert(self.removed() =~= old(self).removed().union(tag_models(ts@.take(j + 1)).to_set()));
            j = j + 1;
        }
        assert(ts@.take(m as int) =~= ts@);
    }
}

/// Whether some key of `keys` has the text of `k`.
fn has_key(keys: &Vec<String>, k: &str) -> (r: bool)
    ensures
        r == key_texts(keys@).contains(k@),
{
    let n = keys.len();
    let mut i: usize = 0;
    while i < n
        invariant
            n == keys@.len(),
            i <= n,
            forall|j: int| 0 <= j < i ==> keys@[j]@ != k@,
        decreases n - i,
    {
        if str_eq(keys[i].as_str(), k) {
            assert(key_texts(keys@)[i as int] == k@);
            return true;
        }
        i = i + 1;
    }
    proof {
        let kv = key_texts(keys@);
        if kv.contains(k@) {
            let j = choose|j: int| 0 <= j < kv.len() && kv[j] == k@;
            assert(keys@[j]@ == k@);
        }
    }
    false
}

/// Add-wins law: a dot added on one replica and not tombstoned there
/// survives a merge with a replica that removed the key without having
/// observed that dot; the key stays a member.
pub proof fn lemma_add_wins(
    a_added: Set<TagModel>,
    a_removed: Set<TagModel>,
    b_added: Set<TagModel>,
    b_removed: Set<TagModel>,
    t: TagModel,
)
    requires
        a_added.contains(t),
        !a_removed.contains(t),
        !b_removed.contains(t),
    ensures
        member_of(a_added.union(b_added), a_removed.union(b_removed), t.0),
{
    assert(a_added.union(b_added).contains(t));
}

/// Observed-remove law: after a replica removes a key, the key is not a
/// member of it.
pub proof fn lemma_remove_then_absent(added: Set<TagModel>, removed: Set<TagModel>, key: Seq<char>)
    ensures
        !member_of(added, observed_removal(added, removed, key), key),
{
    assert forall|t: TagModel| #[trigger] added.contains(t) && t.0 == key implies observed_removal(
        added,
        removed,
        key,
    ).contains(t) by {
        assert(added.filter(|t: TagModel| t.0 == key).contains(t));
    }
}

/// Merge laws: merging is commutative, associative and idempotent on the
/// replicas' dot and tombstone sets.
pub proof fn lemma_merge_is_join(a: Set<TagModel>, b: Set<TagModel>, c: Set<TagModel>)
    ensures
        a.union(b) == b.union(a),
        a.union(b).union(c) == a.union(b.union(c)),
        a.union(a) == a,
{
    assert(a.union(b) =~= b.union(a));
    assert(a.union(b).union(c) =~= a.union(b.union(c)));
    assert(a.union(a) =~= a);
}

} // verus!
