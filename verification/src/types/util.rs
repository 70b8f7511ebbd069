//! A FIFO queue that drops its oldest element when full.

use vstd::prelude::*;
use std::collections::VecDeque;
use std::collections::vec_deque::Iter;
use vstd::std_specs::iter::IteratorSpec;

verus! {

broadcast use vstd::std_specs::vecdeque::group_vec_dequeue_axioms;

/// A queue holding at most `cap` elements once it has reached `cap`: pushing
/// into a full queue drops the front (oldest) element first.
#[derive(Debug)]
pub struct BoundedVecDeque<T> {
    pub cap: usize,
    inner: VecDeque<T>,
}

/// The queue after pushing `item` into `q` with capacity `cap`.
pub open spec fn bounded_push<T>(q: Seq<T>, cap: usize, item: T) -> Seq<T> {
    if q.len() == cap && q.len() > 0 {
        q.drop_first().push(item)
    } else {
        q.push(item)
    }
}

impl<T> View for BoundedVecDeque<T> {
    type V = Seq<T>;

    closed spec fn view(&self) -> Seq<T> {
        self.inner@
    }
}

impl<T> BoundedVecDeque<T> {
    /// The configured capacity.
    pub closed spec fn cap_spec(&self) -> usize {
        self.cap
    }

    /// An empty queue with capacity `cap`.
    pub fn new(cap: usize) -> (r: Self)
        ensures
            r@ == Seq::<T>::empty(),
            r.cap_spec() == cap,
    {
        BoundedVecDeque { cap, inner: VecDeque::with_capacity(cap) }
    }

    /// The capacity.
    pub fn capacity(&self) -> (r: usize)
        ensures
            r == self.cap_spec(),
    {
        self.cap
    }

    /// Append `item`, dropping the oldest element when the queue is full.
    pub fn push(&mut self, item: T)
        ensures
            final(self)@ == bounded_push(old(self)@, old(self).cap_spec(), item),
            final(self).cap_spec() == old(self).cap_spec(),
    {
        if self.inner.len() == self.cap {
            let _ = self.inner.pop_front();
        }
        self.inner.push_back(item);
    }

    /// Number of elements.
    pub fn len(&self) -> (r: usize)
        ensures
            r == self@.len(),
    {
        self.inner.len()
    }

    /// Whether the queue is empty.
    pub fn is_empty(&self) -> (r: bool)
        ensures
            r == (self@.len() == 0),
    {
        self.inner.len() == 0
    }

    /// The element at position `i`, counting from the oldest.
    pub(crate) fn get(&self, i: usize) -> (r: &T)
        requires
            i < self@.len(),
        ensures
            *r == self@[i as int],
    {
        &self.inner[i]
    }

    /// Iterate from the oldest to the newest element.
    pub fn iter(&self) -> (it: Iter<'_, T>)
        ensures
            it.remaining() == self@.as_ref(),
    {
        self.inner.iter()
    }
}

/// Once a queue of capacity at least one is no longer than its capacity,
/// it stays so whatever is pushed.
pub proof fn lemma_bounded_push_within_cap<T>(q: Seq<T>, cap: usize, item: T)
    requires
        cap >= 1,
        q.len() <= cap,
    ensures
        bounded_push(q, cap, item).len() <= cap,
        bounded_push(q, cap, item).last() == item,
{
}

/// The queue after pushing `items`, in order, into an empty queue of
/// capacity `cap`.
pub open spec fn bounded_pushes<T>(cap: usize, items: Seq<T>) -> Seq<T>
    decreases items.len(),
{
    if items.len() == 0 {
        Seq::empty()
    } else {
        bounded_push(bounded_pushes(cap, items.drop_last()), cap, items.last())
    }
}

/// Sequence law: pushing `k` items into an empty queue of capacity at least
/// one keeps the last `min(k, cap)` of them, oldest first.
pub proof fn lemma_bounded_pushes_keep_last<T>(cap: usize, items: Seq<T>)
    requires
        cap >= 1,
    ensures
        bounded_pushes(cap, items) == items.subrange(
            if items.len() > cap { items.len() - cap } else { 0 },
            items.len() as int,
        ),
    decreases items.len(),
{
    if items.len() > 0 {
        let pre = items.drop_last();
        lemma_bounded_pushes_keep_last(cap, pre);
        let q = bounded_pushes(cap, pre);
        let lo = if pre.len() > cap { pre.len() - cap } else { 0 };
        let lo2 = if items.len() > cap { items.len() - cap } else { 0 };
        if q.len() == cap && q.len() > 0 {
            assert(q.drop_first().push(items.last()) =~= items.subrange(lo2, items.len() as int));
        } else {
            assert(q.push(items.last()) =~= items.subrange(lo2, items.len() as int));
        }
    }
}

} // verus!
