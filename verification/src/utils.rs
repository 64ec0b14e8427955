//! Utilities

use std::collections::vec_deque::Iter;
use std::collections::VecDeque;
use vstd::prelude::*;
use vstd::std_specs::iter::IteratorSpec;

verus! {

/// The contents of a bounded first-in-first-out buffer after `item` is
/// appended to contents `s`: a full buffer loses its oldest item first,
/// and a buffer of capacity zero stays empty.
pub open spec fn fifo_push<T>(s: Seq<T>, capacity: nat, item: T) -> Seq<T> {
    if capacity == 0 {
        s
    } else if s.len() < capacity {
        s.push(item)
    } else {
        s.drop_first().push(item)
    }
}

/// The contents after appending every item of `items` in order.
pub open spec fn fifo_extend<T>(s: Seq<T>, capacity: nat, items: Seq<T>) -> Seq<T>
    decreases items.len(),
{
    if items.len() == 0 {
        s
    } else {
        fifo_push(fifo_extend(s, capacity, items.drop_last()), capacity, items.last())
    }
}

/// The last `n` items of `items`, or all of them where there are fewer.
pub open spec fn most_recent<T>(items: Seq<T>, n: nat) -> Seq<T> {
    if items.len() <= n {
        items
    } else {
        items.subrange(items.len() - n, items.len() as int)
    }
}

/// A buffer that was within its capacity holds, after any sequence of
/// appends, the most recent items up to its capacity, oldest first: what
/// it held before counts as the oldest. At capacity zero it holds what it
/// held before, which is nothing.
pub proof fn lemma_fifo_holds_most_recent<T>(s: Seq<T>, capacity: nat, items: Seq<T>)
    requires
        s.len() <= capacity,
    ensures
        fifo_extend(s, capacity, items) == if capacity == 0 {
            s
        } else {
            most_recent(s + items, capacity)
        },
        fifo_extend(s, capacity, items).len() <= capacity,
    decreases items.len(),
{
    if items.len() == 0 {
        assert(s + items =~= s);
    } else {
        let earlier = items.drop_last();
        lemma_fifo_holds_most_recent(s, capacity, earlier);
        let before = fifo_extend(s, capacity, earlier);
        let after = fifo_push(before, capacity, items.last());
        assert((s + earlier).push(items.last()) =~= s + items);
        if capacity > 0 {
            assert(after =~= most_recent(s + items, capacity));
        }
    }
}

/// An item that is appended to a buffer stays in it while fewer other
/// items than the buffer's capacity have been appended after it, and is
/// gone once as many have been.
pub proof fn lemma_appended_item_stays_until_evicted<T>(
    s: Seq<T>,
    capacity: nat,
    item: T,
    others: Seq<T>,
)
    requires
        s.len() <= capacity,
        capacity > 0,
        forall|i: int| 0 <= i < others.len() ==> others[i] != item,
    ensures
        fifo_extend(fifo_push(s, capacity, item), capacity, others).contains(item)
            <==> others.len() < capacity,
{
    let first = fifo_push(s, capacity, item);
    lemma_fifo_holds_most_recent(first, capacity, others);
    let all = first + others;
    let held = fifo_extend(first, capacity, others);
    assert(held == most_recent(all, capacity));
    assert(first.len() >= 1 && first.last() == item);
    if others.len() < capacity {
        let place = first.len() - 1;
        assert(all[place] == item);
        if all.len() <= capacity {
            assert(held[place] == item);
        } else {
            assert(held[place - (all.len() - capacity)] == item);
        }
    } else {
        assert forall|i: int| 0 <= i < held.len() implies held[i] != item by {
            assert(held[i] == others[i + others.len() - capacity]);
        }
    }
}

/// Exchanges two entries of a vector, by the slice method `swap` of std,
/// which panics on a place outside the slice and else leaves each of the
/// two entries in the other's place.
#[verifier::external_body]
pub(crate) fn swap_entries<T>(entries: &mut Vec<T>, a: usize, b: usize)
    requires
        a < old(entries)@.len(),
        b < old(entries)@.len(),
    ensures
        final(entries)@ == old(entries)@.update(a as int, old(entries)@[b as int]).update(
            b as int,
            old(entries)@[a as int],
        ),
{
    entries.swap(a, b);
}

/// RingBuffer to be used to implement a Tabu List
#[derive(Debug, Clone)]
pub struct RingBuffer<T> {
    capacity: usize,
    buff: VecDeque<T>,
}

impl<T> View for RingBuffer<T> {
    type V = Seq<T>;

    /// The buffered items, oldest first.
    closed spec fn view(&self) -> Seq<T> {
        self.buff@
    }
}

impl<T> RingBuffer<T> {
    /// Largest number of items the buffer holds.
    pub closed spec fn capacity(&self) -> nat {
        self.capacity as nat
    }

    /// The buffer is within its capacity.
    pub closed spec fn wf(&self) -> bool {
        self.buff@.len() <= self.capacity
    }

    /// A buffer in order holds no more items than its capacity.
    pub proof fn lemma_within_capacity(&self)
        requires
            self.wf(),
        ensures
            self@.len() <= self.capacity(),
    {
    }

    /// Constructor of RingBuffer
    pub fn new(capacity: usize) -> (buffer: Self)
        ensures
            buffer.wf(),
            buffer@ == Seq::<T>::empty(),
            buffer.capacity() == capacity,
    {
        Self { capacity, buff: VecDeque::new() }
    }

    /// Append a new item to the buffer
    pub fn append(&mut self, item: T)
        requires
            old(self).wf(),
        ensures
            final(self).wf(),
            final(self).capacity() == old(self).capacity(),
            final(self)@ == fifo_push(old(self)@, old(self).capacity(), item),
    {
        broadcast use vstd::std_specs::vecdeque::group_vec_dequeue_axioms;

        if self.capacity == 0 {
            return ;
        }
        if self.buff.len() == self.capacity {
            let _ = self.buff.pop_front();
            assert(self.buff@ =~= old(self).buff@.drop_first());
        }
        self.buff.push_back(item);
    }

    /// Convert to an iterator
    pub fn iter(&self) -> (items: Iter<'_, T>)
        ensures
            items.remaining() == self@.as_ref(),
            IteratorSpec::decrease(&items) is Some,
            IteratorSpec::initial_value_relation(&items, &items),
    {
        broadcast use vstd::std_specs::vecdeque::group_vec_dequeue_axioms;

        self.buff.iter()
    }
}

} // verus!
