//! A bounded first-in first-out buffer that drops its oldest element when full.

use std::collections::vec_deque::Iter;
use std::collections::VecDeque;
use vstd::prelude::*;
use vstd::std_specs::iter::IteratorSpec;

verus! {

/// Capacity of a buffer made by [`RingBuffer::new`].
pub const DEFAULT_MAX_CAPACITY: usize = 1024;

/// What a buffer holding `s`, made with capacity `cap`, holds after `x` is pushed.
///
/// A full buffer gives up its oldest element first. An empty buffer has nothing
/// to give up, so a buffer of capacity zero simply grows.
pub open spec fn pushed<T>(s: Seq<T>, cap: nat, x: T) -> Seq<T> {
    if s.len() == cap && s.len() > 0 {
        s.drop_first().push(x)
    } else {
        s.push(x)
    }
}

/// A buffer that keeps the newest elements up to its capacity.
pub struct RingBuffer<T> {
    data: VecDeque<T>,
    max_capacity: usize,
}

impl<T> View for RingBuffer<T> {
    type V = Seq<T>;

    /// The buffered elements, oldest first.
    closed spec fn view(&self) -> Seq<T> {
        self.data@
    }
}

impl<T> RingBuffer<T> {
    /// The capacity the buffer was made with.
    pub closed spec fn capacity(&self) -> nat {
        self.max_capacity as nat
    }

    /// A buffer within its bound. Every buffer of nonzero capacity stays so.
    pub open spec fn bounded(&self) -> bool {
        self@.len() <= self.capacity()
    }

    /// An empty buffer of the default capacity.
    pub fn new() -> (r: Self)
        ensures
            r@ == Seq::<T>::empty(),
            r.capacity() == DEFAULT_MAX_CAPACITY,
    {
        RingBuffer { data: VecDeque::new(), max_capacity: DEFAULT_MAX_CAPACITY }
    }

    /// An empty buffer of the given capacity.
    pub fn with_max_capacity(max_capacity: usize) -> (r: Self)
        ensures
            r@ == Seq::<T>::empty(),
            r.capacity() == max_capacity,
    {
        RingBuffer { data: VecDeque::new(), max_capacity }
    }

    /// The capacity the buffer was made with.
    pub fn max_capacity(&self) -> (r: usize)
        ensures
            r == self.capacity(),
    {
        self.max_capacity
    }

    /// Adds `log` as the newest element; the oldest element leaves a full buffer.
    pub fn push(&mut self, log: T)
        ensures
            final(self)@ == pushed(old(self)@, old(self).capacity(), log),
            final(self).capacity() == old(self).capacity(),
            old(self).bounded() && old(self).capacity() > 0 ==> final(self).bounded(),
    {
        if self.data.len() == self.max_capacity {
            let _ = self.data.pop_front();
        }
        self.data.push_back(log);
    }

    /// Walks the buffered elements, oldest first.
    pub fn iter(&self) -> (it: Iter<'_, T>)
        ensures
            IteratorSpec::remaining(&it) == self@.as_ref(),
            IteratorSpec::decrease(&it) is Some,
            IteratorSpec::initial_value_relation(&it, &it),
    {
        broadcast use vstd::std_specs::vecdeque::group_vec_dequeue_axioms;
        self.data.iter()
    }

    /// Walks the buffered elements, oldest first.
    pub fn lines(&self) -> (it: Iter<'_, T>)
        ensures
            IteratorSpec::remaining(&it) == self@.as_ref(),
            IteratorSpec::decrease(&it) is Some,
            IteratorSpec::initial_value_relation(&it, &it),
    {
        self.iter()
    }

    /// Empties the buffer.
    pub fn clear(&mut self)
        ensures
            final(self)@ == Seq::<T>::empty(),
            final(self).capacity() == old(self).capacity(),
    {
        self.data.clear();
    }

    /// The number of elements in the buffer.
    pub fn len(&self) -> (n: usize)
        ensures
            n == self@.len(),
    {
        self.data.len()
    }

    /// The element at position `i`, counted from the oldest.
    pub fn get(&self, i: usize) -> (r: &T)
        requires
            i < self@.len(),
        ensures
            *r == self@[i as int],
    {
        &self.data[i]
    }

    /// The newest `n` elements, oldest first; all of them when fewer are held.
    pub fn tail(&self, n: usize) -> (r: Vec<&T>)
        ensures
            r@.len() == if n <= self@.len() { n as nat } else { self@.len() },
            forall|i: int| 0 <= i < r@.len() ==> *(#[trigger] r@[i]) == self@[self@.len() - r@.len() + i],
    {
        let len = self.data.len();
        let start: usize = if n <= len { len - n } else { 0 };
        let mut out: Vec<&T> = Vec::new();
        let mut i: usize = start;
        while i < len
            invariant
                start <= i <= len,
                len == self.data@.len(),
                out@.len() == i - start,
                forall|j: int| 0 <= j < out@.len() ==> *(#[trigger] out@[j]) == self.data@[start + j],
            decreases len - i,
        {
            out.push(&self.data[i]);
            i += 1;
        }
        out
    }
}

/// A buffer of nonzero capacity that is within its bound holds, after a push,
/// at most as many elements as its capacity, and the pushed element is its newest.
pub proof fn lemma_push_keeps_bound<T>(s: Seq<T>, cap: nat, x: T)
    requires
        cap > 0,
        s.len() <= cap,
    ensures
        pushed(s, cap, x).len() <= cap,
        pushed(s, cap, x).last() == x,
        pushed(s, cap, x).len() == if s.len() == cap { cap } else { s.len() + 1 },
{
}

} // verus!
