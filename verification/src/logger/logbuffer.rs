//! A bounded buffer of bytes that keeps the newest ones.

use std::collections::VecDeque;
use vstd::prelude::*;

verus! {

/// Capacity of a buffer made by [`LogBuffer::new`].
pub const DEFAULT_LOG_CAPACITY: usize = 2048;

/// What a buffer that holds `held`, made with capacity `cap`, holds after
/// `bytes` are pushed: the newest `cap` of the bytes held and pushed.
pub open spec fn pushed_bytes(held: Seq<u8>, cap: nat, bytes: Seq<u8>) -> Seq<u8> {
    let all = held + bytes;
    if all.len() > cap {
        all.skip(all.len() - cap)
    } else {
        all
    }
}

/// `VecDeque::as_slices`: two slices that hold, one after the other, what
/// the deque holds.
#[verifier::external_body]
fn deque_as_slices(deque: &VecDeque<u8>) -> (r: (&[u8], &[u8]))
    ensures
        r.0@ + r.1@ == deque@,
{
    deque.as_slices()
}

/// A buffer of bytes that keeps the newest ones up to its capacity.
pub struct LogBuffer {
    deque: VecDeque<u8>,
    max_capacity: usize,
}

impl View for LogBuffer {
    type V = Seq<u8>;

    /// The buffered bytes, oldest first.
    closed spec fn view(&self) -> Seq<u8> {
        self.deque@
    }
}

impl LogBuffer {
    /// The capacity the buffer was made with.
    pub closed spec fn capacity(&self) -> nat {
        self.max_capacity as nat
    }

    /// The buffer holds no more bytes than its capacity.
    pub open spec fn wf(&self) -> bool {
        self@.len() <= self.capacity()
    }

    /// An empty buffer of the default capacity.
    pub fn new() -> (r: Self)
        ensures
            r@ == Seq::<u8>::empty(),
            r.capacity() == DEFAULT_LOG_CAPACITY,
            r.wf(),
    {
        LogBuffer { deque: VecDeque::new(), max_capacity: DEFAULT_LOG_CAPACITY }
    }

    /// An empty buffer of the given capacity.
    pub fn with_max_capacity(max_capacity: usize) -> (r: Self)
        ensures
            r@ == Seq::<u8>::empty(),
            r.capacity() == max_capacity,
            r.wf(),
    {
        LogBuffer { deque: VecDeque::new(), max_capacity }
    }

    /// Adds `bytes` at the end; the oldest bytes leave where the capacity is exceeded.
    pub fn push(&mut self, bytes: &[u8])
        requires
            old(self).wf(),
        ensures
            final(self).wf(),
            final(self)@ == pushed_bytes(old(self)@, old(self).capacity(), bytes@),
            final(self).capacity() == old(self).capacity(),
    {
        let ghost held = self.deque@;
        let cap = self.max_capacity;
        let len = bytes.len();
        let start: usize = if len > cap {
            len - cap
        } else {
            0
        };
        let kept = len - start;
        let to_remove: usize = if self.deque.len() > cap - kept {
            self.deque.len() - (cap - kept)
        } else {
            0
        };
        let mut removed: usize = 0;
        while removed < to_remove
            invariant
                removed <= to_remove,
                to_remove <= held.len(),
                self.deque@ == held.skip(removed as int),
                self.max_capacity == cap,
            decreases to_remove - removed,
        {
            let _ = self.deque.pop_front();
            proof {
                assert(held.skip(removed as int).drop_first() =~= held.skip(removed + 1));
            }
            removed += 1;
        }
        let ghost base = self.deque@;
        let mut i: usize = start;
        while i < len
            invariant
                start <= i <= len,
                len == bytes@.len(),
                self.deque@ == base + bytes@.subrange(start as int, i as int),
                self.max_capacity == cap,
            decreases len - i,
        {
            self.deque.push_back(bytes[i]);
            proof {
                assert(bytes@.subrange(start as int, i + 1) =~= bytes@.subrange(start as int, i as int).push(bytes@[i as int]));
                assert((base + bytes@.subrange(start as int, i as int)).push(bytes@[i as int])
                    =~= base + bytes@.subrange(start as int, i + 1));
            }
            i += 1;
        }
        proof {
            let all = held + bytes@;
            assert(self.deque@ =~= held.skip(to_remove as int) + bytes@.subrange(start as int, len as int));
            if all.len() > cap {
                assert(self.deque@ =~= all.skip(all.len() - cap));
            } else {
                assert(self.deque@ =~= all);
            }
        }
    }

    /// The buffered bytes, oldest first, in two pieces that follow each other.
    pub fn contents(&self) -> (r: (&[u8], &[u8]))
        ensures
            r.0@ + r.1@ == self@,
    {
        deque_as_slices(&self.deque)
    }
}

} // verus!
