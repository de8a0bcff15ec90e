//! A fixed-capacity, double-ended circular buffer stored inline.
//!
//! The buffer owns `N` slots, a `head` (next slot written by `push_back`),
//! a `tail` (next slot read by `pop_front`) and a `count` of live elements.
//! Its abstract view is the sequence of live elements, front to back.

use vstd::prelude::*;

use crate::calls::Call;

verus! {

/// Index `j` folded back into `0..n`, for `0 <= j < 2 * n`.
pub open spec fn wrap(j: int, n: int) -> int {
    if j < n {
        j
    } else {
        j - n
    }
}

/// A bounded deque of at most `N` elements; it never grows and never overwrites.
#[derive(Debug, Clone)]
pub struct RingBuffer<T: Copy, const N: usize> {
    buffer: [T; N],
    head: usize,
    tail: usize,
    count: usize,
}

impl<T: Copy, const N: usize> View for RingBuffer<T, N> {
    type V = Seq<T>;

    /// The live elements, from the front (`tail`) to the back.
    closed spec fn view(&self) -> Seq<T> {
        Seq::new(self.count as nat, |i: int| self.buffer@[wrap(self.tail + i, N as int)])
    }
}

impl<T: Copy, const N: usize> RingBuffer<T, N> {
    /// Well-formedness: pointers in range, `count` bounded by the capacity, and
    /// `head` exactly `count` slots past `tail`.
    pub closed spec fn wf(&self) -> bool {
        &&& N > 0
        &&& self.head < N
        &&& self.tail < N
        &&& self.count <= N
        &&& self.head == wrap(self.tail + self.count, N as int)
    }

    /// A well-formed buffer never holds more than its capacity.
    pub proof fn lemma_len_within_capacity(&self)
        requires
            self.wf(),
        ensures
            self@.len() <= N,
            N > 0,
    {
    }

    /// Create an empty buffer; `fill_value` only initialises the unused slots.
    pub fn new(fill_value: T) -> (r: Self)
        requires
            N > 0,
        ensures
            r.wf(),
            r@ == Seq::<T>::empty(),
    {
        let r = RingBuffer { buffer: [fill_value; N], head: 0, tail: 0, count: 0 };
        assert(r@ =~= Seq::<T>::empty());
        r
    }

    /// Number of live elements.
    pub fn len(&self) -> (r: usize)
        requires
            self.wf(),
        ensures
            r == self@.len(),
            r <= N,
    {
        self.count
    }

    /// True when no element is live.
    pub fn is_empty(&self) -> (r: bool)
        requires
            self.wf(),
        ensures
            r == (self@.len() == 0),
    {
        self.count == 0
    }

    /// True when every slot is live.
    pub fn is_full(&self) -> (r: bool)
        requires
            self.wf(),
        ensures
            r == (self@.len() == N),
    {
        self.count == N
    }

    /// The fixed number of slots.
    pub fn capacity(&self) -> (r: usize)
        ensures
            r == N,
    {
        N
    }

    /// Append `item` at the back; rejected, with nothing changed, when full.
    pub fn push_back(&mut self, item: T) -> (r: bool)
        requires
            old(self).wf(),
        ensures
            final(self).wf(),
            r == (old(self)@.len() < N),
            r ==> final(self)@ == old(self)@.push(item),
            !r ==> *final(self) == *old(self),
            final(self)@ == Call::PushBack(item).apply(old(self)@, N as nat),
    {
        if self.is_full() {
            return false;
        }
        let ghost before = self@;
        self.buffer[self.head] = item;
        self.head = if self.head + 1 == N { 0 } else { self.head + 1 };
        self.count = self.count + 1;
        assert(self@ =~= before.push(item));
        true
    }

    /// Remove and return the front element; `None`, with nothing changed, when empty.
    pub fn pop_front(&mut self) -> (r: Option<T>)
        requires
            old(self).wf(),
        ensures
            final(self).wf(),
            old(self)@.len() == 0 ==> r is None && *final(self) == *old(self),
            old(self)@.len() > 0 ==> r == Some(old(self)@[0]) && final(self)@ == old(
                self,
            )@.drop_first(),
            final(self)@ == Call::<T>::PopFront.apply(old(self)@, N as nat),
            r == Call::<T>::PopFront.output(old(self)@),
    {
        if self.is_empty() {
            return None;
        }
        let ghost before = self@;
        let item = self.buffer[self.tail];
        self.tail = if self.tail + 1 == N { 0 } else { self.tail + 1 };
        self.count = self.count - 1;
        assert(self@ =~= before.drop_first());
        Some(item)
    }

    /// Prepend `item` at the front; rejected, with nothing changed, when full.
    pub fn push_front(&mut self, item: T) -> (r: bool)
        requires
            old(self).wf(),
        ensures
            final(self).wf(),
            r == (old(self)@.len() < N),
            r ==> final(self)@ == seq![item] + old(self)@,
            !r ==> *final(self) == *old(self),
            final(self)@ == Call::PushFront(item).apply(old(self)@, N as nat),
    {
        if self.is_full() {
            return false;
        }
        let ghost before = self@;
        self.tail = if self.tail == 0 { N - 1 } else { self.tail - 1 };
        self.buffer[self.tail] = item;
        self.count = self.count + 1;
        assert(self@ =~= seq![item] + before);
        true
    }

    /// Remove and return the back element; `None`, with nothing changed, when empty.
    pub fn pop_back(&mut self) -> (r: Option<T>)
        requires
            old(self).wf(),
        ensures
            final(self).wf(),
            old(self)@.len() == 0 ==> r is None && *final(self) == *old(self),
            old(self)@.len() > 0 ==> r == Some(old(self)@.last()) && final(self)@ == old(
                self,
            )@.drop_last(),
            final(self)@ == Call::<T>::PopBack.apply(old(self)@, N as nat),
            r == Call::<T>::PopBack.output(old(self)@),
    {
        if self.is_empty() {
            return None;
        }
        let ghost before = self@;
        self.head = if self.head == 0 { N - 1 } else { self.head - 1 };
        let item = self.buffer[self.head];
        self.count = self.count - 1;
        assert(self@ =~= before.drop_last());
        Some(item)
    }

    /// Push `items` to the back in order, stopping at the first rejection.
    /// Returns how many were inserted; those stay even when some were not.
    pub fn push_back_multiple(&mut self, items: &[T]) -> (r: usize)
        requires
            old(self).wf(),
        ensures
            final(self).wf(),
            r == accepted_count(old(self)@.len(), items@.len(), N as nat),
            final(self)@ == old(self)@ + items@.take(r as int),
    {
        let ghost start = self@;
        let mut added: usize = 0;
        while added < items.len()
            invariant
                self.wf(),
                added <= items@.len(),
                start.len() + added <= N,
                self@ == start + items@.take(added as int),
            ensures
                self.wf(),
                added == accepted_count(start.len(), items@.len(), N as nat),
                self@ == start + items@.take(added as int),
            decreases items@.len() - added,
        {
            if !self.push_back(items[added]) {
                break;
            }
            assert(items@.take(added + 1) =~= items@.take(added as int).push(items@[added as int]));
            added = added + 1;
        }
        added
    }

    /// Push `items` to the front so that, when all fit, `items[0]` is the new
    /// front and their order is kept. They go in from the last one backwards,
    /// stopping at the first rejection; returns how many were inserted.
    pub fn push_front_multiple(&mut self, items: &[T]) -> (r: usize)
        requires
            old(self).wf(),
        ensures
            final(self).wf(),
            r == accepted_count(old(self)@.len(), items@.len(), N as nat),
            final(self)@ == items@.skip(items@.len() - r) + old(self)@,
    {
        let ghost start = self@;
        let n = items.len();
        let mut added: usize = 0;
        while added < n
            invariant
                self.wf(),
                n == items@.len(),
                added <= n,
                start.len() + added <= N,
                self@ == items@.skip(n - added) + start,
            ensures
                self.wf(),
                added == accepted_count(start.len(), n as nat, N as nat),
                self@ == items@.skip(n - added) + start,
            decreases n - added,
        {
            if !self.push_front(items[n - 1 - added]) {
                break;
            }
            assert(items@.skip(n - (added + 1)) =~= seq![items@[n - 1 - added]] + items@.skip(
                n - added,
            ));
            added = added + 1;
        }
        added
    }

    /// The element `pop_front` would return, without removing it.
    pub fn front(&self) -> (r: Option<T>)
        requires
            self.wf(),
        ensures
            self@.len() == 0 ==> r is None,
            self@.len() > 0 ==> r == Some(self@[0]),
    {
        if self.is_empty() {
            None
        } else {
            Some(self.buffer[self.tail])
        }
    }

    /// The element `pop_back` would return, without removing it.
    pub fn back(&self) -> (r: Option<T>)
        requires
            self.wf(),
        ensures
            self@.len() == 0 ==> r is None,
            self@.len() > 0 ==> r == Some(self@.last()),
    {
        if self.is_empty() {
            None
        } else {
            let back_idx = if self.head == 0 { N - 1 } else { self.head - 1 };
            Some(self.buffer[back_idx])
        }
    }

    /// Drop every element in constant time; the slots keep stale values.
    pub fn clear(&mut self)
        requires
            old(self).wf(),
        ensures
            final(self).wf(),
            final(self)@ == Seq::<T>::empty(),
    {
        self.head = 0;
        self.tail = 0;
        self.count = 0;
        assert(self@ =~= Seq::<T>::empty());
    }

    /// A read-only walk over the live elements, front to back.
    pub fn iter(&self) -> (it: RingBufferIter<'_, T, N>)
        requires
            self.wf(),
        ensures
            it.wf(),
            it@ == self@,
    {
        RingBufferIter { buffer: self, current: self.tail, remaining: self.count }
    }
}

/// How many of `k` pushes succeed on a buffer holding `len` of `cap` slots.
pub open spec fn accepted_count(len: nat, k: nat, cap: nat) -> nat {
    if len + k <= cap {
        k
    } else if len <= cap {
        (cap - len) as nat
    } else {
        0
    }
}

/// Walks a buffer's live elements front to back, as they were when it was made.
pub struct RingBufferIter<'a, T: Copy, const N: usize> {
    buffer: &'a RingBuffer<T, N>,
    current: usize,
    remaining: usize,
}

impl<'a, T: Copy, const N: usize> View for RingBufferIter<'a, T, N> {
    type V = Seq<T>;

    /// The elements not yet handed out, in order.
    closed spec fn view(&self) -> Seq<T> {
        Seq::new(
            self.remaining as nat,
            |i: int| self.buffer.buffer@[wrap(self.current + i, N as int)],
        )
    }
}

impl<'a, T: Copy, const N: usize> RingBufferIter<'a, T, N> {
    /// The walk stays inside the buffer's slots.
    pub closed spec fn wf(&self) -> bool {
        &&& self.buffer.wf()
        &&& self.current < N
        &&& self.remaining <= N
    }

    /// Hand out the next element, or `None` once all have been.
    pub fn next(&mut self) -> (r: Option<T>)
        requires
            old(self).wf(),
        ensures
            final(self).wf(),
            old(self)@.len() == 0 ==> r is None && final(self)@ == old(self)@,
            old(self)@.len() > 0 ==> r == Some(old(self)@[0]) && final(self)@ == old(
                self,
            )@.drop_first(),
    {
        if self.remaining == 0 {
            return None;
        }
        let ghost before = self@;
        let item = self.buffer.buffer[self.current];
        self.current = if self.current + 1 == N { 0 } else { self.current + 1 };
        self.remaining = self.remaining - 1;
        assert(self@ =~= before.drop_first());
        Some(item)
    }

    /// Number of elements still to come.
    pub fn len(&self) -> (r: usize)
        requires
            self.wf(),
        ensures
            r == self@.len(),
    {
        self.remaining
    }

    /// Exact bounds on the elements still to come: `(n, Some(n))`.
    pub fn size_hint(&self) -> (r: (usize, Option<usize>))
        requires
            self.wf(),
        ensures
            r.0 == self@.len(),
            r.1 == Some(self@.len() as usize),
    {
        (self.remaining, Some(self.remaining))
    }
}

} // verus!
