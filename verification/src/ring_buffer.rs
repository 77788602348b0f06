//! A bounded first-in, first-out buffer that forgets its oldest item when a
//! new one arrives and no room is left.

use std::collections::VecDeque;
use vstd::prelude::*;

verus! {

/// The `limit` most recent items of `s`, oldest first; all of `s` when it
/// holds no more than `limit`.
pub open spec fn newest<T>(s: Seq<T>, limit: nat) -> Seq<T> {
    if s.len() <= limit {
        s
    } else {
        s.subrange(s.len() - limit, s.len() as int)
    }
}

/// A queue that keeps at most `limit()` items. Its view is the sequence of
/// the items it holds, oldest first.
#[derive(Debug)]
pub struct RingBuffer<T> {
    inner: VecDeque<T>,
    capacity: usize,
}

impl<T> View for RingBuffer<T> {
    type V = Seq<T>;

    closed spec fn view(&self) -> Seq<T> {
        self.inner@
    }
}

impl<T> RingBuffer<T> {
    /// The largest number of items the buffer keeps.
    pub closed spec fn limit(&self) -> nat {
        self.capacity as nat
    }

    /// The buffer never holds more than its limit.
    pub open spec fn wf(&self) -> bool {
        self@.len() <= self.limit()
    }

    /// An empty buffer that keeps the `capacity` most recent items.
    pub fn new(capacity: usize) -> (buffer: Self)
        ensures
            buffer.wf(),
            buffer@ == Seq::<T>::empty(),
            buffer.limit() == capacity,
    {
        Self { inner: VecDeque::new(), capacity }
    }

    /// Appends `item`; when the buffer is full the oldest item is dropped
    /// to make room, so the buffer ends up holding the newest `limit()`
    /// items of everything pushed so far.
    pub fn push(&mut self, item: T)
        requires
            old(self).wf(),
        ensures
            final(self)@ == newest(old(self)@.push(item), old(self).limit()),
            final(self).limit() == old(self).limit(),
            final(self).wf(),
    {
        if self.capacity == 0 {
            return ;
        }
        if self.inner.len() == self.capacity {
            self.inner.pop_front();
        }
        self.inner.push_back(item);
    }

    /// Removes and returns the oldest item, or `None` when the buffer is
    /// empty.
    pub fn pop(&mut self) -> (item: Option<T>)
        requires
            old(self).wf(),
        ensures
            old(self)@.len() == 0 ==> item.is_none() && final(self)@ == old(self)@,
            old(self)@.len() > 0 ==> item == Some(old(self)@[0]) && final(self)@ == old(
                self,
            )@.drop_first(),
            final(self).limit() == old(self).limit(),
            final(self).wf(),
    {
        self.inner.pop_front()
    }

    /// Draining iteration step: the same as `pop`.
    pub fn next(&mut self) -> (item: Option<T>)
        requires
            old(self).wf(),
        ensures
            old(self)@.len() == 0 ==> item.is_none() && final(self)@ == old(self)@,
            old(self)@.len() > 0 ==> item == Some(old(self)@[0]) && final(self)@ == old(
                self,
            )@.drop_first(),
            final(self).limit() == old(self).limit(),
            final(self).wf(),
    {
        self.pop()
    }

    /// Number of items currently held.
    pub fn len(&self) -> (n: usize)
        ensures
            n == self@.len(),
    {
        self.inner.len()
    }
}

/// The contents of a buffer of limit `limit` that held `s` and then took
/// in `items`, first to last.
pub open spec fn after_pushes<T>(s: Seq<T>, items: Seq<T>, limit: nat) -> Seq<T>
    decreases items.len(),
{
    if items.len() == 0 {
        s
    } else {
        newest(after_pushes(s, items.drop_last(), limit).push(items.last()), limit)
    }
}

/// Pushing onto a buffer that already forgot old items gives the same
/// contents as keeping everything and trimming once at the end.
pub proof fn lemma_newest_push<T>(s: Seq<T>, item: T, limit: nat)
    ensures
        newest(newest(s, limit).push(item), limit) == newest(s.push(item), limit),
{
    assert(newest(newest(s, limit).push(item), limit) =~= newest(s.push(item), limit));
}

/// A buffer that started empty holds the newest `limit` of all the items
/// it was given, however many that were.
pub proof fn lemma_buffer_holds_newest<T>(items: Seq<T>, limit: nat)
    ensures
        after_pushes(Seq::<T>::empty(), items, limit) == newest(items, limit),
    decreases items.len(),
{
    if items.len() == 0 {
        assert(newest(items, limit) =~= Seq::<T>::empty());
    } else {
        lemma_buffer_holds_newest(items.drop_last(), limit);
        lemma_newest_push(items.drop_last(), items.last(), limit);
        assert(items.drop_last().push(items.last()) =~= items);
    }
}

} // verus!
