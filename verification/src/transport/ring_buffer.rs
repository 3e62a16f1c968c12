//! Bounded queue of events.

use vstd::prelude::*;

verus! {

/// Bounded queue: what is pushed first is popped first.
#[derive(Debug)]
pub struct RingBuffer<T> {
    /// Waiting items, oldest first.
    pub items: Vec<T>,
    /// Largest number of waiting items.
    pub capacity: usize,
}

impl<T> RingBuffer<T> {
    /// No more items wait than there is room for.
    pub open spec fn wf(&self) -> bool {
        self.items@.len() <= self.capacity
    }

    /// Places that are free.
    pub open spec fn room(&self) -> nat {
        (self.capacity - self.items@.len()) as nat
    }

    /// Empty queue.
    pub fn new(capacity: usize) -> (r: Self)
        ensures
            r.wf(),
            r.items@ == Seq::<T>::empty(),
            r.capacity == capacity,
    {
        RingBuffer { items: Vec::new(), capacity }
    }

    /// Add an item. Gives it back if the queue is full.
    pub fn push(&mut self, item: T) -> (r: Result<(), T>)
        requires
            old(self).wf(),
        ensures
            final(self).wf(),
            final(self).capacity == old(self).capacity,
            old(self).room() > 0 ==> r == Ok::<(), T>(()) && final(self).items@ == old(self).items@.push(item),
            old(self).room() == 0 ==> r == Err::<(), T>(item) && *final(self) == *old(self),
    {
        if self.items.len() >= self.capacity {
            return Err(item);
        }
        self.items.push(item);
        Ok(())
    }

    /// Take the oldest item.
    pub fn pop(&mut self) -> (r: Option<T>)
        requires
            old(self).wf(),
        ensures
            final(self).wf(),
            final(self).capacity == old(self).capacity,
            old(self).items@.len() == 0 ==> r is None && *final(self) == *old(self),
            old(self).items@.len() > 0 ==> r == Some(old(self).items@[0]) && final(self).items@
                == old(self).items@.drop_first(),
    {
        if self.items.len() == 0 {
            return None;
        }
        Some(self.items.remove(0))
    }
}

} // verus!
