//! The message queue between the connections and the embedding caller:
//! a first-in, first-out queue of tagged messages.
//!
//! The blocking, the lock and the condition variable that the running
//! server puts around this queue live outside the library; the queue
//! itself is the verified order-keeping core, where an empty pop reports
//! that the caller would block.
use vstd::prelude::*;

verus! {

/// A FIFO queue of messages.
pub struct MessagesQueue<T> {
    /// The queued messages, oldest first.
    pub queue: Vec<T>,
    /// The capacity the queue was created with.
    pub capacity: usize,
}

impl<T> MessagesQueue<T> {
    /// The queued messages, oldest first.
    pub open spec fn view(&self) -> Seq<T> {
        self.queue@
    }

    /// An empty queue created for about `capacity` messages.
    pub fn with_capacity(capacity: usize) -> (r: MessagesQueue<T>)
        ensures
            r@ == Seq::<T>::empty(),
            r.capacity == capacity,
    {
        MessagesQueue { queue: Vec::with_capacity(capacity), capacity }
    }

    /// Pushes an element to the back of the queue.
    pub fn push(&mut self, value: T)
        ensures
            final(self)@ == old(self)@.push(value),
            final(self).capacity == old(self).capacity,
    {
        self.queue.push(value);
    }

    /// Pops the oldest element; `None` when the queue is empty and a
    /// caller would have to block.
    pub fn pop(&mut self) -> (r: Option<T>)
        ensures
            final(self).capacity == old(self).capacity,
            match r {
                Some(v) => old(self)@.len() > 0 && v == old(self)@[0] && final(self)@ == old(
                    self,
                )@.drop_first(),
                None => old(self)@.len() == 0 && final(self)@ == old(self)@,
            },
    {
        if self.queue.len() == 0 {
            return None;
        }
        let v = self.queue.remove(0);
        assert(self.queue@ =~= old(self)@.drop_first());
        Some(v)
    }

    /// Pops the oldest element without blocking; `None` when the queue
    /// is empty.
    pub fn try_pop(&mut self) -> (r: Option<T>)
        ensures
            final(self).capacity == old(self).capacity,
            match r {
                Some(v) => old(self)@.len() > 0 && v == old(self)@[0] && final(self)@ == old(
                    self,
                )@.drop_first(),
                None => old(self)@.len() == 0 && final(self)@ == old(self)@,
            },
    {
        self.pop()
    }

    /// Pops the oldest element, giving up after the timeout; in this
    /// queue, where nothing arrives meanwhile, an empty queue means
    /// `None` however long the wait.
    pub fn pop_timeout(&mut self, timeout_millis: u64) -> (r: Option<T>)
        ensures
            final(self).capacity == old(self).capacity,
            match r {
                Some(v) => old(self)@.len() > 0 && v == old(self)@[0] && final(self)@ == old(
                    self,
                )@.drop_first(),
                None => old(self)@.len() == 0 && final(self)@ == old(self)@,
            },
    {
        let _ = timeout_millis;
        self.pop()
    }
}

} // verus!
