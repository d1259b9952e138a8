//! The work queue that the acceptor fills and the worker pool drains,
//! modeled as a FIFO sequence. Sending appends at the tail; receiving
//! removes exactly the head, so no item is ever handed out twice and items
//! leave in arrival order. The blocking wait and the lock around the queue
//! are the embedding program's: it wraps a `Channel` in its mutual-exclusion
//! primitive and retries `recv` when the queue was empty.

use vstd::prelude::*;

verus! {

/// A FIFO queue of pending work items.
pub struct Channel<T> {
    store: Vec<T>,
}

impl<T> View for Channel<T> {
    type V = Seq<T>;

    closed spec fn view(&self) -> Seq<T> {
        self.store@
    }
}

impl<T> Channel<T> {
    pub fn new() -> (c: Channel<T>)
        ensures
            c@ == Seq::<T>::empty(),
    {
        Channel { store: Vec::new() }
    }

    /// Appends one item at the tail.
    pub fn send(&mut self, data: T)
        ensures
            final(self)@ == old(self)@.push(data),
    {
        self.store.push(data);
    }

    /// Removes and returns the head item; `None` when the queue is empty.
    /// An item returned here is gone from the queue, so two receivers can
    /// never obtain the same item.
    pub fn recv(&mut self) -> (r: Option<T>)
        ensures
            old(self)@.len() == 0 ==> r is None && final(self)@ == old(self)@,
            old(self)@.len() > 0 ==> {
                &&& r matches Some(head)
                &&& head == old(self)@.first()
                &&& final(self)@ == old(self)@.drop_first()
            },
    {
        if self.store.len() == 0 {
            None
        } else {
            let head = self.store.remove(0);
            proof {
                assert(old(self)@.remove(0) =~= old(self)@.drop_first());
            }
            Some(head)
        }
    }

    /// How many items wait in the queue.
    pub fn len(&self) -> (n: usize)
        ensures
            n == self@.len(),
    {
        self.store.len()
    }
}

} // verus!
