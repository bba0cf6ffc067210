//! The event-registration channel: a bounded FIFO inbox that decouples
//! software-origin key events from the scan tick.
//!
//! Insertion into a full queue fails deterministically and leaves the stored
//! entries untouched — that is documented drop policy, not a fault. A single
//! consumer drains the queue in insertion order.

use vstd::prelude::*;

use crate::event::Event;

verus! {

/// Fixed capacity of the event-registration queue.
pub const QUEUE_CAPACITY: usize = 8;

/// Bounded FIFO of pending key events.
pub struct EventQueue {
    items: Vec<Event>,
}

impl EventQueue {
    /// The queued events, oldest first.
    pub closed spec fn view(&self) -> Seq<Event> {
        self.items@
    }

    /// The queue never holds more than its fixed capacity.
    pub closed spec fn inv(&self) -> bool {
        self.items@.len() <= QUEUE_CAPACITY
    }

    /// An empty queue, built once at boot.
    pub fn new() -> (q: EventQueue)
        ensures
            q.inv(),
            q@ =~= Seq::<Event>::empty(),
    {
        EventQueue { items: Vec::new() }
    }

    /// How many events are waiting.
    pub fn len(&self) -> (n: usize)
        ensures
            n == self@.len(),
    {
        self.items.len()
    }

    /// Attempts to register an event. Succeeds exactly when the queue is not
    /// full; on a full queue the event is dropped and the stored entries are
    /// untouched.
    pub fn insert(&mut self, e: Event) -> (ok: bool)
        requires
            old(self).inv(),
        ensures
            final(self).inv(),
            ok == (old(self)@.len() < QUEUE_CAPACITY),
            ok ==> final(self)@ =~= old(self)@.push(e),
            !ok ==> final(self)@ =~= old(self)@,
    {
        if self.items.len() < QUEUE_CAPACITY {
            self.items.push(e);
            true
        } else {
            false
        }
    }

    /// Removes and returns the oldest event, or `None` on an empty queue.
    pub fn drain_one(&mut self) -> (e: Option<Event>)
        requires
            old(self).inv(),
        ensures
            final(self).inv(),
            old(self)@.len() == 0 ==> e is None && final(self)@ =~= old(self)@,
            old(self)@.len() > 0 ==> e == Some(old(self)@[0]) && final(self)@ =~= old(self)@.drop_first(),
    {
        if self.items.len() == 0 {
            None
        } else {
            let first: Event = self.items.remove(0);
            Some(first)
        }
    }

    /// Removes and returns every queued event, in insertion order, leaving the
    /// queue empty.
    pub fn drain_all(&mut self) -> (drained: Vec<Event>)
        requires
            old(self).inv(),
        ensures
            final(self).inv(),
            drained@ =~= old(self)@,
            final(self)@ =~= Seq::<Event>::empty(),
    {
        let mut drained: Vec<Event> = Vec::new();
        let n: usize = self.items.len();
        let mut i: usize = 0;
        while i < n
            invariant
                n == old(self)@.len(),
                i <= n,
                self.items@ =~= old(self)@.skip(i as int),
                drained@ =~= old(self)@.take(i as int),
            decreases n - i,
        {
            let e: Event = self.items.remove(0);
            drained.push(e);
            i = i + 1;
        }
        drained
    }
}

} // verus!
