//! The dispatcher's bounded queue: notifications wait here, in order, for
//! the mail transport, and a full queue drops rather than blocks.

use vstd::prelude::*;

use crate::notify::Notification;

verus! {

/// A bounded first-in-first-out queue of notifications. Appending to a full
/// queue drops the new notification and reports so; it never blocks and
/// never displaces queued items.
pub struct DispatchQueue {
    items: Vec<Notification>,
    capacity: usize,
}

impl DispatchQueue {
    /// The queued notifications, oldest first.
    pub closed spec fn view(self) -> Seq<(Seq<char>, Seq<char>)> {
        self.items@.map_values(|n: Notification| n@)
    }

    /// The fixed bound the queue was created with.
    pub closed spec fn spec_capacity(self) -> nat {
        self.capacity as nat
    }

    /// An empty queue with the given bound.
    pub fn new(capacity: usize) -> (q: DispatchQueue)
        ensures
            q@ == Seq::<(Seq<char>, Seq<char>)>::empty(),
            q.spec_capacity() == capacity,
    {
        let q = DispatchQueue { items: Vec::new(), capacity };
        proof {
            assert(q@ =~= Seq::<(Seq<char>, Seq<char>)>::empty());
        }
        q
    }

    /// How many notifications are waiting.
    pub fn len(&self) -> (l: usize)
        ensures
            l == self@.len(),
    {
        self.items.len()
    }

    /// The bound the queue was created with.
    pub fn capacity(&self) -> (c: usize)
        ensures
            c == self.spec_capacity(),
    {
        self.capacity
    }

    /// Appends a notification unless the queue is full: the result says
    /// whether it was kept. A full queue stays exactly as it was — the
    /// caller logs the drop and goes on, never waiting.
    pub fn enqueue(&mut self, n: Notification) -> (accepted: bool)
        ensures
            final(self).spec_capacity() == old(self).spec_capacity(),
            accepted == (old(self)@.len() < old(self).spec_capacity()),
            accepted ==> final(self)@ == old(self)@.push(n@),
            !accepted ==> final(self)@ == old(self)@,
    {
        if self.items.len() < self.capacity {
            self.items.push(n);
            proof {
                assert(final(self)@ =~= old(self)@.push(n@));
            }
            true
        } else {
            false
        }
    }

    /// Removes and returns the oldest notification, if any.
    pub fn dequeue(&mut self) -> (r: Option<Notification>)
        ensures
            final(self).spec_capacity() == old(self).spec_capacity(),
            old(self)@.len() == 0 ==> r is None && final(self)@ == old(self)@,
            old(self)@.len() > 0 ==> r is Some && r->0@ == old(self)@[0] && final(self)@ == old(
                self,
            )@.drop_first(),
    {
        if self.items.len() == 0 {
            None
        } else {
            let n = self.items.remove(0);
            proof {
                assert(final(self)@ =~= old(self)@.drop_first());
            }
            Some(n)
        }
    }
}

} // verus!
