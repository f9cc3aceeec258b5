//! The bounded queue of events that a core keeps for its application.

use std::collections::VecDeque;
use vstd::prelude::*;
use crate::ber::list::views;

verus! {

/// A queue that pushes out its oldest event when it is full, and counts what it pushed out.
#[derive(Debug)]
pub struct EventQueue<T> {
    items: VecDeque<T>,
    capacity: usize,
    dropped: u64,
}

/// What an [`EventQueue`] stands for.
pub struct QueueModel<V> {
    /// The events, the oldest first.
    pub items: Seq<V>,
    /// How many events it holds at most.
    pub capacity: usize,
    /// How many events were pushed out.
    pub dropped: u64,
}

/// One more, stopping at the end of the range.
pub open spec fn bump(n: u64) -> u64 {
    if n < u64::MAX {
        (n + 1) as u64
    } else {
        n
    }
}

/// An empty queue. It always has room for one event.
pub open spec fn empty_queue<V>(capacity: usize) -> QueueModel<V> {
    QueueModel {
        items: Seq::empty(),
        capacity: if capacity == 0 {
            1
        } else {
            capacity
        },
        dropped: 0,
    }
}

/// A queue with one more event.
pub open spec fn pushed<V>(q: QueueModel<V>, event: V) -> QueueModel<V> {
    if q.items.len() >= q.capacity {
        QueueModel {
            items: popped(q).items.push(event),
            dropped: bump(q.dropped),
            ..q
        }
    } else {
        QueueModel { items: q.items.push(event), ..q }
    }
}

/// A queue without its oldest event.
pub open spec fn popped<V>(q: QueueModel<V>) -> QueueModel<V> {
    if q.items.len() > 0 {
        QueueModel { items: q.items.skip(1), ..q }
    } else {
        q
    }
}

/// Whether a queue holds no more than it may.
pub open spec fn bounded<V>(q: QueueModel<V>) -> bool {
    1 <= q.capacity && q.items.len() <= q.capacity
}

impl<T: View> View for EventQueue<T> {
    type V = QueueModel<T::V>;

    closed spec fn view(&self) -> QueueModel<T::V> {
        QueueModel {
            items: views(self.items@),
            capacity: self.capacity,
            dropped: self.dropped,
        }
    }
}

impl<T: View> EventQueue<T> {
    /// An empty queue that holds `capacity` events, and at least one.
    pub fn new(capacity: usize) -> (r: EventQueue<T>)
        ensures
            r@ == empty_queue::<T::V>(capacity),
    {
        let r: EventQueue<T> = EventQueue {
            items: VecDeque::new(),
            capacity: if capacity == 0 {
                1
            } else {
                capacity
            },
            dropped: 0,
        };
        assert(views(r.items@) =~= Seq::<T::V>::empty());
        r
    }

    /// Append an event. A full queue pushes out its oldest one.
    pub fn push(&mut self, event: T)
        ensures
            final(self)@ == pushed(old(self)@, event@),
    {
        if self.items.len() >= self.capacity {
            let _ = self.items.pop_front();
            self.dropped = self.dropped.saturating_add(1);
        }
        self.items.push_back(event);
        proof {
            assert(views(self.items@) =~= pushed(old(self)@, event@).items);
        }
    }

    /// Take the oldest event.
    pub fn pop(&mut self) -> (r: Option<T>)
        ensures
            match r {
                Some(e) => old(self)@.items.len() > 0 && e@ == old(self)@.items[0],
                None => old(self)@.items.len() == 0,
            },
            final(self)@ == popped(old(self)@),
    {
        let ghost before = self.items@;
        let r = self.items.pop_front();
        proof {
            if before.len() > 0 {
                assert(views(self.items@) =~= views(before).skip(1));
            }
        }
        r
    }

    /// How many events were pushed out.
    pub fn dropped(&self) -> (r: u64)
        ensures
            r == self@.dropped,
    {
        self.dropped
    }
}

/// A queue never holds more than its capacity; the event just pushed is the last one in it;
/// and a queue with room keeps every event that was in it, in order.
pub proof fn lemma_queue<V>(q: QueueModel<V>, event: V)
    requires
        bounded(q),
    ensures
        bounded(pushed(q, event)),
        bounded(popped(q)),
        pushed(q, event).items.last() == event,
        q.items.len() < q.capacity ==> pushed(q, event).items.drop_last() == q.items
            && pushed(q, event).dropped == q.dropped,
        q.items.len() == q.capacity ==> pushed(q, event).items.drop_last() == q.items.skip(1)
            && pushed(q, event).dropped == bump(q.dropped),
{
    assert(q.items.push(event).drop_last() =~= q.items);
    assert(q.items.skip(1).push(event).drop_last() =~= q.items.skip(1));
}

} // verus!
