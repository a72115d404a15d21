//! A bounded multi-consumer change broadcast.
//!
//! A broadcast keeps the last `capacity` events of its whole history in
//! a ring. Each subscription is a cursor into the history: it sees only
//! events sent after it was taken. A subscription that falls behind the
//! ring observes the gap as an explicit lost-event signal and is moved
//! to the oldest retained event; it never observes a corrupted payload.
//! Senders never block on slow subscribers.

use vstd::prelude::*;

verus! {

/// A bounded event broadcast. The full history of sent events is kept
/// as ghost state; the ring holds its last `capacity` entries.
pub struct Broadcast<T> {
    buffer: Vec<T>,
    dropped: u64,
    capacity: u64,
    history: Ghost<Seq<T>>,
}

/// A consumer's cursor: the index into the broadcast history of the next
/// event this consumer will receive.
#[derive(Clone, Copy, Debug, PartialEq, Eq, Structural)]
pub struct Subscription {
    pub next: u64,
}

/// One receive step of a subscription.
pub enum RecvOutcome<'a, T> {
    /// No event has been sent past this subscription's cursor.
    Empty,
    /// The subscription fell behind the ring and lost this many events;
    /// its cursor now stands at the oldest retained event.
    Lagged(u64),
    /// The next event, in send order. The cursor advanced past it.
    Event(&'a T),
}

impl<T> Broadcast<T> {
    /// The whole sequence of events ever sent.
    pub closed spec fn history(&self) -> Seq<T> {
        self.history@
    }

    /// The ring size this broadcast was made with.
    pub closed spec fn cap(&self) -> u64 {
        self.capacity
    }

    /// The history index of the oldest event still in the ring.
    pub closed spec fn first_retained(&self) -> int {
        self.dropped as int
    }

    /// The structural invariant: the ring is the suffix of the history,
    /// and exactly the events beyond the ring size have been dropped.
    pub closed spec fn wf(&self) -> bool {
        &&& self.capacity >= 1
        &&& self.buffer@.len() <= self.capacity
        &&& self.history@.len() == self.dropped + self.buffer@.len()
        &&& self.history@.len() <= u64::MAX
        &&& self.dropped == (if self.history@.len() > self.capacity {
            self.history@.len() - self.capacity
        } else {
            0int
        })
        &&& forall|i: int|
            0 <= i < self.buffer@.len() ==> self.history@[self.dropped + i] == #[trigger] self
                .buffer@[i]
    }

    /// The ring keeps the newest `cap()` events: the oldest retained
    /// index is the history length minus the ring size, or zero while
    /// the history still fits the ring.
    pub proof fn lemma_window(&self)
        requires
            self.wf(),
        ensures
            self.first_retained() == (if self.history().len() > self.cap() {
                self.history().len() - self.cap()
            } else {
                0int
            }),
    {
    }

    /// A fresh broadcast with an empty history.
    pub fn new(capacity: u64) -> (r: Broadcast<T>)
        requires
            capacity >= 1,
        ensures
            r.wf(),
            r.cap() == capacity,
            r.history() == Seq::<T>::empty(),
            r.first_retained() == 0,
    {
        Broadcast { buffer: Vec::new(), dropped: 0, capacity, history: Ghost(Seq::empty()) }
    }

    /// Sends one event to every subscription: appends it to the history,
    /// dropping the oldest retained event when the ring is full.
    pub fn send(&mut self, ev: T)
        requires
            old(self).wf(),
            old(self).history().len() < u64::MAX,
        ensures
            final(self).wf(),
            final(self).cap() == old(self).cap(),
            final(self).history() == old(self).history().push(ev),
    {
        proof {
            assert(self.buffer@.len() <= u64::MAX);
        }
        if self.buffer.len() as u64 == self.capacity {
            self.buffer.remove(0);
            self.dropped = self.dropped + 1;
        }
        self.buffer.push(ev);
        proof {
            self.history@ = self.history@.push(ev);
        }
    }

    /// A new subscription, standing after every event sent so far: it
    /// will see exactly the events sent after this call.
    pub fn subscribe(&self) -> (sub: Subscription)
        requires
            self.wf(),
        ensures
            sub.next == self.history().len(),
    {
        Subscription { next: self.dropped + self.buffer.len() as u64 }
    }

    /// Receives the next event for the given subscription, or reports
    /// that none is pending, or that the subscription fell behind the
    /// ring and by how much.
    pub fn recv<'a>(&'a self, sub: &mut Subscription) -> (r: RecvOutcome<'a, T>)
        requires
            self.wf(),
        ensures
            old(sub).next >= self.history().len() ==> r is Empty && *final(sub) == *old(sub),
            (old(sub).next as int) < self.first_retained() ==> {
                &&& r matches RecvOutcome::Lagged(n) && n == self.first_retained() - old(sub).next
                &&& final(sub).next == self.first_retained()
            },
            self.first_retained() <= old(sub).next as int && (old(sub).next as int) < self.history().len() ==> {
                &&& r matches RecvOutcome::Event(ev) && *ev == self.history()[old(sub).next as int]
                &&& final(sub).next == old(sub).next + 1
            },
    {
        let total = self.dropped + self.buffer.len() as u64;
        if sub.next >= total {
            RecvOutcome::Empty
        } else if sub.next < self.dropped {
            let lost = self.dropped - sub.next;
            sub.next = self.dropped;
            RecvOutcome::Lagged(lost)
        } else {
            let idx = (sub.next - self.dropped) as usize;
            let ev = &self.buffer[idx];
            sub.next = sub.next + 1;
            RecvOutcome::Event(ev)
        }
    }
}

} // verus!
