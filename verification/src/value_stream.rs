//! The value-shaped reactive stream: at most one current value.

use vstd::prelude::*;

use crate::broadcast::{Broadcast, RecvOutcome, Subscription};
use crate::model::ValueModel;
use crate::types::{clone_value, value_model, CommanderValue};

verus! {

/// The ring size of every stream's change broadcast.
pub const CHANGE_RING: u64 = 128;

/// The ring size of every back-channel broadcast.
pub const REQUEST_RING: u64 = 32;

/// A change of a value stream.
pub enum ValueChange {
    SetTo(CommanderValue),
    Destroy,
}

/// The model of a value stream change.
pub enum ValueChangeModel {
    SetTo(ValueModel),
    Destroy,
}

/// The model of an executable value change.
pub open spec fn value_change_model(c: ValueChange) -> ValueChangeModel {
    match c {
        ValueChange::SetTo(v) => ValueChangeModel::SetTo(value_model(v)),
        ValueChange::Destroy => ValueChangeModel::Destroy,
    }
}

/// A stream holding at most one current value, with a change broadcast.
pub struct ValueStream {
    value: Option<CommanderValue>,
    updates: Broadcast<ValueChange>,
}

impl ValueStream {
    /// The current value.
    pub closed spec fn current(&self) -> Option<ValueModel> {
        match self.value {
            Some(v) => Some(value_model(v)),
            None => None,
        }
    }

    /// Every change ever broadcast, in order.
    pub closed spec fn updates_model(&self) -> Seq<ValueChangeModel> {
        self.updates.history().map_values(|c: ValueChange| value_change_model(c))
    }

    /// The history index of the oldest change still in the ring.
    pub closed spec fn updates_first_retained(&self) -> int {
        self.updates.first_retained()
    }

    /// The structural invariant.
    pub closed spec fn wf(&self) -> bool {
        self.updates.wf() && self.updates.cap() == CHANGE_RING
    }

    /// The change ring keeps the newest `CHANGE_RING` changes: the
    /// oldest retained change is the history length minus the ring
    /// size, or zero while the history still fits the ring.
    pub proof fn lemma_updates_window(&self)
        requires
            self.wf(),
        ensures
            self.updates_first_retained() == (if self.updates_model().len() > CHANGE_RING {
                self.updates_model().len() - CHANGE_RING
            } else {
                0int
            }),
    {
        self.updates.lemma_window();
    }

    /// A fresh stream, optionally seeded with an initial value. Seeding
    /// broadcasts nothing.
    pub fn new(initial: Option<CommanderValue>) -> (r: ValueStream)
        ensures
            r.wf(),
            r.current() == (match initial {
                Some(v) => Some(value_model(v)),
                None => None::<ValueModel>,
            }),
            r.updates_model() == Seq::<ValueChangeModel>::empty(),
    {
        let r = ValueStream { value: initial, updates: Broadcast::new(CHANGE_RING) };
        proof {
            assert(r.updates_model() =~= Seq::<ValueChangeModel>::empty());
        }
        r
    }

    /// The current value, copied.
    pub fn snapshot(&self) -> (r: Option<CommanderValue>)
        ensures
            self.current() == (match r {
                Some(v) => Some(value_model(v)),
                None => None::<ValueModel>,
            }),
    {
        match &self.value {
            Some(v) => Some(clone_value(v)),
            None => None,
        }
    }

    /// Replaces the current value and broadcasts it as a change.
    pub fn set(&mut self, v: CommanderValue)
        requires
            old(self).wf(),
            old(self).updates_model().len() < u64::MAX,
        ensures
            final(self).wf(),
            final(self).current() == Some(value_model(v)),
            final(self).updates_model() == old(self).updates_model().push(
                ValueChangeModel::SetTo(value_model(v)),
            ),
    {
        let copy = clone_value(&v);
        self.value = Some(v);
        let ghost before = self.updates.history();
        self.updates.send(ValueChange::SetTo(copy));
        proof {
            assert(self.updates_model() =~= before.map_values(
                |c: ValueChange| value_change_model(c),
            ).push(ValueChangeModel::SetTo(value_model(v))));
        }
    }

    /// Clears the current value and broadcasts `Destroy`.
    pub fn destroy(&mut self)
        requires
            old(self).wf(),
            old(self).updates_model().len() < u64::MAX,
        ensures
            final(self).wf(),
            final(self).current() is None,
            final(self).updates_model() == old(self).updates_model().push(
                ValueChangeModel::Destroy,
            ),
    {
        self.value = None;
        let ghost before = self.updates.history();
        self.updates.send(ValueChange::Destroy);
        proof {
            assert(self.updates_model() =~= before.map_values(
                |c: ValueChange| value_change_model(c),
            ).push(ValueChangeModel::Destroy));
        }
    }

    /// A subscription that will see exactly the changes broadcast after
    /// this call.
    pub fn subscribe(&self) -> (sub: Subscription)
        requires
            self.wf(),
        ensures
            sub.next == self.updates_model().len(),
    {
        self.updates.subscribe()
    }

    /// One receive step on a subscription to this stream's changes.
    pub fn recv_update<'a>(&'a self, sub: &mut Subscription) -> (r: RecvOutcome<'a, ValueChange>)
        requires
            self.wf(),
        ensures
            old(sub).next >= self.updates_model().len() ==> r is Empty && *final(sub) == *old(sub),
            (old(sub).next as int) < self.updates_first_retained() ==> {
                &&& r matches RecvOutcome::Lagged(n) && n == self.updates_first_retained() - old(
                    sub,
                ).next
                &&& final(sub).next == self.updates_first_retained()
            },
            self.updates_first_retained() <= old(sub).next as int && (old(sub).next as int)
                < self.updates_model().len() ==> {
                &&& r matches RecvOutcome::Event(ev) && value_change_model(*ev)
                    == self.updates_model()[old(sub).next as int]
                &&& final(sub).next == old(sub).next + 1
            },
    {
        self.updates.recv(sub)
    }
}

} // verus!
