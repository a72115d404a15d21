//! The list-shaped reactive stream: an ordered sequence with a paging
//! back-channel.

use vstd::prelude::*;

use crate::broadcast::{Broadcast, RecvOutcome, Subscription};
use crate::errors::{CommanderError, ErrorKind};
use crate::model::ValueModel;
use crate::types::{clone_value, value_model, values_model, CommanderValue};
use crate::value_stream::{CHANGE_RING, REQUEST_RING};

verus! {

/// A change of a list stream.
pub enum ListChange {
    Add(CommanderValue),
    Pop(CommanderValue),
    HasMorePages(bool),
    Clear,
    Destroy,
}

/// The model of a list stream change.
pub enum ListChangeModel {
    Add(ValueModel),
    Pop(ValueModel),
    HasMorePages(bool),
    Clear,
    Destroy,
}

/// The model of an executable list change.
pub open spec fn list_change_model(c: ListChange) -> ListChangeModel {
    match c {
        ListChange::Add(v) => ListChangeModel::Add(value_model(v)),
        ListChange::Pop(v) => ListChangeModel::Pop(value_model(v)),
        ListChange::HasMorePages(b) => ListChangeModel::HasMorePages(b),
        ListChange::Clear => ListChangeModel::Clear,
        ListChange::Destroy => ListChangeModel::Destroy,
    }
}

/// An ordered sequence of values with a change broadcast, a paging flag,
/// and a page-request back-channel.
pub struct ListStream {
    items: Vec<CommanderValue>,
    updates: Broadcast<ListChange>,
    has_more_rows: bool,
    page_requests: Broadcast<u32>,
}

impl ListStream {
    /// The current sequence of values.
    pub closed spec fn items_model(&self) -> Seq<ValueModel> {
        values_model(self.items@)
    }

    /// Every change ever broadcast, in order.
    pub closed spec fn updates_model(&self) -> Seq<ListChangeModel> {
        self.updates.history().map_values(|c: ListChange| list_change_model(c))
    }

    /// Every page request ever sent on the back-channel, in order.
    pub closed spec fn requests_model(&self) -> Seq<u32> {
        self.page_requests.history()
    }

    /// The paging flag.
    pub closed spec fn has_more(&self) -> bool {
        self.has_more_rows
    }

    /// The history index of the oldest change still in the ring.
    pub closed spec fn updates_first_retained(&self) -> int {
        self.updates.first_retained()
    }

    /// The history index of the oldest back-channel request still in the
    /// ring.
    pub closed spec fn requests_first_retained(&self) -> int {
        self.page_requests.first_retained()
    }

    /// The structural invariant.
    pub closed spec fn wf(&self) -> bool {
        &&& self.updates.wf()
        &&& self.updates.cap() == CHANGE_RING
        &&& self.page_requests.wf()
        &&& self.page_requests.cap() == REQUEST_RING
    }

    /// The change ring keeps the newest `CHANGE_RING` changes.
    pub proof fn lemma_updates_window(&self)
        requires
            self.wf(),
        ensures
            self.updates_first_retained() == (if self.updates_model().len() > CHANGE_RING {
                self.updates_model().len() - CHANGE_RING
            } else {
                0int
            }),
    {
        self.updates.lemma_window();
    }

    /// The back-channel ring keeps the newest `REQUEST_RING` requests.
    pub proof fn lemma_requests_window(&self)
        requires
            self.wf(),
        ensures
            self.requests_first_retained() == (if self.requests_model().len() > REQUEST_RING {
                self.requests_model().len() - REQUEST_RING
            } else {
                0int
            }),
    {
        self.page_requests.lemma_window();
    }

    /// A fresh, empty list stream with the paging flag off.
    pub fn new() -> (r: ListStream)
        ensures
            r.wf(),
            r.items_model() == Seq::<ValueModel>::empty(),
            r.updates_model() == Seq::<ListChangeModel>::empty(),
            r.requests_model() == Seq::<u32>::empty(),
            !r.has_more(),
    {
        let r = ListStream {
            items: Vec::new(),
            updates: Broadcast::new(CHANGE_RING),
            has_more_rows: false,
            page_requests: Broadcast::new(REQUEST_RING),
        };
        proof {
            assert(r.items_model() =~= Seq::<ValueModel>::empty());
            assert(r.updates_model() =~= Seq::<ListChangeModel>::empty());
        }
        r
    }

    /// The current sequence, copied.
    pub fn snapshot(&self) -> (r: Vec<CommanderValue>)
        ensures
            values_model(r@) == self.items_model(),
    {
        crate::types::clone_value_vec(&self.items)
    }

    /// Appends a value and broadcasts `Add` with it.
    pub fn add(&mut self, v: CommanderValue)
        requires
            old(self).wf(),
            old(self).updates_model().len() < u64::MAX,
        ensures
            final(self).wf(),
            final(self).items_model() == old(self).items_model().push(value_model(v)),
            final(self).updates_model() == old(self).updates_model().push(
                ListChangeModel::Add(value_model(v)),
            ),
            final(self).requests_model() == old(self).requests_model(),
            final(self).has_more() == old(self).has_more(),
    {
        let ghost items_before = self.items@;
        let ghost before = self.updates.history();
        let copy = clone_value(&v);
        self.items.push(v);
        self.updates.send(ListChange::Add(copy));
        proof {
            crate::types::lemma_values_model_index(items_before);
            crate::types::lemma_values_model_index(self.items@);
            assert(self.items_model() =~= values_model(items_before).push(
                value_model(self.items@.last()),
            ));
            assert(self.updates_model() =~= before.map_values(
                |c: ListChange| list_change_model(c),
            ).push(list_change_model(ListChange::Add(copy))));
        }
    }

    /// Removes the last value and broadcasts `Pop` with it. On an empty
    /// list it fails with `InvalidOperation` and changes nothing.
    pub fn pop(&mut self) -> (r: Result<(), CommanderError>)
        requires
            old(self).wf(),
            old(self).updates_model().len() < u64::MAX,
        ensures
            final(self).wf(),
            r is Ok <==> old(self).items_model().len() > 0,
            r matches Err(e) ==> e.kind == ErrorKind::InvalidOperation && *final(self) == *old(
                self,
            ),
            r is Ok ==> {
                &&& final(self).items_model() == old(self).items_model().drop_last()
                &&& final(self).updates_model() == old(self).updates_model().push(
                    ListChangeModel::Pop(old(self).items_model().last()),
                )
                &&& final(self).requests_model() == old(self).requests_model()
                &&& final(self).has_more() == old(self).has_more()
            },
    {
        proof {
            crate::types::lemma_values_model_index(self.items@);
        }
        if self.items.len() == 0 {
            return Err(
                CommanderError::new(
                    ErrorKind::InvalidOperation,
                    crate::strings::str_to_string("cannot pop a value from an empty list"),
                ),
            );
        }
        let ghost items_before = self.items@;
        let ghost before = self.updates.history();
        let last = self.items.pop().unwrap();
        self.updates.send(ListChange::Pop(last));
        proof {
            crate::types::lemma_values_model_index(self.items@);
            crate::types::lemma_values_model_index(items_before);
            assert(self.items_model() =~= values_model(items_before).drop_last());
            assert(self.updates_model() =~= before.map_values(
                |c: ListChange| list_change_model(c),
            ).push(ListChangeModel::Pop(values_model(items_before).last())));
        }
        Ok(())
    }

    /// Empties the list and broadcasts `Clear`.
    pub fn clear(&mut self)
        requires
            old(self).wf(),
            old(self).updates_model().len() < u64::MAX,
        ensures
            final(self).wf(),
            final(self).items_model() == Seq::<ValueModel>::empty(),
            final(self).updates_model() == old(self).updates_model().push(ListChangeModel::Clear),
            final(self).requests_model() == old(self).requests_model(),
            final(self).has_more() == old(self).has_more(),
    {
        let ghost before = self.updates.history();
        self.items.clear();
        self.updates.send(ListChange::Clear);
        proof {
            assert(self.items_model() =~= Seq::<ValueModel>::empty());
            assert(self.updates_model() =~= before.map_values(
                |c: ListChange| list_change_model(c),
            ).push(ListChangeModel::Clear));
        }
    }

    /// Empties the list and broadcasts `Destroy`, the terminal change.
    pub fn destroy(&mut self)
        requires
            old(self).wf(),
            old(self).updates_model().len() < u64::MAX,
        ensures
            final(self).wf(),
            final(self).items_model() == Seq::<ValueModel>::empty(),
            final(self).updates_model() == old(self).updates_model().push(
                ListChangeModel::Destroy,
            ),
            final(self).requests_model() == old(self).requests_model(),
            final(self).has_more() == old(self).has_more(),
    {
        let ghost before = self.updates.history();
        self.items.clear();
        self.updates.send(ListChange::Destroy);
        proof {
            assert(self.items_model() =~= Seq::<ValueModel>::empty());
            assert(self.updates_model() =~= before.map_values(
                |c: ListChange| list_change_model(c),
            ).push(ListChangeModel::Destroy));
        }
    }

    /// Records the paging flag and broadcasts `HasMorePages` with it.
    pub fn set_has_more_rows(&mut self, b: bool)
        requires
            old(self).wf(),
            old(self).updates_model().len() < u64::MAX,
        ensures
            final(self).wf(),
            final(self).items_model() == old(self).items_model(),
            final(self).has_more() == b,
            final(self).updates_model() == old(self).updates_model().push(
                ListChangeModel::HasMorePages(b),
            ),
            final(self).requests_model() == old(self).requests_model(),
    {
        let ghost before = self.updates.history();
        self.has_more_rows = b;
        self.updates.send(ListChange::HasMorePages(b));
        proof {
            assert(self.updates_model() =~= before.map_values(
                |c: ListChange| list_change_model(c),
            ).push(ListChangeModel::HasMorePages(b)));
        }
    }

    /// Requests one more page of the given size. When the paging flag is
    /// off it returns `false` and sends nothing; otherwise it sends the
    /// size on the back-channel and returns `true`.
    pub fn request_page(&mut self, limit: u32) -> (r: bool)
        requires
            old(self).wf(),
            old(self).requests_model().len() < u64::MAX,
        ensures
            final(self).wf(),
            r == old(self).has_more(),
            final(self).items_model() == old(self).items_model(),
            final(self).updates_model() == old(self).updates_model(),
            final(self).has_more() == old(self).has_more(),
            r ==> final(self).requests_model() == old(self).requests_model().push(limit),
            !r ==> *final(self) == *old(self),
    {
        if !self.has_more_rows {
            return false;
        }
        self.page_requests.send(limit);
        true
    }

    /// A subscription that will see exactly the changes broadcast after
    /// this call.
    pub fn subscribe(&self) -> (sub: Subscription)
        requires
            self.wf(),
        ensures
            sub.next == self.updates_model().len(),
    {
        self.updates.subscribe()
    }

    /// One receive step on a subscription to this stream's changes.
    pub fn recv_update<'a>(&'a self, sub: &mut Subscription) -> (r: RecvOutcome<'a, ListChange>)
        requires
            self.wf(),
        ensures
            old(sub).next >= self.updates_model().len() ==> r is Empty && *final(sub) == *old(sub),
            (old(sub).next as int) < self.updates_first_retained() ==> {
                &&& r matches RecvOutcome::Lagged(n) && n == self.updates_first_retained() - old(
                    sub,
                ).next
                &&& final(sub).next == self.updates_first_retained()
            },
            self.updates_first_retained() <= old(sub).next as int && (old(sub).next as int)
                < self.updates_model().len() ==> {
                &&& r matches RecvOutcome::Event(ev) && list_change_model(*ev)
                    == self.updates_model()[old(sub).next as int]
                &&& final(sub).next == old(sub).next + 1
            },
    {
        self.updates.recv(sub)
    }

    /// A subscription to the page-request back-channel.
    pub fn subscribe_requests(&self) -> (sub: Subscription)
        requires
            self.wf(),
        ensures
            sub.next == self.requests_model().len(),
    {
        self.page_requests.subscribe()
    }

    /// One receive step on a back-channel subscription.
    pub fn recv_request<'a>(&'a self, sub: &mut Subscription) -> (r: RecvOutcome<'a, u32>)
        requires
            self.wf(),
        ensures
            old(sub).next >= self.requests_model().len() ==> r is Empty && *final(sub) == *old(
                sub,
            ),
            (old(sub).next as int) < self.requests_first_retained() ==> {
                &&& r matches RecvOutcome::Lagged(n)
                &&& final(sub).next == self.requests_first_retained()
            },
            self.requests_first_retained() <= old(sub).next as int && (old(sub).next as int)
                < self.requests_model().len() ==> {
                &&& r matches RecvOutcome::Event(ev) && *ev == self.requests_model()[old(
                    sub,
                ).next as int]
                &&& final(sub).next == old(sub).next + 1
            },
    {
        self.page_requests.recv(sub)
    }
}

/// The list state after a sequence of `add` calls.
pub open spec fn list_after_adds(items: Seq<ValueModel>, vs: Seq<ValueModel>) -> Seq<ValueModel>
    decreases vs.len(),
{
    if vs.len() == 0 {
        items
    } else {
        list_after_adds(items.push(vs[0]), vs.drop_first())
    }
}

/// The change history after a sequence of `add` calls.
pub open spec fn updates_after_adds(
    updates: Seq<ListChangeModel>,
    vs: Seq<ValueModel>,
) -> Seq<ListChangeModel>
    decreases vs.len(),
{
    if vs.len() == 0 {
        updates
    } else {
        updates_after_adds(updates.push(ListChangeModel::Add(vs[0])), vs.drop_first())
    }
}

/// After any run of `add(v1) .. add(vN)`, the snapshot is the old items
/// followed by `v1 .. vN` in order, and the change history is the old
/// one followed by `Add(v1) .. Add(vN)` in order — so a subscriber taken
/// before the adds receives exactly `Add(v1) .. Add(vN)`, while one
/// taken after sees none of them.
pub proof fn lemma_adds_in_order(items: Seq<ValueModel>, updates: Seq<ListChangeModel>, vs: Seq<ValueModel>)
    ensures
        list_after_adds(items, vs) == items + vs,
        updates_after_adds(updates, vs) == updates + vs.map_values(
            |v: ValueModel| ListChangeModel::Add(v),
        ),
        updates_after_adds(updates, vs).skip(updates.len() as int) == vs.map_values(
            |v: ValueModel| ListChangeModel::Add(v),
        ),
    decreases vs.len(),
{
    if vs.len() == 0 {
        assert(list_after_adds(items, vs) =~= items + vs);
        assert(updates_after_adds(updates, vs) =~= updates + vs.map_values(
            |v: ValueModel| ListChangeModel::Add(v),
        ));
    } else {
        lemma_adds_in_order(items.push(vs[0]), updates.push(ListChangeModel::Add(vs[0])), vs.drop_first());
        assert(items.push(vs[0]) + vs.drop_first() =~= items + vs);
        assert(updates.push(ListChangeModel::Add(vs[0])) + vs.drop_first().map_values(
            |v: ValueModel| ListChangeModel::Add(v),
        ) =~= updates + vs.map_values(|v: ValueModel| ListChangeModel::Add(v)));
    }
    assert((updates + vs.map_values(|v: ValueModel| ListChangeModel::Add(v))).skip(
        updates.len() as int,
    ) =~= vs.map_values(|v: ValueModel| ListChangeModel::Add(v)));
}

} // verus!
