//! The per-run stream registry: an indexed collection of streams with
//! id allocation, a resource-change broadcast, and live rebinding of an
//! entry's underlying stream.
//!
//! Streams live in a stream table, an arena that only grows; a registry
//! entry refers to its stream by table key. Binding an input to an
//! output replaces the input entry's key with the output's, so both
//! entries share one stream from then on.

use vstd::prelude::*;

use crate::broadcast::{Broadcast, RecvOutcome, Subscription};
use crate::datastream::{DataStream, DataStreamType};
use crate::errors::{CommanderError, ErrorKind};
use crate::model::TypeModel;
use crate::parse::clone_data_type;
use crate::types::{dt_model, dt_wf, CommanderDataType};

verus! {

/// A stable numeric resource id within one registry. Ids grow and are
/// never reused.
pub type ResourceId = u32;

/// A key into the stream table.
pub type StreamKey = usize;

/// The metadata of one registry entry.
#[derive(Debug)]
pub struct DataStreamMetadata {
    pub id: ResourceId,
    pub name: String,
    pub description: String,
    pub data_type: CommanderDataType,
    pub data_stream_type: DataStreamType,
}

/// The model of an entry's metadata.
pub struct MetadataModel {
    pub id: ResourceId,
    pub name: Seq<char>,
    pub description: Seq<char>,
    pub data_type: TypeModel,
    pub data_stream_type: DataStreamType,
}

/// The model of executable metadata.
pub open spec fn metadata_model(m: DataStreamMetadata) -> MetadataModel {
    MetadataModel {
        id: m.id,
        name: m.name@,
        description: m.description@,
        data_type: dt_model(m.data_type),
        data_stream_type: m.data_stream_type,
    }
}

/// Copies metadata; the copy has the same model.
pub fn clone_metadata(m: &DataStreamMetadata) -> (r: DataStreamMetadata)
    ensures
        metadata_model(r) == metadata_model(*m),
        dt_wf(m.data_type) ==> dt_wf(r.data_type),
{
    DataStreamMetadata {
        id: m.id,
        name: m.name.clone(),
        description: m.description.clone(),
        data_type: clone_data_type(&m.data_type),
        data_stream_type: m.data_stream_type,
    }
}

/// A change of the registry itself.
pub enum DataStreamResourceChange {
    Added(DataStreamMetadata),
    Removed(ResourceId),
    DataStreamChanged(ResourceId),
}

/// The model of a registry change.
pub enum ResourceChangeModel {
    Added(MetadataModel),
    Removed(ResourceId),
    DataStreamChanged(ResourceId),
}

/// The model of an executable registry change.
pub open spec fn resource_change_model(c: DataStreamResourceChange) -> ResourceChangeModel {
    match c {
        DataStreamResourceChange::Added(m) => ResourceChangeModel::Added(metadata_model(m)),
        DataStreamResourceChange::Removed(id) => ResourceChangeModel::Removed(id),
        DataStreamResourceChange::DataStreamChanged(id) => ResourceChangeModel::DataStreamChanged(
            id,
        ),
    }
}

/// The arena that owns every stream of a run pair. It only grows, so
/// keys stay valid.
pub struct StreamTable {
    streams: Vec<DataStream>,
}

impl StreamTable {
    /// The streams, by key.
    pub closed spec fn model(&self) -> Seq<DataStream> {
        self.streams@
    }

    /// Every stream in the table is well-formed.
    pub open spec fn wf(&self) -> bool {
        forall|i: int| 0 <= i < self.model().len() ==> (#[trigger] self.model()[i]).wf()
    }

    /// A fresh, empty table.
    pub fn new() -> (r: StreamTable)
        ensures
            r.wf(),
            r.model() == Seq::<DataStream>::empty(),
    {
        StreamTable { streams: Vec::new() }
    }

    /// The number of streams.
    pub fn len(&self) -> (r: usize)
        ensures
            r == self.model().len(),
    {
        self.streams.len()
    }

    /// Puts a stream into the table and hands back its key.
    pub fn add_stream(&mut self, s: DataStream) -> (key: StreamKey)
        requires
            old(self).wf(),
            s.wf(),
        ensures
            final(self).wf(),
            final(self).model() == old(self).model().push(s),
            key == old(self).model().len(),
    {
        let key = self.streams.len();
        let ghost before = self.streams@;
        self.streams.push(s);
        proof {
            assert forall|i: int| 0 <= i < self.streams@.len() implies (
            #[trigger] self.streams@[i]).wf() by {
                if i < before.len() {
                    assert(self.streams@[i] == old(self).model()[i]);
                    assert(old(self).model()[i].wf());
                } else {
                    assert(self.streams@[i] == s);
                }
            }
        }
        key
    }

    /// The stream under a key.
    pub fn get(&self, key: StreamKey) -> (r: &DataStream)
        requires
            key < self.model().len(),
        ensures
            *r == self.model()[key as int],
    {
        &self.streams[key]
    }

    /// The stream under a key, for mutation.
    pub fn get_mut(&mut self, key: StreamKey) -> (r: &mut DataStream)
        requires
            key < old(self).model().len(),
        ensures
            *r == old(self).model()[key as int],
            final(self).model() == old(self).model().update(key as int, *final(r)),
    {
        &mut self.streams[key]
    }
}

/// One registry entry: metadata and the key of its current stream.
pub struct RegistryEntry {
    pub metadata: DataStreamMetadata,
    pub stream: StreamKey,
}

/// The model of a registry entry.
pub struct EntryModel {
    pub metadata: MetadataModel,
    pub stream: int,
}

/// The model of an executable registry entry.
pub open spec fn registry_entry_model(e: RegistryEntry) -> EntryModel {
    EntryModel { metadata: metadata_model(e.metadata), stream: e.stream as int }
}

/// A per-run registry: entries ordered by id, with a change broadcast.
pub struct DataStreamStorage {
    entries: Vec<RegistryEntry>,
    next: ResourceId,
    changes: Broadcast<DataStreamResourceChange>,
}

impl DataStreamStorage {
    /// The entries, in id order.
    pub closed spec fn entries_model(&self) -> Seq<EntryModel> {
        self.entries@.map_values(|e: RegistryEntry| registry_entry_model(e))
    }

    /// Every registry change ever broadcast, in order.
    pub closed spec fn changes_model(&self) -> Seq<ResourceChangeModel> {
        self.changes.history().map_values(|c: DataStreamResourceChange| resource_change_model(c))
    }

    /// The history index of the oldest change still in the ring.
    pub closed spec fn changes_first_retained(&self) -> int {
        self.changes.first_retained()
    }

    /// The structural invariant: ids strictly increase, and every id
    /// ever issued lies below the allocation counter.
    pub closed spec fn wf(&self) -> bool {
        &&& self.changes.wf()
        &&& self.changes.cap() == crate::value_stream::CHANGE_RING
        &&& forall|i: int, j: int|
            0 <= i < j < self.entries_model().len() ==> (#[trigger] self.entries_model()[i]).metadata.id
                < (#[trigger] self.entries_model()[j]).metadata.id
        &&& forall|i: int|
            0 <= i < self.entries_model().len() ==> (#[trigger] self.entries_model()[i]).metadata.id
                < self.next
    }

    /// The entries stand in ascending id order, and every id lies below
    /// the next id to be allocated.
    pub proof fn lemma_ids_ascending(&self)
        requires
            self.wf(),
        ensures
            forall|i: int, j: int|
                0 <= i < j < self.entries_model().len() ==> (#[trigger] self.entries_model()[i]).metadata.id
                    < (#[trigger] self.entries_model()[j]).metadata.id,
            forall|i: int|
                0 <= i < self.entries_model().len() ==> (#[trigger] self.entries_model()[i]).metadata.id
                    < self.next_id(),
    {
    }

    /// Every stream key points into the table.
    pub open spec fn keys_bounded(&self, table_len: int) -> bool {
        forall|i: int|
            0 <= i < self.entries_model().len() ==> (#[trigger] self.entries_model()[i]).stream
                < table_len
    }

    /// A fresh, empty registry.
    pub fn new() -> (r: DataStreamStorage)
        ensures
            r.wf(),
            r.entries_model() == Seq::<EntryModel>::empty(),
            r.changes_model() == Seq::<ResourceChangeModel>::empty(),
            r.next_id() == 0,
            forall|n: int| r.keys_bounded(n),
    {
        let r = DataStreamStorage {
            entries: Vec::new(),
            next: 0,
            changes: Broadcast::new(crate::value_stream::CHANGE_RING),
        };
        proof {
            assert(r.entries_model() =~= Seq::<EntryModel>::empty());
            assert(r.changes_model() =~= Seq::<ResourceChangeModel>::empty());
        }
        r
    }

    /// The id the next added entry will get: one past the highest id
    /// ever allocated in this run, starting from zero. The counter never
    /// goes back, so an id is never reused within a run, not even after
    /// its entry is removed.
    pub closed spec fn next_id(&self) -> int {
        self.next as int
    }

    /// Whether another id can still be allocated.
    pub open spec fn can_allocate(&self) -> bool {
        self.next_id() < u32::MAX
    }

    /// The index of the entry with the given id, if any.
    pub closed spec fn index_of(&self, id: ResourceId) -> int {
        choose|i: int| 0 <= i < self.entries_model().len() && (#[trigger] self.entries_model()[i]).metadata.id == id
    }

    /// Whether some entry has the given id.
    pub open spec fn has_entry(&self, id: ResourceId) -> bool {
        exists|i: int|
            0 <= i < self.entries_model().len() && (#[trigger] self.entries_model()[i]).metadata.id
                == id
    }

    /// Registers a stream key under fresh metadata and broadcasts
    /// `Added` with a copy of the metadata. Returns the new id, which no
    /// entry of this run has ever carried.
    pub fn add(
        &mut self,
        name: String,
        description: String,
        data_type: CommanderDataType,
        data_stream_type: DataStreamType,
        stream: StreamKey,
        table: &StreamTable,
    ) -> (id: ResourceId)
        requires
            old(self).wf(),
            old(self).can_allocate(),
            old(self).changes_model().len() < u64::MAX,
            stream < table.model().len(),
            table.model()[stream as int].kind() == data_stream_type,
        ensures
            final(self).wf(),
            id == old(self).next_id(),
            final(self).next_id() == old(self).next_id() + 1,
            !old(self).has_entry(id),
            final(self).entries_model() == old(self).entries_model().push(
                EntryModel {
                    metadata: MetadataModel {
                        id,
                        name: name@,
                        description: description@,
                        data_type: dt_model(data_type),
                        data_stream_type,
                    },
                    stream: stream as int,
                },
            ),
            final(self).changes_model() == old(self).changes_model().push(
                ResourceChangeModel::Added(
                    MetadataModel {
                        id,
                        name: name@,
                        description: description@,
                        data_type: dt_model(data_type),
                        data_stream_type,
                    },
                ),
            ),
    {
        proof {
            assert(self.entries_model().len() == self.entries@.len());
        }
        let id: u32 = self.next;
        self.next = self.next + 1;
        proof {
            if old(self).has_entry(id) {
                let w = choose|w: int|
                    0 <= w < old(self).entries_model().len() && (#[trigger] old(
                        self,
                    ).entries_model()[w]).metadata.id == id;
                assert(old(self).entries_model()[w].metadata.id < id);
            }
        }
        let metadata = DataStreamMetadata {
            id,
            name,
            description,
            data_type,
            data_stream_type,
        };
        let event_copy = clone_metadata(&metadata);
        let ghost entries_before = self.entries_model();
        let ghost changes_before = self.changes.history();
        self.entries.push(RegistryEntry { metadata, stream });
        self.changes.send(DataStreamResourceChange::Added(event_copy));
        proof {
            assert(self.entries_model() =~= entries_before.push(
                registry_entry_model(self.entries@.last()),
            ));
            assert(self.changes_model() =~= changes_before.map_values(
                |c: DataStreamResourceChange| resource_change_model(c),
            ).push(ResourceChangeModel::Added(metadata_model(event_copy))));
            assert forall|i: int, j: int|
                0 <= i < j < self.entries_model().len() implies (
            #[trigger] self.entries_model()[i]).metadata.id < (
            #[trigger] self.entries_model()[j]).metadata.id by {
                if j < entries_before.len() {
                    assert(self.entries_model()[i] == entries_before[i]);
                    assert(self.entries_model()[j] == entries_before[j]);
                } else {
                    if i < entries_before.len() {
                        assert(self.entries_model()[i] == entries_before[i]);
                        assert(entries_before[i].metadata.id < id);
                    }
                }
            }
            assert forall|i: int|
                0 <= i < self.entries_model().len() implies (
            #[trigger] self.entries_model()[i]).metadata.id < self.next by {
                if i < entries_before.len() {
                    assert(self.entries_model()[i] == entries_before[i]);
                    assert(entries_before[i].metadata.id < id);
                }
            }
        }
        id
    }

    /// Looks an entry up by id.
    #[verifier::loop_isolation(false)]
    pub fn get(&self, id: ResourceId) -> (r: Option<&RegistryEntry>)
        requires
            self.wf(),
        ensures
            r is Some <==> self.has_entry(id),
            r matches Some(e) ==> registry_entry_model(*e)
                == self.entries_model()[self.index_of(id)] && e.metadata.id == id && 0
                <= self.index_of(id) < self.entries_model().len(),
    {
        let mut i: usize = 0;
        while i < self.entries.len()
            invariant
                0 <= i <= self.entries@.len(),
                forall|k: int|
                    0 <= k < i ==> (#[trigger] self.entries_model()[k]).metadata.id != id,
            decreases self.entries@.len() - i,
        {
            proof {
                assert(self.entries_model()[i as int] == registry_entry_model(
                    self.entries@[i as int],
                ));
            }
            if self.entries[i].metadata.id == id {
                proof {
                    assert(self.has_entry(id));
                    let w = self.index_of(id);
                    if w != i as int {
                        if w < i as int {
                            assert(self.entries_model()[w].metadata.id != id);
                        } else {
                            assert(self.entries_model()[i as int].metadata.id
                                < self.entries_model()[w].metadata.id);
                        }
                    }
                }
                return Some(&self.entries[i]);
            }
            i = i + 1;
        }
        None
    }

    /// Replaces the stream key of an existing entry and broadcasts
    /// `DataStreamChanged` with its id; the metadata keeps its id, name,
    /// description, and declared type. A missing id fails with
    /// `NotFound` and changes nothing.
    #[verifier::loop_isolation(false)]
    pub fn change_data_stream(&mut self, id: ResourceId, new_stream: StreamKey) -> (r: Result<
        (),
        CommanderError,
    >)
        requires
            old(self).wf(),
            old(self).changes_model().len() < u64::MAX,
        ensures
            final(self).wf(),
            r is Ok <==> old(self).has_entry(id),
            final(self).next_id() == old(self).next_id(),
            r matches Err(e) ==> e.kind == ErrorKind::NotFound && *final(self) == *old(self),
            r is Ok ==> {
                &&& final(self).entries_model() == old(self).entries_model().update(
                    old(self).index_of(id),
                    EntryModel {
                        metadata: old(self).entries_model()[old(self).index_of(id)].metadata,
                        stream: new_stream as int,
                    },
                )
                &&& final(self).changes_model() == old(self).changes_model().push(
                    ResourceChangeModel::DataStreamChanged(id),
                )
            },
    {
        let ghost entries_before = self.entries_model();
        let mut i: usize = 0;
        while i < self.entries.len()
            invariant
                0 <= i <= self.entries@.len(),
                entries_before == self.entries_model(),
                *self == *old(self),
                forall|k: int|
                    0 <= k < i ==> (#[trigger] self.entries_model()[k]).metadata.id != id,
            decreases self.entries@.len() - i,
        {
            proof {
                assert(self.entries_model()[i as int] == registry_entry_model(
                    self.entries@[i as int],
                ));
            }
            if self.entries[i].metadata.id == id {
                let ghost changes_before = self.changes.history();
                let slot = &mut self.entries[i].stream;
                *slot = new_stream;
                proof {
                    assert(self.entries_model() =~= entries_before.update(
                        i as int,
                        EntryModel {
                            metadata: entries_before[i as int].metadata,
                            stream: new_stream as int,
                        },
                    ));
                    assert(old(self).has_entry(id)) by {
                        assert(entries_before[i as int].metadata.id == id);
                    }
                    assert(old(self).index_of(id) == i as int) by {
                        let w = old(self).index_of(id);
                        assert(entries_before[i as int].metadata.id == id);
                        if 0 <= w < entries_before.len() && w != i as int {
                            if w < i as int {
                                assert(entries_before[w].metadata.id != id);
                            } else {
                                assert(entries_before[i as int].metadata.id
                                    < entries_before[w].metadata.id);
                            }
                        }
                    }
                }
                self.changes.send(DataStreamResourceChange::DataStreamChanged(id));
                proof {
                    assert(self.changes_model() =~= changes_before.map_values(
                        |c: DataStreamResourceChange| resource_change_model(c),
                    ).push(ResourceChangeModel::DataStreamChanged(id)));
                }
                return Ok(());
            }
            i = i + 1;
        }
        Err(
            CommanderError::new(
                ErrorKind::NotFound,
                crate::strings::str_to_string("no stream is registered under this id"),
            ),
        )
    }

    /// The newest entry is found under its own id, at the last position.
    pub proof fn lemma_last_lookup(&self)
        requires
            self.wf(),
            self.entries_model().len() > 0,
        ensures
            self.has_entry(self.entries_model().last().metadata.id),
            self.index_of(self.entries_model().last().metadata.id) == self.entries_model().len()
                - 1,
            self.entries_model()[self.index_of(self.entries_model().last().metadata.id)]
                == self.entries_model().last(),
    {
        let es = self.entries_model();
        let last = es.last();
        assert(es[es.len() - 1].metadata.id == last.metadata.id);
        assert(self.has_entry(last.metadata.id));
        let w = self.index_of(last.metadata.id);
        if w != es.len() - 1 && 0 <= w < es.len() {
            assert(es[w].metadata.id < es[es.len() - 1].metadata.id);
        }
    }

    /// Growing the registry by one entry moves no existing entry: a
    /// lookup by id keeps finding the same entry at the same index.
    pub proof fn lemma_add_preserves_lookup(before: DataStreamStorage, after: DataStreamStorage, id: ResourceId)
        requires
            before.wf(),
            after.wf(),
            after.entries_model() == before.entries_model().push(after.entries_model().last()),
            before.has_entry(id),
        ensures
            after.has_entry(id),
            after.index_of(id) == before.index_of(id),
            after.entries_model()[after.index_of(id)] == before.entries_model()[before.index_of(
                id,
            )],
    {
        let bes = before.entries_model();
        let aes = after.entries_model();
        let w = before.index_of(id);
        assert(0 <= w < bes.len() && bes[w].metadata.id == id);
        assert(aes[w] == bes[w]);
        assert(after.has_entry(id));
        let w2 = after.index_of(id);
        assert(0 <= w2 < aes.len() && aes[w2].metadata.id == id);
        if w2 != w {
            if w2 < bes.len() {
                assert(aes[w2] == bes[w2]);
                if w2 < w {
                    assert(bes[w2].metadata.id < bes[w].metadata.id);
                } else {
                    assert(bes[w].metadata.id < bes[w2].metadata.id);
                }
            } else {
                assert(w < w2);
                assert(aes[w].metadata.id < aes[w2].metadata.id);
            }
        }
    }

    /// The change ring keeps the newest `CHANGE_RING` registry changes.
    pub proof fn lemma_changes_window(&self)
        requires
            self.wf(),
        ensures
            self.changes_first_retained() == (if self.changes_model().len()
                > crate::value_stream::CHANGE_RING {
                self.changes_model().len() - crate::value_stream::CHANGE_RING
            } else {
                0int
            }),
    {
        self.changes.lemma_window();
    }

    /// A subscription that will see exactly the registry changes
    /// broadcast after this call.
    pub fn subscribe_changes(&self) -> (sub: Subscription)
        requires
            self.wf(),
        ensures
            sub.next == self.changes_model().len(),
    {
        self.changes.subscribe()
    }

    /// One receive step on a registry change subscription.
    pub fn recv_change<'a>(&'a self, sub: &mut Subscription) -> (r: RecvOutcome<
        'a,
        DataStreamResourceChange,
    >)
        requires
            self.wf(),
        ensures
            old(sub).next >= self.changes_model().len() ==> r is Empty && *final(sub) == *old(sub),
            (old(sub).next as int) < self.changes_first_retained() ==> {
                &&& r matches RecvOutcome::Lagged(n)
                &&& final(sub).next == self.changes_first_retained()
            },
            self.changes_first_retained() <= old(sub).next as int && (old(sub).next as int)
                < self.changes_model().len() ==> {
                &&& r matches RecvOutcome::Event(ev) && resource_change_model(*ev)
                    == self.changes_model()[old(sub).next as int]
                &&& final(sub).next == old(sub).next + 1
            },
    {
        self.changes.recv(sub)
    }

    /// The number of entries.
    pub fn entry_count(&self) -> (r: usize)
        ensures
            r == self.entries_model().len(),
    {
        self.entries.len()
    }

    /// The entry at a position, in id order.
    pub fn entry_at(&self, i: usize) -> (r: &RegistryEntry)
        requires
            i < self.entries_model().len(),
        ensures
            registry_entry_model(*r) == self.entries_model()[i as int],
    {
        proof {
            assert(self.entries_model()[i as int] == registry_entry_model(
                self.entries@[i as int],
            ));
        }
        &self.entries[i]
    }

    /// Removes the entry with the given id, tears its stream down, and
    /// broadcasts `Removed`. Returns whether an entry was removed; a
    /// missing id is not an error.
    #[verifier::loop_isolation(false)]
    pub fn remove(&mut self, id: ResourceId, table: &mut StreamTable) -> (r: bool)
        requires
            old(self).wf(),
            old(self).changes_model().len() < u64::MAX,
            old(table).wf(),
            old(self).keys_bounded(old(table).model().len() as int),
            forall|i: int|
                0 <= i < old(table).model().len() ==> (#[trigger] old(table).model()[i]).updates_len()
                    < u64::MAX,
        ensures
            final(self).wf(),
            final(table).wf(),
            final(table).model().len() == old(table).model().len(),
            r == old(self).has_entry(id),
            final(self).next_id() == old(self).next_id(),
            r ==> {
                let key = old(self).entries_model()[old(self).index_of(id)].stream;
                &&& final(self).entries_model() == old(self).entries_model().remove(
                    old(self).index_of(id),
                )
                &&& final(self).changes_model() == old(self).changes_model().push(
                    ResourceChangeModel::Removed(id),
                )
                &&& final(table).model() == old(table).model().update(
                    key,
                    final(table).model()[key],
                )
                &&& DataStream::destroyed_step(
                    old(table).model()[key],
                    final(table).model()[key],
                )
            },
            !r ==> *final(self) == *old(self) && *final(table) == *old(table),
    {
        let ghost entries_before = self.entries_model();
        let mut i: usize = 0;
        while i < self.entries.len()
            invariant
                0 <= i <= self.entries@.len(),
                entries_before == self.entries_model(),
                *self == *old(self),
                *table == *old(table),
                forall|k: int|
                    0 <= k < i ==> (#[trigger] self.entries_model()[k]).metadata.id != id,
            decreases self.entries@.len() - i,
        {
            proof {
                assert(self.entries_model()[i as int] == registry_entry_model(
                    self.entries@[i as int],
                ));
            }
            if self.entries[i].metadata.id == id {
                let key = self.entries[i].stream;
                proof {
                    assert(self.entries_model()[i as int].stream == key as int);
                    assert((key as int) < table.model().len());
                    assert(table.model()[key as int].wf());
                    assert(table.model()[key as int].updates_len() < u64::MAX);
                }
                let ghost table_before = table.model();
                table.get_mut(key).destroy();
                proof {
                    assert forall|x: int| 0 <= x < table.model().len() implies (
                    #[trigger] table.model()[x]).wf() by {
                        if x != key as int {
                            assert(table.model()[x] == table_before[x]);
                        }
                    }
                }
                let ghost changes_before = self.changes.history();
                self.entries.remove(i);
                self.changes.send(DataStreamResourceChange::Removed(id));
                proof {
                    assert(self.entries_model() =~= entries_before.remove(i as int));
                    assert(old(self).has_entry(id)) by {
                        assert(entries_before[i as int].metadata.id == id);
                    }
                    assert(old(self).index_of(id) == i as int) by {
                        let w = old(self).index_of(id);
                        assert(entries_before[i as int].metadata.id == id);
                        if 0 <= w < entries_before.len() && w != i as int {
                            if w < i as int {
                                assert(entries_before[w].metadata.id != id);
                            } else {
                                assert(entries_before[i as int].metadata.id
                                    < entries_before[w].metadata.id);
                            }
                        }
                    }
                    assert(self.changes_model() =~= changes_before.map_values(
                        |c: DataStreamResourceChange| resource_change_model(c),
                    ).push(ResourceChangeModel::Removed(id)));
                    assert forall|x: int, y: int|
                        0 <= x < y < self.entries_model().len() implies (
                    #[trigger] self.entries_model()[x]).metadata.id < (
                    #[trigger] self.entries_model()[y]).metadata.id by {
                        let bx = if x < i as int { x } else { x + 1 };
                        let by = if y < i as int { y } else { y + 1 };
                        assert(self.entries_model()[x] == entries_before[bx]);
                        assert(self.entries_model()[y] == entries_before[by]);
                    }
                    assert forall|x: int|
                        0 <= x < self.entries_model().len() implies (
                    #[trigger] self.entries_model()[x]).metadata.id < self.next by {
                        let bx = if x < i as int { x } else { x + 1 };
                        assert(self.entries_model()[x] == entries_before[bx]);
                    }
                }
                return true;
            }
            i = i + 1;
        }
        false
    }
}

} // verus!
