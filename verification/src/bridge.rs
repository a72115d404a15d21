//! The guest-facing bridge: the operations a guest performs on its
//! outputs and inputs, with codec blobs at the boundary. The bridge
//! decodes on ingress and encodes on egress; the registries and streams
//! do the rest.

use vstd::prelude::*;

use crate::codec::decode_full;
use crate::list_stream::ListChangeModel;
use crate::datastream::{DataStream, DataStreamType};
use crate::errors::{CommanderError, ErrorKind};
use crate::model::{TypeModel, ValueModel};
use crate::registry::{DataStreamStorage, ResourceId, StreamTable};
use crate::types::{dt_model, CommanderValue};
use crate::value_stream::ValueStream;

verus! {

/// The registry's keys point into the table and every stream there is
/// well-formed: the common precondition of every bridge operation.
pub open spec fn bridge_wf(reg: DataStreamStorage, table: StreamTable) -> bool {
    &&& reg.wf()
    &&& table.wf()
    &&& reg.keys_bounded(table.model().len() as int)
}

/// Every stream still has room in its histories; a machine limit that
/// every realistic run satisfies.
pub open spec fn stream_history_open(s: DataStream) -> bool {
    &&& s.updates_len() < u64::MAX
    &&& match s {
        DataStream::List(l) => l.requests_model().len() < u64::MAX,
        DataStream::Tree(t) => {
            &&& t.requests_model().len() < u64::MAX
            &&& t.updates_model().len() + t.entries_model().len() < u64::MAX
        },
        DataStream::Value(_) => true,
    }
}

/// Every stream in the table still has room in its histories.
pub open spec fn histories_open(table: StreamTable) -> bool {
    forall|i: int|
        0 <= i < table.model().len() ==> stream_history_open(#[trigger] table.model()[i])
}

/// Growing the table by one stream with empty histories keeps every
/// history within bounds, so the mutating operations stay available
/// after a creation.
pub proof fn lemma_histories_open_push(before: StreamTable, after: StreamTable)
    requires
        histories_open(before),
        after.model() == before.model().push(after.model().last()),
        stream_history_open(after.model().last()),
    ensures
        histories_open(after),
{
    assert forall|i: int| 0 <= i < after.model().len() implies stream_history_open(
        #[trigger] after.model()[i],
    ) by {
        if i < before.model().len() {
            assert(after.model()[i] == before.model()[i]);
        }
    }
}

/// Registers a fresh value-shaped output from a printed type and an
/// optional initial blob; the guest's `create-value-output`. Fails on a
/// malformed type text or a blob that does not decode against it, and
/// then changes nothing.
pub fn add_value_output(
    reg: &mut DataStreamStorage,
    table: &mut StreamTable,
    name: String,
    description: String,
    type_string: &str,
    initial_bytes: Option<&[u8]>,
) -> (r: Result<ResourceId, CommanderError>)
    requires
        bridge_wf(*old(reg), *old(table)),
        old(reg).can_allocate(),
        old(reg).changes_model().len() < u64::MAX,
    ensures
        bridge_wf(*final(reg), *final(table)),
        r is Ok <==> (crate::parse::parse_spec(type_string@) matches Some(t) && (
        match initial_bytes {
            Some(b) => decode_full(t, b@) is Ok,
            None => true,
        })),
        r is Ok ==> {
            &&& final(table).model() == old(table).model().push(final(table).model().last())
            &&& final(reg).entries_model() == old(reg).entries_model().push(
                final(reg).entries_model().last(),
            )
            &&& final(reg).next_id() == old(reg).next_id() + 1
            &&& final(reg).entries_model().last().metadata.data_type == crate::parse::parse_spec(
                type_string@,
            )->Some_0
            &&& final(reg).entries_model().last().metadata.id == r->Ok_0
            &&& r->Ok_0 == old(reg).next_id()
            &&& final(reg).entries_model().last().metadata.data_stream_type
                == DataStreamType::Value
            &&& final(reg).entries_model().last().stream == old(table).model().len() as int
            &&& final(table).model().last() matches DataStream::Value(v) && v.updates_model()
                == Seq::<crate::value_stream::ValueChangeModel>::empty() && v.current() == (
            match initial_bytes {
                Some(b) => Some(
                    decode_full(crate::parse::parse_spec(type_string@)->Some_0, b@)->Ok_0,
                ),
                None => None::<ValueModel>,
            })
        },
        r matches Err(e) ==> *final(reg) == *old(reg) && *final(table) == *old(table),
{
    let data_type = match crate::parse::parse(type_string) {
        Ok(t) => t,
        Err(e) => {
            return Err(e);
        },
    };
    let initial: Option<CommanderValue> = match initial_bytes {
        Some(b) => match data_type.decode(b) {
            Ok(v) => Some(v),
            Err(e) => {
                return Err(e);
            },
        },
        None => None,
    };
    let key = table.add_stream(DataStream::Value(ValueStream::new(initial)));
    let ghost entries_before = reg.entries_model();
    proof {
        assert(table.model()[key as int] == table.model().last());
    }
    let id = reg.add(name, description, data_type, DataStreamType::Value, key, table);
    proof {
        assert forall|i: int| 0 <= i < reg.entries_model().len() implies (
        #[trigger] reg.entries_model()[i]).stream < table.model().len() as int by {
            if i < entries_before.len() {
                assert(reg.entries_model()[i] == entries_before[i]);
            }
        }
    }
    Ok(id)
}

/// Registers a fresh, empty list-shaped output from a printed type; the
/// guest's `create-list-output`.
pub fn add_list_output(
    reg: &mut DataStreamStorage,
    table: &mut StreamTable,
    name: String,
    description: String,
    type_string: &str,
) -> (r: Result<ResourceId, CommanderError>)
    requires
        bridge_wf(*old(reg), *old(table)),
        old(reg).can_allocate(),
        old(reg).changes_model().len() < u64::MAX,
    ensures
        bridge_wf(*final(reg), *final(table)),
        r is Ok <==> crate::parse::parse_spec(type_string@) is Some,
        r is Ok ==> {
            &&& final(table).model() == old(table).model().push(final(table).model().last())
            &&& final(reg).entries_model() == old(reg).entries_model().push(
                final(reg).entries_model().last(),
            )
            &&& final(reg).next_id() == old(reg).next_id() + 1
            &&& final(reg).entries_model().last().metadata.data_type == crate::parse::parse_spec(
                type_string@,
            )->Some_0
            &&& final(reg).entries_model().last().metadata.id == r->Ok_0
            &&& r->Ok_0 == old(reg).next_id()
            &&& final(reg).entries_model().last().metadata.data_stream_type == DataStreamType::List
            &&& final(reg).entries_model().last().stream == old(table).model().len() as int
            &&& final(table).model().last() matches DataStream::List(l) && l.items_model()
                == Seq::<ValueModel>::empty() && l.updates_model() == Seq::<
                crate::list_stream::ListChangeModel,
            >::empty() && l.requests_model() == Seq::<u32>::empty() && !l.has_more()
        },
        r matches Err(e) ==> *final(reg) == *old(reg) && *final(table) == *old(table),
{
    let data_type = match crate::parse::parse(type_string) {
        Ok(t) => t,
        Err(e) => {
            return Err(e);
        },
    };
    let key = table.add_stream(DataStream::List(crate::list_stream::ListStream::new()));
    let ghost entries_before = reg.entries_model();
    proof {
        assert(table.model()[key as int] == table.model().last());
    }
    let id = reg.add(name, description, data_type, DataStreamType::List, key, table);
    proof {
        assert forall|i: int| 0 <= i < reg.entries_model().len() implies (
        #[trigger] reg.entries_model()[i]).stream < table.model().len() as int by {
            if i < entries_before.len() {
                assert(reg.entries_model()[i] == entries_before[i]);
            }
        }
    }
    Ok(id)
}

/// Registers a fresh, empty tree-shaped output from a printed type; the
/// guest's `create-tree-output`.
pub fn add_tree_output(
    reg: &mut DataStreamStorage,
    table: &mut StreamTable,
    name: String,
    description: String,
    type_string: &str,
) -> (r: Result<ResourceId, CommanderError>)
    requires
        bridge_wf(*old(reg), *old(table)),
        old(reg).can_allocate(),
        old(reg).changes_model().len() < u64::MAX,
    ensures
        bridge_wf(*final(reg), *final(table)),
        r is Ok <==> crate::parse::parse_spec(type_string@) is Some,
        r is Ok ==> {
            &&& final(table).model() == old(table).model().push(final(table).model().last())
            &&& final(reg).entries_model() == old(reg).entries_model().push(
                final(reg).entries_model().last(),
            )
            &&& final(reg).next_id() == old(reg).next_id() + 1
            &&& final(reg).entries_model().last().metadata.data_type == crate::parse::parse_spec(
                type_string@,
            )->Some_0
            &&& final(reg).entries_model().last().metadata.id == r->Ok_0
            &&& r->Ok_0 == old(reg).next_id()
            &&& final(reg).entries_model().last().metadata.data_stream_type == DataStreamType::Tree
            &&& final(reg).entries_model().last().stream == old(table).model().len() as int
            &&& final(table).model().last() matches DataStream::Tree(t) && t.entries_model()
                == Seq::<crate::tree_stream::TreeEntryModel>::empty() && t.updates_model()
                == Seq::<crate::tree_stream::TreeChangeModel>::empty() && t.requests_model()
                == Seq::<Seq<char>>::empty()
        },
        r matches Err(e) ==> *final(reg) == *old(reg) && *final(table) == *old(table),
{
    let data_type = match crate::parse::parse(type_string) {
        Ok(t) => t,
        Err(e) => {
            return Err(e);
        },
    };
    let key = table.add_stream(DataStream::Tree(crate::tree_stream::TreeStream::new()));
    let ghost entries_before = reg.entries_model();
    proof {
        assert(table.model()[key as int] == table.model().last());
    }
    let id = reg.add(name, description, data_type, DataStreamType::Tree, key, table);
    proof {
        assert forall|i: int| 0 <= i < reg.entries_model().len() implies (
        #[trigger] reg.entries_model()[i]).stream < table.model().len() as int by {
            if i < entries_before.len() {
                assert(reg.entries_model()[i] == entries_before[i]);
            }
        }
    }
    Ok(id)
}

/// Decodes a blob against an entry's declared type and sets it as the
/// current value of the entry's value-shaped stream; the guest's
/// `value-output.set`.
pub fn value_output_set(
    reg: &DataStreamStorage,
    table: &mut StreamTable,
    id: ResourceId,
    bytes: &[u8],
) -> (r: Result<(), CommanderError>)
    requires
        bridge_wf(*reg, *old(table)),
        histories_open(*old(table)),
    ensures
        bridge_wf(*reg, *final(table)),
        final(table).model().len() == old(table).model().len(),
        r is Ok <==> (reg.has_entry(id) && decode_full(
            reg.entries_model()[reg.index_of(id)].metadata.data_type,
            bytes@,
        ) is Ok && old(table).model()[reg.entries_model()[reg.index_of(id)].stream] is Value),
        r is Ok ==> {
            &&& final(table).model() == old(table).model().update(
                reg.entries_model()[reg.index_of(id)].stream,
                DataStream::Value(final(table).model()[reg.entries_model()[reg.index_of(id)].stream]->Value_0),
            )
            &&& final(table).model()[reg.entries_model()[reg.index_of(id)].stream] matches DataStream::Value(v) && {
                let before = old(table).model()[reg.entries_model()[reg.index_of(id)].stream]->Value_0;
                let decoded = decode_full(
                    reg.entries_model()[reg.index_of(id)].metadata.data_type,
                    bytes@,
                )->Ok_0;
                &&& v.current() == Some(decoded)
                &&& v.updates_model() == before.updates_model().push(
                    crate::value_stream::ValueChangeModel::SetTo(decoded),
                )
            }
        },
        r matches Err(e) ==> *final(table) == *old(table) && (e.kind == ErrorKind::NotFound
            || e.kind == ErrorKind::TypeMismatch || e.kind == ErrorKind::CodecDecode),
{
    let entry = match reg.get(id) {
        Some(e) => e,
        None => {
            return Err(
                CommanderError::new(
                    ErrorKind::NotFound,
                    crate::strings::str_to_string("no stream is registered under this id"),
                ),
            );
        },
    };
    let value = match entry.metadata.data_type.decode(bytes) {
        Ok(v) => v,
        Err(e) => {
            return Err(e);
        },
    };
    let key = entry.stream;
    proof {
        assert(reg.has_entry(id));
        assert(0 <= reg.index_of(id) < reg.entries_model().len());
        assert(reg.entries_model()[reg.index_of(id)].stream == key as int);
        assert(*table == *old(table));
        assert(reg.keys_bounded(table.model().len() as int));
        assert((key as int) < table.model().len());
        assert(table.model()[key as int].wf());
        assert(table.model()[key as int].updates_len() < u64::MAX);
    }
    let kind = table.get(key).stream_type();
    if !matches!(kind, DataStreamType::Value) {
        return Err(
            CommanderError::new(
                ErrorKind::TypeMismatch,
                crate::strings::str_to_string("the stream is not value-shaped"),
            ),
        );
    }
    let ghost table_before = table.model();
    let slot = table.get_mut(key);
    match slot.try_get_value_mut() {
        Ok(v) => {
            v.set(value);
            proof {
                assert forall|x: int| 0 <= x < table.model().len() implies (
                #[trigger] table.model()[x]).wf() by {
                    if x != key as int {
                        assert(table.model()[x] == table_before[x]);
                    }
                }
            }
            Ok(())
        },
        Err(e) => {
            proof {
                assert(false);
            }
            Err(e)
        },
    }
}

} // verus!

verus! {

/// Decodes a blob against an entry's declared type and appends it to
/// the entry's list-shaped stream; the guest's `list-output.add`.
pub fn list_output_add(
    reg: &DataStreamStorage,
    table: &mut StreamTable,
    id: ResourceId,
    bytes: &[u8],
) -> (r: Result<(), CommanderError>)
    requires
        bridge_wf(*reg, *old(table)),
        histories_open(*old(table)),
    ensures
        bridge_wf(*reg, *final(table)),
        final(table).model().len() == old(table).model().len(),
        r is Ok <==> (reg.has_entry(id) && (reg.entries_model()[reg.index_of(
            id,
        )].metadata.data_type matches TypeModel::List { elem } && decode_full(*elem, bytes@) is Ok)
            && old(table).model()[reg.entries_model()[reg.index_of(id)].stream] is List),
        r is Ok ==> {
            let key = reg.entries_model()[reg.index_of(id)].stream;
            let before = old(table).model()[key]->List_0;
            let decoded = decode_full(
                *reg.entries_model()[reg.index_of(id)].metadata.data_type->List_elem,
                bytes@,
            )->Ok_0;
            &&& final(table).model() == old(table).model().update(
                key,
                DataStream::List(final(table).model()[key]->List_0),
            )
            &&& final(table).model()[key] matches DataStream::List(l) && l.items_model()
                == before.items_model().push(decoded) && l.updates_model()
                == before.updates_model().push(crate::list_stream::ListChangeModel::Add(decoded))
        },
        r matches Err(e) ==> *final(table) == *old(table),
{
    let entry = match reg.get(id) {
        Some(e) => e,
        None => {
            return Err(
                CommanderError::new(
                    ErrorKind::NotFound,
                    crate::strings::str_to_string("no stream is registered under this id"),
                ),
            );
        },
    };
    let element_type = match &entry.metadata.data_type {
        crate::types::CommanderDataType::List(lt) => &lt.element,
        _ => {
            return Err(
                CommanderError::new(
                    ErrorKind::TypeMismatch,
                    crate::strings::str_to_string("the entry does not declare a list type"),
                ),
            );
        },
    };
    let value = match element_type.decode(bytes) {
        Ok(v) => v,
        Err(e) => {
            return Err(e);
        },
    };
    let key = entry.stream;
    proof {
        assert(reg.has_entry(id));
        assert(reg.entries_model()[reg.index_of(id)].stream == key as int);
        assert((key as int) < table.model().len());
        assert(table.model()[key as int].wf());
        assert(crate::bridge::stream_history_open(table.model()[key as int]));
    }
    let kind = table.get(key).stream_type();
    if !matches!(kind, DataStreamType::List) {
        return Err(
            CommanderError::new(
                ErrorKind::TypeMismatch,
                crate::strings::str_to_string("the stream is not list-shaped"),
            ),
        );
    }
    let ghost table_before = table.model();
    let slot = table.get_mut(key);
    match slot.try_get_list_mut() {
        Ok(l) => {
            l.add(value);
            proof {
                assert forall|x: int| 0 <= x < table.model().len() implies (
                #[trigger] table.model()[x]).wf() by {
                    if x != key as int {
                        assert(table.model()[x] == table_before[x]);
                    }
                }
            }
            Ok(())
        },
        Err(e) => {
            proof {
                assert(false);
            }
            Err(e)
        },
    }
}

/// Removes the last value of the entry's list-shaped stream; the
/// guest's `list-output.pop`. An empty list fails with
/// `InvalidOperation`.
pub fn list_output_pop(reg: &DataStreamStorage, table: &mut StreamTable, id: ResourceId) -> (r:
    Result<(), CommanderError>)
    requires
        bridge_wf(*reg, *old(table)),
        histories_open(*old(table)),
    ensures
        bridge_wf(*reg, *final(table)),
        final(table).model().len() == old(table).model().len(),
        r is Ok <==> (reg.has_entry(id) && (old(table).model()[reg.entries_model()[reg.index_of(
            id,
        )].stream] matches DataStream::List(l) && l.items_model().len() > 0)),
        r is Ok ==> {
            let key = reg.entries_model()[reg.index_of(id)].stream;
            let before = old(table).model()[key]->List_0;
            &&& final(table).model() == old(table).model().update(
                key,
                DataStream::List(final(table).model()[key]->List_0),
            )
            &&& final(table).model()[key] matches DataStream::List(l) && l.items_model()
                == before.items_model().drop_last() && l.updates_model()
                == before.updates_model().push(
                crate::list_stream::ListChangeModel::Pop(before.items_model().last()),
            )
        },
{
    let entry = match reg.get(id) {
        Some(e) => e,
        None => {
            return Err(
                CommanderError::new(
                    ErrorKind::NotFound,
                    crate::strings::str_to_string("no stream is registered under this id"),
                ),
            );
        },
    };
    let key = entry.stream;
    proof {
        assert(reg.has_entry(id));
        assert(reg.entries_model()[reg.index_of(id)].stream == key as int);
        assert((key as int) < table.model().len());
        assert(table.model()[key as int].wf());
        assert(crate::bridge::stream_history_open(table.model()[key as int]));
    }
    let kind = table.get(key).stream_type();
    if !matches!(kind, DataStreamType::List) {
        return Err(
            CommanderError::new(
                ErrorKind::TypeMismatch,
                crate::strings::str_to_string("the stream is not list-shaped"),
            ),
        );
    }
    let ghost table_before = table.model();
    let slot = table.get_mut(key);
    match slot.try_get_list_mut() {
        Ok(l) => {
            let res = l.pop();
            proof {
                assert forall|x: int| 0 <= x < table.model().len() implies (
                #[trigger] table.model()[x]).wf() by {
                    if x != key as int {
                        assert(table.model()[x] == table_before[x]);
                    }
                }
                if res is Err {
                    assert(table.model() =~= table_before);
                }
            }
            res
        },
        Err(e) => {
            proof {
                assert(false);
            }
            Err(e)
        },
    }
}

/// Records the paging flag on the entry's list-shaped stream; the
/// guest's `list-output.set-has-more-rows`.
pub fn list_output_set_has_more_rows(
    reg: &DataStreamStorage,
    table: &mut StreamTable,
    id: ResourceId,
    has_more: bool,
) -> (r: Result<(), CommanderError>)
    requires
        bridge_wf(*reg, *old(table)),
        histories_open(*old(table)),
    ensures
        bridge_wf(*reg, *final(table)),
        final(table).model().len() == old(table).model().len(),
        r is Ok <==> (reg.has_entry(id) && old(table).model()[reg.entries_model()[reg.index_of(
            id,
        )].stream] is List),
        r is Ok ==> {
            let key = reg.entries_model()[reg.index_of(id)].stream;
            let before = old(table).model()[key]->List_0;
            &&& final(table).model() == old(table).model().update(
                key,
                DataStream::List(final(table).model()[key]->List_0),
            )
            &&& final(table).model()[key] matches DataStream::List(l) && l.has_more() == has_more
                && l.items_model() == before.items_model() && l.updates_model()
                == before.updates_model().push(
                crate::list_stream::ListChangeModel::HasMorePages(has_more),
            )
        },
{
    let entry = match reg.get(id) {
        Some(e) => e,
        None => {
            return Err(
                CommanderError::new(
                    ErrorKind::NotFound,
                    crate::strings::str_to_string("no stream is registered under this id"),
                ),
            );
        },
    };
    let key = entry.stream;
    proof {
        assert(reg.has_entry(id));
        assert(reg.entries_model()[reg.index_of(id)].stream == key as int);
        assert((key as int) < table.model().len());
        assert(table.model()[key as int].wf());
        assert(crate::bridge::stream_history_open(table.model()[key as int]));
    }
    let kind = table.get(key).stream_type();
    if !matches!(kind, DataStreamType::List) {
        return Err(
            CommanderError::new(
                ErrorKind::TypeMismatch,
                crate::strings::str_to_string("the stream is not list-shaped"),
            ),
        );
    }
    let ghost table_before = table.model();
    let slot = table.get_mut(key);
    match slot.try_get_list_mut() {
        Ok(l) => {
            l.set_has_more_rows(has_more);
            proof {
                assert forall|x: int| 0 <= x < table.model().len() implies (
                #[trigger] table.model()[x]).wf() by {
                    if x != key as int {
                        assert(table.model()[x] == table_before[x]);
                    }
                }
            }
            Ok(())
        },
        Err(e) => {
            proof {
                assert(false);
            }
            Err(e)
        },
    }
}

/// Requests one more page on the entry's list-shaped stream; the
/// guest's `list-input.request-more` and a host ref's `loadMore`.
/// Returns whether the request was sent.
pub fn list_request_page(
    reg: &DataStreamStorage,
    table: &mut StreamTable,
    id: ResourceId,
    limit: u32,
) -> (r: Result<bool, CommanderError>)
    requires
        bridge_wf(*reg, *old(table)),
        histories_open(*old(table)),
    ensures
        bridge_wf(*reg, *final(table)),
        final(table).model().len() == old(table).model().len(),
        r is Ok <==> (reg.has_entry(id) && old(table).model()[reg.entries_model()[reg.index_of(
            id,
        )].stream] is List),
        r matches Ok(sent) ==> {
            let key = reg.entries_model()[reg.index_of(id)].stream;
            let before = old(table).model()[key]->List_0;
            &&& sent == before.has_more()
            &&& final(table).model() == old(table).model().update(
                key,
                DataStream::List(final(table).model()[key]->List_0),
            )
            &&& final(table).model()[key] matches DataStream::List(l) && l.items_model()
                == before.items_model() && l.updates_model() == before.updates_model() && (sent
                ==> l.requests_model() == before.requests_model().push(limit)) && (!sent ==> l
                == before)
        },
{
    let entry = match reg.get(id) {
        Some(e) => e,
        None => {
            return Err(
                CommanderError::new(
                    ErrorKind::NotFound,
                    crate::strings::str_to_string("no stream is registered under this id"),
                ),
            );
        },
    };
    let key = entry.stream;
    proof {
        assert(reg.has_entry(id));
        assert(reg.entries_model()[reg.index_of(id)].stream == key as int);
        assert((key as int) < table.model().len());
        assert(table.model()[key as int].wf());
        assert(crate::bridge::stream_history_open(table.model()[key as int]));
    }
    let kind = table.get(key).stream_type();
    if !matches!(kind, DataStreamType::List) {
        return Err(
            CommanderError::new(
                ErrorKind::TypeMismatch,
                crate::strings::str_to_string("the stream is not list-shaped"),
            ),
        );
    }
    let ghost table_before = table.model();
    let slot = table.get_mut(key);
    match slot.try_get_list_mut() {
        Ok(l) => {
            let sent = l.request_page(limit);
            proof {
                assert forall|x: int| 0 <= x < table.model().len() implies (
                #[trigger] table.model()[x]).wf() by {
                    if x != key as int {
                        assert(table.model()[x] == table_before[x]);
                    }
                }
            }
            Ok(sent)
        },
        Err(e) => {
            proof {
                assert(false);
            }
            Err(e)
        },
    }
}

/// Requests the children of a node on the entry's tree-shaped stream;
/// the guest's `tree-input.request-children` and a host ref's
/// `requestChildren`. Returns whether the request was sent.
pub fn tree_request_children(
    reg: &DataStreamStorage,
    table: &mut StreamTable,
    id: ResourceId,
    parent: &str,
) -> (r: Result<bool, CommanderError>)
    requires
        bridge_wf(*reg, *old(table)),
        histories_open(*old(table)),
    ensures
        bridge_wf(*reg, *final(table)),
        final(table).model().len() == old(table).model().len(),
        r is Ok <==> (reg.has_entry(id) && old(table).model()[reg.entries_model()[reg.index_of(
            id,
        )].stream] is Tree),
        r matches Ok(sent) ==> {
            let key = reg.entries_model()[reg.index_of(id)].stream;
            let before = old(table).model()[key]->Tree_0;
            &&& sent == crate::tree_stream::has_id(before.entries_model(), parent@)
            &&& final(table).model() == old(table).model().update(
                key,
                DataStream::Tree(final(table).model()[key]->Tree_0),
            )
            &&& final(table).model()[key] matches DataStream::Tree(t) && t.entries_model()
                == before.entries_model() && t.updates_model() == before.updates_model() && (sent
                ==> t.requests_model() == before.requests_model().push(parent@)) && (!sent ==> t
                == before)
        },
{
    let entry = match reg.get(id) {
        Some(e) => e,
        None => {
            return Err(
                CommanderError::new(
                    ErrorKind::NotFound,
                    crate::strings::str_to_string("no stream is registered under this id"),
                ),
            );
        },
    };
    let key = entry.stream;
    proof {
        assert(reg.has_entry(id));
        assert(reg.entries_model()[reg.index_of(id)].stream == key as int);
        assert((key as int) < table.model().len());
        assert(table.model()[key as int].wf());
        assert(crate::bridge::stream_history_open(table.model()[key as int]));
    }
    let kind = table.get(key).stream_type();
    if !matches!(kind, DataStreamType::Tree) {
        return Err(
            CommanderError::new(
                ErrorKind::TypeMismatch,
                crate::strings::str_to_string("the stream is not tree-shaped"),
            ),
        );
    }
    let ghost table_before = table.model();
    let slot = table.get_mut(key);
    match slot.try_get_tree_mut() {
        Ok(t) => {
            let sent = t.request_children(parent);
            proof {
                assert forall|x: int| 0 <= x < table.model().len() implies (
                #[trigger] table.model()[x]).wf() by {
                    if x != key as int {
                        assert(table.model()[x] == table_before[x]);
                    }
                }
            }
            Ok(sent)
        },
        Err(e) => {
            proof {
                assert(false);
            }
            Err(e)
        },
    }
}

/// The current value of a value-shaped input, encoded against the
/// entry's declared type; the guest's `value-input.get`. `None` when no
/// value is set.
pub fn value_input_get(reg: &DataStreamStorage, table: &StreamTable, id: ResourceId) -> (r: Result<
    Option<Vec<u8>>,
    CommanderError,
>)
    requires
        bridge_wf(*reg, *table),
    ensures
        r is Ok <==> (reg.has_entry(id) && (table.model()[reg.entries_model()[reg.index_of(
            id,
        )].stream] matches DataStream::Value(v) && (match v.current() {
            Some(cur) => crate::model::value_wf(
                cur,
                reg.entries_model()[reg.index_of(id)].metadata.data_type,
            ),
            None => true,
        }))),
        r matches Ok(b) ==> reg.has_entry(id) && (table.model()[reg.entries_model()[reg.index_of(
            id,
        )].stream] matches DataStream::Value(v) && (match b {
            Some(bs) => (v.current() matches Some(cur) && bs@ == crate::codec::encode_value(
                reg.entries_model()[reg.index_of(id)].metadata.data_type,
                cur,
            )),
            None => v.current() is None,
        })),
        r matches Err(e) ==> (e.kind == ErrorKind::NotFound <==> !reg.has_entry(id)) && (e.kind
            == ErrorKind::NotFound || e.kind == ErrorKind::TypeMismatch),
{
    let entry = match reg.get(id) {
        Some(e) => e,
        None => {
            return Err(
                CommanderError::new(
                    ErrorKind::NotFound,
                    crate::strings::str_to_string("no stream is registered under this id"),
                ),
            );
        },
    };
    let key = entry.stream;
    proof {
        assert(reg.has_entry(id));
        assert(reg.entries_model()[reg.index_of(id)].stream == key as int);
        assert((key as int) < table.model().len());
    }
    let current = match table.get(key).try_get_value() {
        Ok(v) => v.snapshot(),
        Err(e) => {
            return Err(e);
        },
    };
    match current {
        Some(v) => match entry.metadata.data_type.encode(&v) {
            Ok(b) => Ok(Some(b)),
            Err(e) => Err(e),
        },
        None => Ok(None),
    }
}

} // verus!

verus! {

/// A list change as a guest sees it: payloads are codec blobs.
#[derive(Debug, PartialEq, Eq)]
pub enum ListWireChange {
    Append(Vec<u8>),
    Pop,
    Replace(Vec<Vec<u8>>),
    HasMorePages(bool),
}

/// A polling cursor over one input's changes. It multiplexes the
/// current underlying stream's changes with the registry's
/// `DataStreamChanged` events for its id: a replacement is processed
/// strictly before any event of the new stream, as a synthetic
/// `Replace` carrying the new stream's snapshot.
pub struct InputChangeStream {
    pub input_id: ResourceId,
    pub data_type: crate::types::CommanderDataType,
    pub stream_key: crate::registry::StreamKey,
    pub stream_sub: crate::broadcast::Subscription,
    pub registry_sub: crate::broadcast::Subscription,
}

/// The position of the first pending `DataStreamChanged(id)` at or
/// after `from`, or the history length when none is pending.
pub open spec fn next_relevant(
    changes: Seq<crate::registry::ResourceChangeModel>,
    from: int,
    id: ResourceId,
) -> int
    decreases changes.len() - from,
{
    if from < 0 || from >= changes.len() {
        changes.len() as int
    } else if changes[from] == crate::registry::ResourceChangeModel::DataStreamChanged(id) {
        from
    } else {
        next_relevant(changes, from + 1, id)
    }
}

/// Allocates a fresh cursor over a list-shaped input: it will see the
/// changes of the input's current stream from now on, and every later
/// rebinding of the input.
pub fn new_list_change_stream(
    reg: &DataStreamStorage,
    table: &StreamTable,
    id: ResourceId,
) -> (r: Result<InputChangeStream, CommanderError>)
    requires
        bridge_wf(*reg, *table),
    ensures
        r is Ok <==> (reg.has_entry(id) && table.model()[reg.entries_model()[reg.index_of(
            id,
        )].stream] is List && reg.entries_model()[reg.index_of(
            id,
        )].metadata.data_type is List),
        r matches Ok(cur) ==> {
            let entry = reg.entries_model()[reg.index_of(id)];
            &&& cur.input_id == id
            &&& dt_model(cur.data_type) == *entry.metadata.data_type->List_elem
            &&& cur.stream_key as int == entry.stream
            &&& cur.stream_sub.next == table.model()[entry.stream]->List_0.updates_model().len()
            &&& cur.registry_sub.next == reg.changes_model().len()
        },
{
    let entry = match reg.get(id) {
        Some(e) => e,
        None => {
            return Err(
                CommanderError::new(
                    ErrorKind::NotFound,
                    crate::strings::str_to_string("no stream is registered under this id"),
                ),
            );
        },
    };
    let key = entry.stream;
    proof {
        assert(reg.has_entry(id));
        assert(reg.entries_model()[reg.index_of(id)].stream == key as int);
        assert((key as int) < table.model().len());
    }
    let stream = match table.get(key).try_get_list() {
        Ok(l) => l,
        Err(e) => {
            return Err(e);
        },
    };
    let element_type = match &entry.metadata.data_type {
        crate::types::CommanderDataType::List(lt) => &lt.element,
        _ => {
            return Err(
                CommanderError::new(
                    ErrorKind::TypeMismatch,
                    crate::strings::str_to_string("the entry does not declare a list type"),
                ),
            );
        },
    };
    Ok(
        InputChangeStream {
            input_id: id,
            data_type: crate::parse::clone_data_type(element_type),
            stream_key: key,
            stream_sub: stream.subscribe(),
            registry_sub: reg.subscribe_changes(),
        },
    )
}

/// Encodes every value of a snapshot against one type, for a `Replace`
/// payload. Fails with `TypeMismatch` when a value does not match.
#[verifier::loop_isolation(false)]
fn encode_snapshot(
    t: &crate::types::CommanderDataType,
    items: &Vec<crate::types::CommanderValue>,
) -> (r: Result<Vec<Vec<u8>>, CommanderError>)
    ensures
        r is Ok <==> crate::model::list_value_wf(
            crate::types::values_model(items@),
            dt_model(*t),
        ),
        r matches Ok(bs) ==> bs@.len() == items@.len() && forall|i: int|
            0 <= i < bs@.len() ==> (#[trigger] bs@[i])@ == crate::codec::encode_value(
                dt_model(*t),
                crate::types::values_model(items@)[i],
            ),
        r matches Err(e) ==> e.kind == ErrorKind::TypeMismatch,
{
    proof {
        crate::types::lemma_values_model_index(items@);
        crate::model::lemma_list_value_wf_index(crate::types::values_model(items@), dt_model(*t));
    }
    let mut out: Vec<Vec<u8>> = Vec::new();
    let mut i: usize = 0;
    while i < items.len()
        invariant
            0 <= i <= items@.len(),
            out@.len() == i,
            forall|k: int|
                0 <= k < items@.len() ==> #[trigger] crate::types::values_model(items@)[k]
                    == crate::types::value_model(items@[k]),
            forall|k: int|
                0 <= k < i ==> crate::model::value_wf(
                    #[trigger] crate::types::values_model(items@)[k],
                    dt_model(*t),
                ),
            forall|k: int|
                0 <= k < i ==> (#[trigger] out@[k])@ == crate::codec::encode_value(
                    dt_model(*t),
                    crate::types::values_model(items@)[k],
                ),
        decreases items@.len() - i,
    {
        match t.encode(&items[i]) {
            Ok(b) => {
                out.push(b);
            },
            Err(e) => {
                proof {
                    assert(!crate::model::value_wf(
                        crate::types::values_model(items@)[i as int],
                        dt_model(*t),
                    ));
                }
                return Err(e);
            },
        }
        i = i + 1;
    }
    proof {
        crate::model::lemma_list_value_wf_index(crate::types::values_model(items@), dt_model(*t));
    }
    Ok(out)
}

/// The synthetic `Replace` outcome: the stream's whole snapshot,
/// each value encoded against the input's declared element type; a
/// stored value that does not match fails with `TypeMismatch`.
pub open spec fn replace_of(
    stream: crate::list_stream::ListStream,
    dt: crate::types::CommanderDataType,
    r: Result<Option<ListWireChange>, CommanderError>,
) -> bool {
    &&& (crate::model::list_value_wf(stream.items_model(), dt_model(dt)) ==> (r matches Ok(c)
        && (c matches Some(w) && (w matches ListWireChange::Replace(bs) && bs@.len()
        == stream.items_model().len() && forall|i: int|
        0 <= i < bs@.len() ==> (#[trigger] bs@[i])@ == crate::codec::encode_value(
            dt_model(dt),
            stream.items_model()[i],
        )))))
    &&& (!crate::model::list_value_wf(stream.items_model(), dt_model(dt)) ==> (r matches Err(e)
        && e.kind == ErrorKind::TypeMismatch))
}

/// Builds the synthetic `Replace` change from a list stream's current
/// snapshot.
fn replace_snapshot(
    dt: &crate::types::CommanderDataType,
    stream: &crate::list_stream::ListStream,
) -> (r: Result<Option<ListWireChange>, CommanderError>)
    ensures
        replace_of(*stream, *dt, r),
{
    let snapshot = stream.snapshot();
    proof {
        crate::types::lemma_values_model_index(snapshot@);
    }
    match encode_snapshot(dt, &snapshot) {
        Ok(bs) => Ok(Some(ListWireChange::Replace(bs))),
        Err(e) => Err(e),
    }
}

/// Retargets a cursor to its input's current stream and yields the
/// synthetic snapshot; used after a rebinding and after a lost-events
/// gap on the registry, where a rebinding may have been missed.
fn resync_list_cursor(
    cur: &mut InputChangeStream,
    reg: &DataStreamStorage,
    table: &StreamTable,
) -> (r: Result<Option<ListWireChange>, CommanderError>)
    requires
        bridge_wf(*reg, *table),
        reg.has_entry(old(cur).input_id) ==> table.model()[reg.entries_model()[reg.index_of(
            old(cur).input_id,
        )].stream] is List,
    ensures
        final(cur).input_id == old(cur).input_id,
        final(cur).data_type == old(cur).data_type,
        final(cur).registry_sub == old(cur).registry_sub,
        reg.has_entry(old(cur).input_id) ==> ({
            let entry = reg.entries_model()[reg.index_of(old(cur).input_id)];
            &&& final(cur).stream_key as int == entry.stream
            &&& final(cur).stream_sub.next == table.model()[entry.stream]->List_0.updates_model().len()
            &&& replace_of(table.model()[entry.stream]->List_0, old(cur).data_type, r)
        }),
        !reg.has_entry(old(cur).input_id) ==> (r matches Err(e) && e.kind == ErrorKind::NotFound
            && *final(cur) == *old(cur)),
{
    let entry = match reg.get(cur.input_id) {
        Some(e) => e,
        None => {
            return Err(
                CommanderError::new(
                    ErrorKind::NotFound,
                    crate::strings::str_to_string("the input was removed"),
                ),
            );
        },
    };
    let key = entry.stream;
    proof {
        assert(reg.entries_model()[reg.index_of(cur.input_id)].stream == key as int);
        assert((key as int) < table.model().len());
    }
    let stream = match table.get(key).try_get_list() {
        Ok(l) => l,
        Err(e) => {
            proof {
                assert(false);
            }
            return Err(e);
        },
    };
    cur.stream_key = key;
    cur.stream_sub = stream.subscribe();
    replace_snapshot(&cur.data_type, stream)
}

/// One non-blocking poll of a list input's cursor.
///
/// A pending `DataStreamChanged` for this input is processed first: the
/// cursor retargets the input's current stream and yields a synthetic
/// `Replace` carrying that stream's snapshot, so binding is transparent
/// to guests that only observe changes. A cursor that fell behind
/// either ring observes the gap and re-snapshots, as slow subscribers
/// must. Otherwise the next stream change, if any, is translated: `Add`
/// to `Append` with the payload encoded against the input's declared
/// element type, `Pop` to `Pop`, `Clear` to `Replace` of nothing, the
/// paging flag to `HasMorePages`; the terminal `Destroy` ends the
/// cursor with a `Destroyed` error. With nothing pending it yields no
/// change.
#[verifier::loop_isolation(false)]
pub fn poll_list_change(
    cur: &mut InputChangeStream,
    reg: &DataStreamStorage,
    table: &StreamTable,
) -> (r: Result<Option<ListWireChange>, CommanderError>)
    requires
        bridge_wf(*reg, *table),
        old(cur).stream_key < table.model().len(),
        table.model()[old(cur).stream_key as int] is List,
        old(cur).registry_sub.next as int <= reg.changes_model().len(),
        old(cur).stream_sub.next as int <= table.model()[old(cur).stream_key as int]->List_0.updates_model().len(),
        reg.has_entry(old(cur).input_id) ==> table.model()[reg.entries_model()[reg.index_of(
            old(cur).input_id,
        )].stream] is List,
    ensures
        final(cur).input_id == old(cur).input_id,
        final(cur).data_type == old(cur).data_type,
        ({
            let ch = reg.changes_model();
            let fr = reg.changes_first_retained();
            let lagged = (old(cur).registry_sub.next as int) < fr;
            let rel = next_relevant(ch, old(cur).registry_sub.next as int, old(cur).input_id);
            if lagged || rel < ch.len() {
                // the cursor either missed registry events beyond the ring
                // or a rebinding is pending: it retargets the input's
                // current stream and yields the synthetic snapshot
                &&& final(cur).registry_sub.next == (if lagged {
                    fr
                } else {
                    rel + 1
                })
                &&& (reg.has_entry(old(cur).input_id) ==> {
                    let entry = reg.entries_model()[reg.index_of(old(cur).input_id)];
                    &&& final(cur).stream_key as int == entry.stream
                    &&& final(cur).stream_sub.next == table.model()[entry.stream]->List_0.updates_model().len()
                    &&& replace_of(
                        table.model()[entry.stream]->List_0,
                        old(cur).data_type,
                        r,
                    )
                })
                &&& (!reg.has_entry(old(cur).input_id) ==> (r matches Err(e) && e.kind
                    == ErrorKind::NotFound))
            } else {
                // no rebinding is pending: the cursor consumed only
                // irrelevant registry events and then looked at the stream
                &&& final(cur).registry_sub.next == ch.len()
                &&& final(cur).stream_key == old(cur).stream_key
                &&& ({
                    let stream = table.model()[old(cur).stream_key as int]->List_0;
                    let ups = stream.updates_model();
                    if (old(cur).stream_sub.next as int) < stream.updates_first_retained() {
                        // the cursor fell behind the stream's ring: it
                        // observes the gap by re-snapshotting
                        &&& final(cur).stream_sub.next == ups.len()
                        &&& replace_of(stream, old(cur).data_type, r)
                    } else if old(cur).stream_sub.next < ups.len() {
                        &&& final(cur).stream_sub.next == old(cur).stream_sub.next + 1
                        &&& (match ups[old(cur).stream_sub.next as int] {
                            ListChangeModel::Add(v) => (crate::model::value_wf(
                                v,
                                dt_model(old(cur).data_type),
                            ) ==> (r matches Ok(c) && (c matches Some(w)
                                && (w matches ListWireChange::Append(b) && b@
                                == crate::codec::encode_value(dt_model(old(cur).data_type), v))))),
                            ListChangeModel::Pop(_) => r == Ok::<
                                Option<ListWireChange>,
                                CommanderError,
                            >(Some(ListWireChange::Pop)),
                            ListChangeModel::Clear => (r matches Ok(c) && (c matches Some(w)
                                && (w matches ListWireChange::Replace(bs) && bs@.len() == 0))),
                            ListChangeModel::HasMorePages(b) => r == Ok::<
                                Option<ListWireChange>,
                                CommanderError,
                            >(Some(ListWireChange::HasMorePages(b))),
                            ListChangeModel::Destroy => (r matches Err(e) && e.kind
                                == ErrorKind::Destroyed),
                        })
                    } else {
                        &&& final(cur).stream_sub.next == old(cur).stream_sub.next
                        &&& r == Ok::<Option<ListWireChange>, CommanderError>(None)
                    }
                })
            }
        }),
{
    let ghost ch = reg.changes_model();
    let ghost fr = reg.changes_first_retained();
    let ghost id0 = cur.input_id;
    loop
        invariant
            bridge_wf(*reg, *table),
            ch == reg.changes_model(),
            fr == reg.changes_first_retained(),
            cur.input_id == old(cur).input_id,
            cur.data_type == old(cur).data_type,
            cur.stream_key == old(cur).stream_key,
            cur.stream_sub == old(cur).stream_sub,
            id0 == cur.input_id,
            old(cur).registry_sub.next <= cur.registry_sub.next,
            cur.registry_sub.next as int <= ch.len(),
            cur.registry_sub == old(cur).registry_sub || (old(cur).registry_sub.next as int >= fr
                && cur.registry_sub.next as int >= fr),
            old(cur).registry_sub.next as int >= fr ==> next_relevant(
                ch,
                old(cur).registry_sub.next as int,
                id0,
            ) == next_relevant(ch, cur.registry_sub.next as int, id0),
            old(cur).stream_key < table.model().len(),
            table.model()[old(cur).stream_key as int] is List,
            reg.has_entry(id0) ==> table.model()[reg.entries_model()[reg.index_of(
                id0,
            )].stream] is List,
        decreases ch.len() - cur.registry_sub.next,
    {
        let ghost pos = cur.registry_sub.next as int;
        match reg.recv_change(&mut cur.registry_sub) {
            crate::broadcast::RecvOutcome::Empty => {
                proof {
                    assert(pos == ch.len());
                    assert(next_relevant(ch, pos, id0) == ch.len());
                }
                break ;
            },
            crate::broadcast::RecvOutcome::Lagged(_) => {
                // the cursor missed registry events beyond the ring; a
                // rebinding may be among them, so re-snapshot
                proof {
                    assert(pos < fr);
                    assert(cur.registry_sub.next as int == fr);
                }
                return resync_list_cursor(cur, reg, table);
            },
            crate::broadcast::RecvOutcome::Event(ev) => {
                let relevant = match ev {
                    crate::registry::DataStreamResourceChange::DataStreamChanged(cid) => *cid
                        == cur.input_id,
                    _ => false,
                };
                proof {
                    assert(fr <= pos < ch.len());
                    if relevant {
                        assert(crate::registry::resource_change_model(*ev)
                            == crate::registry::ResourceChangeModel::DataStreamChanged(id0));
                        assert(next_relevant(ch, pos, id0) == pos);
                    } else {
                        assert(ch[pos] != crate::registry::ResourceChangeModel::DataStreamChanged(
                            id0,
                        ));
                        assert(next_relevant(ch, pos, id0) == next_relevant(ch, pos + 1, id0));
                    }
                }
                if relevant {
                    return resync_list_cursor(cur, reg, table);
                }
            },
        }
    }
    // no rebinding was pending; look at the stream
    let stream = match table.get(cur.stream_key).try_get_list() {
        Ok(l) => l,
        Err(e) => {
            proof {
                assert(false);
            }
            return Err(e);
        },
    };
    match stream.recv_update(&mut cur.stream_sub) {
        crate::broadcast::RecvOutcome::Empty => Ok(None),
        crate::broadcast::RecvOutcome::Lagged(_) => {
            // the cursor missed stream changes beyond the ring: observe
            // the gap and hand over a fresh snapshot
            cur.stream_sub = stream.subscribe();
            replace_snapshot(&cur.data_type, stream)
        },
        crate::broadcast::RecvOutcome::Event(ev) => match ev {
            crate::list_stream::ListChange::Add(v) => match cur.data_type.encode(v) {
                Ok(b) => Ok(Some(ListWireChange::Append(b))),
                Err(e) => Err(e),
            },
            crate::list_stream::ListChange::Pop(_) => Ok(Some(ListWireChange::Pop)),
            crate::list_stream::ListChange::Clear => Ok(Some(ListWireChange::Replace(Vec::new()))),
            crate::list_stream::ListChange::HasMorePages(b) => Ok(
                Some(ListWireChange::HasMorePages(*b)),
            ),
            crate::list_stream::ListChange::Destroy => Err(
                CommanderError::new(
                    ErrorKind::Destroyed,
                    crate::strings::str_to_string("the stream was destroyed"),
                ),
            ),
        },
    }
}

} // verus!

verus! {

/// Empties the entry's list-shaped stream; the guest's
/// `list-output.clear`.
pub fn list_output_clear(reg: &DataStreamStorage, table: &mut StreamTable, id: ResourceId) -> (r:
    Result<(), CommanderError>)
    requires
        bridge_wf(*reg, *old(table)),
        histories_open(*old(table)),
    ensures
        bridge_wf(*reg, *final(table)),
        final(table).model().len() == old(table).model().len(),
        r is Ok <==> (reg.has_entry(id) && old(table).model()[reg.entries_model()[reg.index_of(
            id,
        )].stream] is List),
        r is Ok ==> {
            let key = reg.entries_model()[reg.index_of(id)].stream;
            let before = old(table).model()[key]->List_0;
            &&& final(table).model() == old(table).model().update(
                key,
                DataStream::List(final(table).model()[key]->List_0),
            )
            &&& final(table).model()[key] matches DataStream::List(l) && l.items_model()
                == Seq::<ValueModel>::empty() && l.updates_model() == before.updates_model().push(
                crate::list_stream::ListChangeModel::Clear,
            ) && l.requests_model() == before.requests_model() && l.has_more()
                == before.has_more()
        },
        r matches Err(e) ==> *final(table) == *old(table) && (e.kind == ErrorKind::NotFound
            <==> !reg.has_entry(id)),
{
    let entry = match reg.get(id) {
        Some(e) => e,
        None => {
            return Err(
                CommanderError::new(
                    ErrorKind::NotFound,
                    crate::strings::str_to_string("no stream is registered under this id"),
                ),
            );
        },
    };
    let key = entry.stream;
    proof {
        assert(reg.has_entry(id));
        assert(reg.entries_model()[reg.index_of(id)].stream == key as int);
        assert((key as int) < table.model().len());
        assert(table.model()[key as int].wf());
        assert(crate::bridge::stream_history_open(table.model()[key as int]));
    }
    let kind = table.get(key).stream_type();
    if !matches!(kind, DataStreamType::List) {
        return Err(
            CommanderError::new(
                ErrorKind::TypeMismatch,
                crate::strings::str_to_string("the stream is not list-shaped"),
            ),
        );
    }
    let ghost table_before = table.model();
    let slot = table.get_mut(key);
    match slot.try_get_list_mut() {
        Ok(l) => {
            l.clear();
            proof {
                assert forall|x: int| 0 <= x < table.model().len() implies (
                #[trigger] table.model()[x]).wf() by {
                    if x != key as int {
                        assert(table.model()[x] == table_before[x]);
                    }
                }
            }
            Ok(())
        },
        Err(e) => {
            proof {
                assert(false);
            }
            Err(e)
        },
    }
}

/// Inserts nodes under an optional parent on the entry's tree-shaped
/// stream; the guest's `tree-output.add`.
pub fn tree_output_add(
    reg: &DataStreamStorage,
    table: &mut StreamTable,
    id: ResourceId,
    parent: Option<String>,
    nodes: Vec<crate::tree_stream::TreeNode>,
) -> (r: Result<(), CommanderError>)
    requires
        bridge_wf(*reg, *old(table)),
        histories_open(*old(table)),
    ensures
        bridge_wf(*reg, *final(table)),
        final(table).model().len() == old(table).model().len(),
        r is Ok <==> (reg.has_entry(id) && (old(table).model()[reg.entries_model()[reg.index_of(
            id,
        )].stream] matches DataStream::Tree(t) && t.add_parent_ok(parent) && t.add_children_ok(
            nodes@,
        ))),
        r is Ok ==> {
            let key = reg.entries_model()[reg.index_of(id)].stream;
            let before = old(table).model()[key]->Tree_0;
            &&& final(table).model() == old(table).model().update(
                key,
                DataStream::Tree(final(table).model()[key]->Tree_0),
            )
            &&& final(table).model()[key] matches DataStream::Tree(t) && t.entries_model()
                == before.entries_model() + nodes@.map_values(
                |n: crate::tree_stream::TreeNode|
                    crate::tree_stream::TreeEntryModel {
                        parent: crate::tree_stream::opt_str_model(parent),
                        node: crate::tree_stream::node_model(n),
                    },
            ) && t.updates_model() == before.updates_model().push(
                crate::tree_stream::TreeChangeModel::Add {
                    parent: crate::tree_stream::opt_str_model(parent),
                    children: nodes@.map_values(
                        |n: crate::tree_stream::TreeNode| crate::tree_stream::node_model(n),
                    ),
                },
            ) && t.requests_model() == before.requests_model()
        },
{
    let entry = match reg.get(id) {
        Some(e) => e,
        None => {
            return Err(
                CommanderError::new(
                    ErrorKind::NotFound,
                    crate::strings::str_to_string("no stream is registered under this id"),
                ),
            );
        },
    };
    let key = entry.stream;
    proof {
        assert(reg.has_entry(id));
        assert(reg.entries_model()[reg.index_of(id)].stream == key as int);
        assert((key as int) < table.model().len());
        assert(table.model()[key as int].wf());
        assert(crate::bridge::stream_history_open(table.model()[key as int]));
    }
    let kind = table.get(key).stream_type();
    if !matches!(kind, DataStreamType::Tree) {
        return Err(
            CommanderError::new(
                ErrorKind::TypeMismatch,
                crate::strings::str_to_string("the stream is not tree-shaped"),
            ),
        );
    }
    let ghost table_before = table.model();
    let slot = table.get_mut(key);
    match slot.try_get_tree_mut() {
        Ok(t) => {
            let res = t.add(parent, nodes);
            proof {
                assert forall|x: int| 0 <= x < table.model().len() implies (
                #[trigger] table.model()[x]).wf() by {
                    if x != key as int {
                        assert(table.model()[x] == table_before[x]);
                    }
                }
                if res is Err {
                    assert(table.model() =~= table_before);
                }
            }
            res
        },
        Err(e) => {
            proof {
                assert(false);
            }
            Err(e)
        },
    }
}

/// Removes a node and its subtree on the entry's tree-shaped stream;
/// the guest's `tree-output.remove`.
pub fn tree_output_remove(
    reg: &DataStreamStorage,
    table: &mut StreamTable,
    id: ResourceId,
    node_id: &str,
) -> (r: Result<(), CommanderError>)
    requires
        bridge_wf(*reg, *old(table)),
        histories_open(*old(table)),
    ensures
        bridge_wf(*reg, *final(table)),
        final(table).model().len() == old(table).model().len(),
        r is Ok <==> (reg.has_entry(id) && (old(table).model()[reg.entries_model()[reg.index_of(
            id,
        )].stream] matches DataStream::Tree(t) && crate::tree_stream::has_id(
            t.entries_model(),
            node_id@,
        ))),
        r is Ok ==> {
            let key = reg.entries_model()[reg.index_of(id)].stream;
            let before = old(table).model()[key]->Tree_0;
            let doomed = crate::tree_stream::doomed_full(before.entries_model(), node_id@);
            &&& final(table).model() == old(table).model().update(
                key,
                DataStream::Tree(final(table).model()[key]->Tree_0),
            )
            &&& final(table).model()[key] matches DataStream::Tree(t) && t.entries_model()
                == crate::tree_stream::retain(before.entries_model(), doomed)
                && t.updates_model() == before.updates_model() + crate::tree_stream::dropped_entries(
                before.entries_model(),
                doomed,
            ).map_values(
                |e: crate::tree_stream::TreeEntryModel|
                    crate::tree_stream::TreeChangeModel::Remove(e.node),
            ) && t.requests_model() == before.requests_model()
        },
{
    let entry = match reg.get(id) {
        Some(e) => e,
        None => {
            return Err(
                CommanderError::new(
                    ErrorKind::NotFound,
                    crate::strings::str_to_string("no stream is registered under this id"),
                ),
            );
        },
    };
    let key = entry.stream;
    proof {
        assert(reg.has_entry(id));
        assert(reg.entries_model()[reg.index_of(id)].stream == key as int);
        assert((key as int) < table.model().len());
        assert(table.model()[key as int].wf());
        assert(crate::bridge::stream_history_open(table.model()[key as int]));
    }
    let kind = table.get(key).stream_type();
    if !matches!(kind, DataStreamType::Tree) {
        return Err(
            CommanderError::new(
                ErrorKind::TypeMismatch,
                crate::strings::str_to_string("the stream is not tree-shaped"),
            ),
        );
    }
    let ghost table_before = table.model();
    let slot = table.get_mut(key);
    match slot.try_get_tree_mut() {
        Ok(t) => {
            let res = t.remove(node_id);
            proof {
                assert forall|x: int| 0 <= x < table.model().len() implies (
                #[trigger] table.model()[x]).wf() by {
                    if x != key as int {
                        assert(table.model()[x] == table_before[x]);
                    }
                }
                if res is Err {
                    assert(table.model() =~= table_before);
                }
            }
            res
        },
        Err(e) => {
            proof {
                assert(false);
            }
            Err(e)
        },
    }
}

/// Empties the entry's tree-shaped stream; the guest's
/// `tree-output.clear`.
pub fn tree_output_clear(reg: &DataStreamStorage, table: &mut StreamTable, id: ResourceId) -> (r:
    Result<(), CommanderError>)
    requires
        bridge_wf(*reg, *old(table)),
        histories_open(*old(table)),
    ensures
        bridge_wf(*reg, *final(table)),
        final(table).model().len() == old(table).model().len(),
        r is Ok <==> (reg.has_entry(id) && old(table).model()[reg.entries_model()[reg.index_of(
            id,
        )].stream] is Tree),
        r is Ok ==> {
            let key = reg.entries_model()[reg.index_of(id)].stream;
            let before = old(table).model()[key]->Tree_0;
            &&& final(table).model() == old(table).model().update(
                key,
                DataStream::Tree(final(table).model()[key]->Tree_0),
            )
            &&& final(table).model()[key] matches DataStream::Tree(t) && t.entries_model()
                == Seq::<crate::tree_stream::TreeEntryModel>::empty() && t.updates_model()
                == before.updates_model().push(crate::tree_stream::TreeChangeModel::Clear)
                && t.requests_model() == before.requests_model()
        },
{
    let entry = match reg.get(id) {
        Some(e) => e,
        None => {
            return Err(
                CommanderError::new(
                    ErrorKind::NotFound,
                    crate::strings::str_to_string("no stream is registered under this id"),
                ),
            );
        },
    };
    let key = entry.stream;
    proof {
        assert(reg.has_entry(id));
        assert(reg.entries_model()[reg.index_of(id)].stream == key as int);
        assert((key as int) < table.model().len());
        assert(table.model()[key as int].wf());
        assert(crate::bridge::stream_history_open(table.model()[key as int]));
    }
    let kind = table.get(key).stream_type();
    if !matches!(kind, DataStreamType::Tree) {
        return Err(
            CommanderError::new(
                ErrorKind::TypeMismatch,
                crate::strings::str_to_string("the stream is not tree-shaped"),
            ),
        );
    }
    let ghost table_before = table.model();
    let slot = table.get_mut(key);
    match slot.try_get_tree_mut() {
        Ok(t) => {
            t.clear();
            proof {
                assert forall|x: int| 0 <= x < table.model().len() implies (
                #[trigger] table.model()[x]).wf() by {
                    if x != key as int {
                        assert(table.model()[x] == table_before[x]);
                    }
                }
            }
            Ok(())
        },
        Err(e) => {
            proof {
                assert(false);
            }
            Err(e)
        },
    }
}

} // verus!

verus! {

/// The synthetic replacement a value cursor yields: the input's current
/// value encoded against its declared type, or `None` when no value is
/// set; a stored value that does not match fails with `TypeMismatch`.
pub open spec fn value_replace_of(
    stream: crate::value_stream::ValueStream,
    dt: crate::types::CommanderDataType,
    r: Result<Option<Option<Vec<u8>>>, CommanderError>,
) -> bool {
    match stream.current() {
        None => r == Ok::<Option<Option<Vec<u8>>>, CommanderError>(Some(None)),
        Some(cur) => {
            &&& (crate::model::value_wf(cur, dt_model(dt)) ==> (r matches Ok(c) && (c matches Some(
                w,
            ) && (w matches Some(b) && b@ == crate::codec::encode_value(dt_model(dt), cur)))))
            &&& (!crate::model::value_wf(cur, dt_model(dt)) ==> (r matches Err(e) && e.kind
                == ErrorKind::TypeMismatch))
        },
    }
}

/// Builds the synthetic replacement from a value stream's current value.
fn value_replace_snapshot(
    dt: &crate::types::CommanderDataType,
    stream: &crate::value_stream::ValueStream,
) -> (r: Result<Option<Option<Vec<u8>>>, CommanderError>)
    ensures
        value_replace_of(*stream, *dt, r),
{
    match stream.snapshot() {
        None => Ok(Some(None)),
        Some(v) => match dt.encode(&v) {
            Ok(b) => Ok(Some(Some(b))),
            Err(e) => Err(e),
        },
    }
}

/// Allocates a fresh cursor over a value-shaped input.
pub fn new_value_change_stream(
    reg: &DataStreamStorage,
    table: &StreamTable,
    id: ResourceId,
) -> (r: Result<InputChangeStream, CommanderError>)
    requires
        bridge_wf(*reg, *table),
    ensures
        r is Ok <==> (reg.has_entry(id) && table.model()[reg.entries_model()[reg.index_of(
            id,
        )].stream] is Value),
        r matches Ok(cur) ==> {
            let entry = reg.entries_model()[reg.index_of(id)];
            &&& cur.input_id == id
            &&& dt_model(cur.data_type) == entry.metadata.data_type
            &&& cur.stream_key as int == entry.stream
            &&& cur.stream_sub.next == table.model()[entry.stream]->Value_0.updates_model().len()
            &&& cur.registry_sub.next == reg.changes_model().len()
        },
{
    let entry = match reg.get(id) {
        Some(e) => e,
        None => {
            return Err(
                CommanderError::new(
                    ErrorKind::NotFound,
                    crate::strings::str_to_string("no stream is registered under this id"),
                ),
            );
        },
    };
    let key = entry.stream;
    proof {
        assert(reg.has_entry(id));
        assert(reg.entries_model()[reg.index_of(id)].stream == key as int);
        assert((key as int) < table.model().len());
    }
    let stream = match table.get(key).try_get_value() {
        Ok(v) => v,
        Err(e) => {
            return Err(e);
        },
    };
    Ok(
        InputChangeStream {
            input_id: id,
            data_type: crate::parse::clone_data_type(&entry.metadata.data_type),
            stream_key: key,
            stream_sub: stream.subscribe(),
            registry_sub: reg.subscribe_changes(),
        },
    )
}

/// Retargets a value cursor to its input's current stream and yields
/// the synthetic replacement.
fn resync_value_cursor(
    cur: &mut InputChangeStream,
    reg: &DataStreamStorage,
    table: &StreamTable,
) -> (r: Result<Option<Option<Vec<u8>>>, CommanderError>)
    requires
        bridge_wf(*reg, *table),
        reg.has_entry(old(cur).input_id) ==> table.model()[reg.entries_model()[reg.index_of(
            old(cur).input_id,
        )].stream] is Value,
    ensures
        final(cur).input_id == old(cur).input_id,
        final(cur).data_type == old(cur).data_type,
        final(cur).registry_sub == old(cur).registry_sub,
        reg.has_entry(old(cur).input_id) ==> ({
            let entry = reg.entries_model()[reg.index_of(old(cur).input_id)];
            &&& final(cur).stream_key as int == entry.stream
            &&& final(cur).stream_sub.next == table.model()[entry.stream]->Value_0.updates_model().len()
            &&& value_replace_of(table.model()[entry.stream]->Value_0, old(cur).data_type, r)
        }),
        !reg.has_entry(old(cur).input_id) ==> (r matches Err(e) && e.kind == ErrorKind::NotFound
            && *final(cur) == *old(cur)),
{
    let entry = match reg.get(cur.input_id) {
        Some(e) => e,
        None => {
            return Err(
                CommanderError::new(
                    ErrorKind::NotFound,
                    crate::strings::str_to_string("the input was removed"),
                ),
            );
        },
    };
    let key = entry.stream;
    proof {
        assert(reg.entries_model()[reg.index_of(cur.input_id)].stream == key as int);
        assert((key as int) < table.model().len());
    }
    let stream = match table.get(key).try_get_value() {
        Ok(v) => v,
        Err(e) => {
            proof {
                assert(false);
            }
            return Err(e);
        },
    };
    cur.stream_key = key;
    cur.stream_sub = stream.subscribe();
    value_replace_snapshot(&cur.data_type, stream)
}

/// One non-blocking poll of a value input's cursor: a pending rebinding
/// (or a lost-events gap) yields the current value as a synthetic
/// replacement; otherwise the next change, if any — the new value's
/// encoding for a set, nothing for a cleared value.
#[verifier::loop_isolation(false)]
pub fn poll_value_change(
    cur: &mut InputChangeStream,
    reg: &DataStreamStorage,
    table: &StreamTable,
) -> (r: Result<Option<Option<Vec<u8>>>, CommanderError>)
    requires
        bridge_wf(*reg, *table),
        old(cur).stream_key < table.model().len(),
        table.model()[old(cur).stream_key as int] is Value,
        old(cur).registry_sub.next as int <= reg.changes_model().len(),
        old(cur).stream_sub.next as int <= table.model()[old(cur).stream_key as int]->Value_0.updates_model().len(),
        reg.has_entry(old(cur).input_id) ==> table.model()[reg.entries_model()[reg.index_of(
            old(cur).input_id,
        )].stream] is Value,
    ensures
        final(cur).input_id == old(cur).input_id,
        final(cur).data_type == old(cur).data_type,
        ({
            let ch = reg.changes_model();
            let fr = reg.changes_first_retained();
            let lagged = (old(cur).registry_sub.next as int) < fr;
            let rel = next_relevant(ch, old(cur).registry_sub.next as int, old(cur).input_id);
            if lagged || rel < ch.len() {
                &&& final(cur).registry_sub.next == (if lagged {
                    fr
                } else {
                    rel + 1
                })
                &&& (reg.has_entry(old(cur).input_id) ==> {
                    let entry = reg.entries_model()[reg.index_of(old(cur).input_id)];
                    &&& final(cur).stream_key as int == entry.stream
                    &&& final(cur).stream_sub.next == table.model()[entry.stream]->Value_0.updates_model().len()
                    &&& value_replace_of(
                        table.model()[entry.stream]->Value_0,
                        old(cur).data_type,
                        r,
                    )
                })
                &&& (!reg.has_entry(old(cur).input_id) ==> (r matches Err(e) && e.kind
                    == ErrorKind::NotFound))
            } else {
                &&& final(cur).registry_sub.next == ch.len()
                &&& final(cur).stream_key == old(cur).stream_key
                &&& ({
                    let stream = table.model()[old(cur).stream_key as int]->Value_0;
                    let ups = stream.updates_model();
                    if (old(cur).stream_sub.next as int) < stream.updates_first_retained() {
                        &&& final(cur).stream_sub.next == ups.len()
                        &&& value_replace_of(stream, old(cur).data_type, r)
                    } else if old(cur).stream_sub.next < ups.len() {
                        &&& final(cur).stream_sub.next == old(cur).stream_sub.next + 1
                        &&& (match ups[old(cur).stream_sub.next as int] {
                            crate::value_stream::ValueChangeModel::SetTo(v) => (
                            crate::model::value_wf(v, dt_model(old(cur).data_type)) ==> (
                            r matches Ok(c) && (c matches Some(w) && (w matches Some(b) && b@
                                == crate::codec::encode_value(dt_model(old(cur).data_type), v))))),
                            crate::value_stream::ValueChangeModel::Destroy => r == Ok::<
                                Option<Option<Vec<u8>>>,
                                CommanderError,
                            >(Some(None)),
                        })
                    } else {
                        &&& final(cur).stream_sub.next == old(cur).stream_sub.next
                        &&& r == Ok::<Option<Option<Vec<u8>>>, CommanderError>(None)
                    }
                })
            }
        }),
{
    let ghost ch = reg.changes_model();
    let ghost fr = reg.changes_first_retained();
    let ghost id0 = cur.input_id;
    loop
        invariant
            bridge_wf(*reg, *table),
            ch == reg.changes_model(),
            fr == reg.changes_first_retained(),
            cur.input_id == old(cur).input_id,
            cur.data_type == old(cur).data_type,
            cur.stream_key == old(cur).stream_key,
            cur.stream_sub == old(cur).stream_sub,
            id0 == cur.input_id,
            old(cur).registry_sub.next <= cur.registry_sub.next,
            cur.registry_sub.next as int <= ch.len(),
            cur.registry_sub == old(cur).registry_sub || (old(cur).registry_sub.next as int >= fr
                && cur.registry_sub.next as int >= fr),
            old(cur).registry_sub.next as int >= fr ==> next_relevant(
                ch,
                old(cur).registry_sub.next as int,
                id0,
            ) == next_relevant(ch, cur.registry_sub.next as int, id0),
            old(cur).stream_key < table.model().len(),
            table.model()[old(cur).stream_key as int] is Value,
            reg.has_entry(id0) ==> table.model()[reg.entries_model()[reg.index_of(
                id0,
            )].stream] is Value,
        decreases ch.len() - cur.registry_sub.next,
    {
        let ghost pos = cur.registry_sub.next as int;
        match reg.recv_change(&mut cur.registry_sub) {
            crate::broadcast::RecvOutcome::Empty => {
                proof {
                    assert(pos == ch.len());
                    assert(next_relevant(ch, pos, id0) == ch.len());
                }
                break ;
            },
            crate::broadcast::RecvOutcome::Lagged(_) => {
                proof {
                    assert(pos < fr);
                    assert(cur.registry_sub.next as int == fr);
                }
                return resync_value_cursor(cur, reg, table);
            },
            crate::broadcast::RecvOutcome::Event(ev) => {
                let relevant = match ev {
                    crate::registry::DataStreamResourceChange::DataStreamChanged(cid) => *cid
                        == cur.input_id,
                    _ => false,
                };
                proof {
                    assert(fr <= pos < ch.len());
                    if relevant {
                        assert(crate::registry::resource_change_model(*ev)
                            == crate::registry::ResourceChangeModel::DataStreamChanged(id0));
                        assert(next_relevant(ch, pos, id0) == pos);
                    } else {
                        assert(ch[pos] != crate::registry::ResourceChangeModel::DataStreamChanged(
                            id0,
                        ));
                        assert(next_relevant(ch, pos, id0) == next_relevant(ch, pos + 1, id0));
                    }
                }
                if relevant {
                    return resync_value_cursor(cur, reg, table);
                }
            },
        }
    }
    let stream = match table.get(cur.stream_key).try_get_value() {
        Ok(v) => v,
        Err(e) => {
            proof {
                assert(false);
            }
            return Err(e);
        },
    };
    match stream.recv_update(&mut cur.stream_sub) {
        crate::broadcast::RecvOutcome::Empty => Ok(None),
        crate::broadcast::RecvOutcome::Lagged(_) => {
            cur.stream_sub = stream.subscribe();
            value_replace_snapshot(&cur.data_type, stream)
        },
        crate::broadcast::RecvOutcome::Event(ev) => match ev {
            crate::value_stream::ValueChange::SetTo(v) => match cur.data_type.encode(v) {
                Ok(b) => Ok(Some(Some(b))),
                Err(e) => Err(e),
            },
            crate::value_stream::ValueChange::Destroy => Ok(Some(None)),
        },
    }
}

} // verus!

verus! {

/// A tree change as a guest sees it: nodes and ids travel directly.
#[derive(Debug, PartialEq, Eq)]
pub enum TreeWireChange {
    Append(Vec<crate::tree_stream::TreeNode>),
    Remove(Vec<String>),
    Replace(Vec<crate::tree_stream::TreeNode>),
}

/// The synthetic replacement a tree cursor yields: the root nodes of
/// the input's current forest, in insertion order.
pub open spec fn tree_replace_of(
    stream: crate::tree_stream::TreeStream,
    r: Result<Option<TreeWireChange>, CommanderError>,
) -> bool {
    r matches Ok(c) && (c matches Some(w) && (w matches TreeWireChange::Replace(ns) && ns@.len()
        == crate::tree_stream::root_entries(stream.entries_model()).len() && forall|i: int|
        0 <= i < ns@.len() ==> crate::tree_stream::node_model(#[trigger] ns@[i])
            == crate::tree_stream::root_entries(stream.entries_model())[i].node))
}

/// Allocates a fresh cursor over a tree-shaped input.
pub fn new_tree_change_stream(
    reg: &DataStreamStorage,
    table: &StreamTable,
    id: ResourceId,
) -> (r: Result<InputChangeStream, CommanderError>)
    requires
        bridge_wf(*reg, *table),
    ensures
        r is Ok <==> (reg.has_entry(id) && table.model()[reg.entries_model()[reg.index_of(
            id,
        )].stream] is Tree),
        r matches Ok(cur) ==> {
            let entry = reg.entries_model()[reg.index_of(id)];
            &&& cur.input_id == id
            &&& cur.stream_key as int == entry.stream
            &&& cur.stream_sub.next == table.model()[entry.stream]->Tree_0.updates_model().len()
            &&& cur.registry_sub.next == reg.changes_model().len()
        },
{
    let entry = match reg.get(id) {
        Some(e) => e,
        None => {
            return Err(
                CommanderError::new(
                    ErrorKind::NotFound,
                    crate::strings::str_to_string("no stream is registered under this id"),
                ),
            );
        },
    };
    let key = entry.stream;
    proof {
        assert(reg.has_entry(id));
        assert(reg.entries_model()[reg.index_of(id)].stream == key as int);
        assert((key as int) < table.model().len());
    }
    let stream = match table.get(key).try_get_tree() {
        Ok(t) => t,
        Err(e) => {
            return Err(e);
        },
    };
    Ok(
        InputChangeStream {
            input_id: id,
            data_type: crate::parse::clone_data_type(&entry.metadata.data_type),
            stream_key: key,
            stream_sub: stream.subscribe(),
            registry_sub: reg.subscribe_changes(),
        },
    )
}

/// Retargets a tree cursor to its input's current stream and yields the
/// synthetic replacement.
fn resync_tree_cursor(
    cur: &mut InputChangeStream,
    reg: &DataStreamStorage,
    table: &StreamTable,
) -> (r: Result<Option<TreeWireChange>, CommanderError>)
    requires
        bridge_wf(*reg, *table),
        reg.has_entry(old(cur).input_id) ==> table.model()[reg.entries_model()[reg.index_of(
            old(cur).input_id,
        )].stream] is Tree,
    ensures
        final(cur).input_id == old(cur).input_id,
        final(cur).data_type == old(cur).data_type,
        final(cur).registry_sub == old(cur).registry_sub,
        reg.has_entry(old(cur).input_id) ==> ({
            let entry = reg.entries_model()[reg.index_of(old(cur).input_id)];
            &&& final(cur).stream_key as int == entry.stream
            &&& final(cur).stream_sub.next == table.model()[entry.stream]->Tree_0.updates_model().len()
            &&& tree_replace_of(table.model()[entry.stream]->Tree_0, r)
        }),
        !reg.has_entry(old(cur).input_id) ==> (r matches Err(e) && e.kind == ErrorKind::NotFound
            && *final(cur) == *old(cur)),
{
    let entry = match reg.get(cur.input_id) {
        Some(e) => e,
        None => {
            return Err(
                CommanderError::new(
                    ErrorKind::NotFound,
                    crate::strings::str_to_string("the input was removed"),
                ),
            );
        },
    };
    let key = entry.stream;
    proof {
        assert(reg.entries_model()[reg.index_of(cur.input_id)].stream == key as int);
        assert((key as int) < table.model().len());
    }
    let stream = match table.get(key).try_get_tree() {
        Ok(t) => t,
        Err(e) => {
            proof {
                assert(false);
            }
            return Err(e);
        },
    };
    cur.stream_key = key;
    cur.stream_sub = stream.subscribe();
    Ok(Some(TreeWireChange::Replace(stream.root_nodes())))
}

/// One non-blocking poll of a tree input's cursor: a pending rebinding
/// (or a lost-events gap) yields the current root nodes as a synthetic
/// replacement; otherwise the next change, if any — appended children,
/// a removed id, or a replacement. The terminal `Destroy` ends the
/// cursor with a `Destroyed` error.
#[verifier::loop_isolation(false)]
pub fn poll_tree_change(
    cur: &mut InputChangeStream,
    reg: &DataStreamStorage,
    table: &StreamTable,
) -> (r: Result<Option<TreeWireChange>, CommanderError>)
    requires
        bridge_wf(*reg, *table),
        old(cur).stream_key < table.model().len(),
        table.model()[old(cur).stream_key as int] is Tree,
        old(cur).registry_sub.next as int <= reg.changes_model().len(),
        old(cur).stream_sub.next as int <= table.model()[old(cur).stream_key as int]->Tree_0.updates_model().len(),
        reg.has_entry(old(cur).input_id) ==> table.model()[reg.entries_model()[reg.index_of(
            old(cur).input_id,
        )].stream] is Tree,
    ensures
        final(cur).input_id == old(cur).input_id,
        final(cur).data_type == old(cur).data_type,
        ({
            let ch = reg.changes_model();
            let fr = reg.changes_first_retained();
            let lagged = (old(cur).registry_sub.next as int) < fr;
            let rel = next_relevant(ch, old(cur).registry_sub.next as int, old(cur).input_id);
            if lagged || rel < ch.len() {
                &&& final(cur).registry_sub.next == (if lagged {
                    fr
                } else {
                    rel + 1
                })
                &&& (reg.has_entry(old(cur).input_id) ==> {
                    let entry = reg.entries_model()[reg.index_of(old(cur).input_id)];
                    &&& final(cur).stream_key as int == entry.stream
                    &&& final(cur).stream_sub.next == table.model()[entry.stream]->Tree_0.updates_model().len()
                    &&& tree_replace_of(table.model()[entry.stream]->Tree_0, r)
                })
                &&& (!reg.has_entry(old(cur).input_id) ==> (r matches Err(e) && e.kind
                    == ErrorKind::NotFound))
            } else {
                &&& final(cur).registry_sub.next == ch.len()
                &&& final(cur).stream_key == old(cur).stream_key
                &&& ({
                    let stream = table.model()[old(cur).stream_key as int]->Tree_0;
                    let ups = stream.updates_model();
                    if (old(cur).stream_sub.next as int) < stream.updates_first_retained() {
                        &&& final(cur).stream_sub.next == ups.len()
                        &&& tree_replace_of(stream, r)
                    } else if old(cur).stream_sub.next < ups.len() {
                        &&& final(cur).stream_sub.next == old(cur).stream_sub.next + 1
                        &&& (match ups[old(cur).stream_sub.next as int] {
                            crate::tree_stream::TreeChangeModel::Add { parent: _, children } => (
                            r matches Ok(c) && (c matches Some(w) && (
                            w matches TreeWireChange::Append(ns) && ns@.len() == children.len()
                                && forall|i: int|
                                0 <= i < ns@.len() ==> crate::tree_stream::node_model(
                                    #[trigger] ns@[i],
                                ) == children[i]))),
                            crate::tree_stream::TreeChangeModel::Remove(n) => (r matches Ok(c) && (
                            c matches Some(w) && (w matches TreeWireChange::Remove(ids)
                                && ids@.len() == 1 && ids@[0]@ == n.id))),
                            crate::tree_stream::TreeChangeModel::Clear => (r matches Ok(c) && (
                            c matches Some(w) && (w matches TreeWireChange::Replace(ns)
                                && ns@.len() == 0))),
                            crate::tree_stream::TreeChangeModel::Destroy => (r matches Err(e)
                                && e.kind == ErrorKind::Destroyed),
                        })
                    } else {
                        &&& final(cur).stream_sub.next == old(cur).stream_sub.next
                        &&& r == Ok::<Option<TreeWireChange>, CommanderError>(None)
                    }
                })
            }
        }),
{
    let ghost ch = reg.changes_model();
    let ghost fr = reg.changes_first_retained();
    let ghost id0 = cur.input_id;
    loop
        invariant
            bridge_wf(*reg, *table),
            ch == reg.changes_model(),
            fr == reg.changes_first_retained(),
            cur.input_id == old(cur).input_id,
            cur.data_type == old(cur).data_type,
            cur.stream_key == old(cur).stream_key,
            cur.stream_sub == old(cur).stream_sub,
            id0 == cur.input_id,
            old(cur).registry_sub.next <= cur.registry_sub.next,
            cur.registry_sub.next as int <= ch.len(),
            cur.registry_sub == old(cur).registry_sub || (old(cur).registry_sub.next as int >= fr
                && cur.registry_sub.next as int >= fr),
            old(cur).registry_sub.next as int >= fr ==> next_relevant(
                ch,
                old(cur).registry_sub.next as int,
                id0,
            ) == next_relevant(ch, cur.registry_sub.next as int, id0),
            old(cur).stream_key < table.model().len(),
            table.model()[old(cur).stream_key as int] is Tree,
            reg.has_entry(id0) ==> table.model()[reg.entries_model()[reg.index_of(
                id0,
            )].stream] is Tree,
        decreases ch.len() - cur.registry_sub.next,
    {
        let ghost pos = cur.registry_sub.next as int;
        match reg.recv_change(&mut cur.registry_sub) {
            crate::broadcast::RecvOutcome::Empty => {
                proof {
                    assert(pos == ch.len());
                    assert(next_relevant(ch, pos, id0) == ch.len());
                }
                break ;
            },
            crate::broadcast::RecvOutcome::Lagged(_) => {
                proof {
                    assert(pos < fr);
                    assert(cur.registry_sub.next as int == fr);
                }
                return resync_tree_cursor(cur, reg, table);
            },
            crate::broadcast::RecvOutcome::Event(ev) => {
                let relevant = match ev {
                    crate::registry::DataStreamResourceChange::DataStreamChanged(cid) => *cid
                        == cur.input_id,
                    _ => false,
                };
                proof {
                    assert(fr <= pos < ch.len());
                    if relevant {
                        assert(crate::registry::resource_change_model(*ev)
                            == crate::registry::ResourceChangeModel::DataStreamChanged(id0));
                        assert(next_relevant(ch, pos, id0) == pos);
                    } else {
                        assert(ch[pos] != crate::registry::ResourceChangeModel::DataStreamChanged(
                            id0,
                        ));
                        assert(next_relevant(ch, pos, id0) == next_relevant(ch, pos + 1, id0));
                    }
                }
                if relevant {
                    return resync_tree_cursor(cur, reg, table);
                }
            },
        }
    }
    let stream = match table.get(cur.stream_key).try_get_tree() {
        Ok(t) => t,
        Err(e) => {
            proof {
                assert(false);
            }
            return Err(e);
        },
    };
    match stream.recv_update(&mut cur.stream_sub) {
        crate::broadcast::RecvOutcome::Empty => Ok(None),
        crate::broadcast::RecvOutcome::Lagged(_) => {
            cur.stream_sub = stream.subscribe();
            Ok(Some(TreeWireChange::Replace(stream.root_nodes())))
        },
        crate::broadcast::RecvOutcome::Event(ev) => match ev {
            crate::tree_stream::TreeChange::Add { parent: _, children } => Ok(
                Some(TreeWireChange::Append(crate::tree_stream::clone_tree_nodes(children))),
            ),
            crate::tree_stream::TreeChange::Remove(n) => {
                let mut ids: Vec<String> = Vec::new();
                ids.push(n.id.clone());
                Ok(Some(TreeWireChange::Remove(ids)))
            },
            crate::tree_stream::TreeChange::Clear => Ok(
                Some(TreeWireChange::Replace(Vec::new())),
            ),
            crate::tree_stream::TreeChange::Destroy => Err(
                CommanderError::new(
                    ErrorKind::Destroyed,
                    crate::strings::str_to_string("the stream was destroyed"),
                ),
            ),
        },
    }
}

} // verus!
