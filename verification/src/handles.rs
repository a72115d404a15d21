//! Handles and refs: typed, cheap locators for registered streams, the
//! operations a host performs through them, and binding an input to an
//! output.

use vstd::prelude::*;

use crate::datastream::{DataStream, DataStreamType};
use crate::errors::{CommanderError, ErrorKind};
use crate::list_stream::ListStream;
use crate::model::ValueModel;
use crate::registry::{
    clone_metadata, metadata_model, DataStreamMetadata, DataStreamStorage, ResourceId, StreamTable,
};
use crate::types::{value_model, CommanderValue};
use crate::value_stream::ValueStream;

verus! {

/// A handle to a value-shaped input.
#[derive(Debug)]
pub struct ValueInputHandle {
    pub metadata: DataStreamMetadata,
}

/// A handle to a list-shaped input.
#[derive(Debug)]
pub struct ListInputHandle {
    pub metadata: DataStreamMetadata,
}

/// A handle to a registered input stream.
#[derive(Debug)]
pub enum InputHandle {
    Value(ValueInputHandle),
    List(ListInputHandle),
    Tree(DataStreamMetadata),
}

/// A handle to a value-shaped output.
#[derive(Debug)]
pub struct ValueOutputHandle {
    pub metadata: DataStreamMetadata,
}

/// A handle to a list-shaped output.
#[derive(Debug)]
pub struct ListOutputHandle {
    pub metadata: DataStreamMetadata,
}

/// A handle to a tree-shaped output.
#[derive(Debug)]
pub struct TreeOutputHandle {
    pub metadata: DataStreamMetadata,
}

/// A handle to a registered output stream.
#[derive(Debug)]
pub enum OutputHandle {
    List(ListOutputHandle),
    Tree(TreeOutputHandle),
    Value(ValueOutputHandle),
}

impl OutputHandle {
    /// The metadata this handle carries.
    pub open spec fn metadata_spec(&self) -> DataStreamMetadata {
        match self {
            OutputHandle::List(l) => l.metadata,
            OutputHandle::Tree(t) => t.metadata,
            OutputHandle::Value(v) => v.metadata,
        }
    }

    /// The metadata this handle carries.
    pub fn metadata(&self) -> (r: &DataStreamMetadata)
        ensures
            *r == self.metadata_spec(),
    {
        match self {
            OutputHandle::List(l) => &l.metadata,
            OutputHandle::Tree(t) => &t.metadata,
            OutputHandle::Value(v) => &v.metadata,
        }
    }

    /// Wraps metadata in the handle of the matching shape.
    pub fn from_metadata(metadata: DataStreamMetadata) -> (r: OutputHandle)
        ensures
            r.metadata_spec() == metadata,
    {
        match metadata.data_stream_type {
            DataStreamType::Value => OutputHandle::Value(ValueOutputHandle { metadata }),
            DataStreamType::List => OutputHandle::List(ListOutputHandle { metadata }),
            DataStreamType::Tree => OutputHandle::Tree(TreeOutputHandle { metadata }),
        }
    }
}

impl InputHandle {
    /// The metadata this handle carries.
    pub open spec fn metadata_spec(&self) -> DataStreamMetadata {
        match self {
            InputHandle::Value(v) => v.metadata,
            InputHandle::List(l) => l.metadata,
            InputHandle::Tree(m) => *m,
        }
    }

    /// Wraps metadata in the handle of the matching shape.
    pub fn from_metadata(metadata: DataStreamMetadata) -> (r: InputHandle)
        ensures
            r.metadata_spec() == metadata,
    {
        match metadata.data_stream_type {
            DataStreamType::Value => InputHandle::Value(ValueInputHandle { metadata }),
            DataStreamType::List => InputHandle::List(ListInputHandle { metadata }),
            DataStreamType::Tree => InputHandle::Tree(metadata),
        }
    }
}

/// The handles of every entry of a registry, in id order; each handle
/// carries its entry's metadata.
pub fn output_handles(reg: &DataStreamStorage) -> (r: Vec<OutputHandle>)
    requires
        reg.wf(),
    ensures
        r@.len() == reg.entries_model().len(),
        forall|i: int|
            0 <= i < r@.len() ==> crate::registry::metadata_model(
                (#[trigger] r@[i]).metadata_spec(),
            ) == reg.entries_model()[i].metadata,
{
    let mut out: Vec<OutputHandle> = Vec::new();
    let mut i: usize = 0;
    while i < reg.entry_count()
        invariant
            reg.wf(),
            0 <= i <= reg.entries_model().len(),
            out@.len() == i,
            forall|k: int|
                0 <= k < i ==> crate::registry::metadata_model(
                    (#[trigger] out@[k]).metadata_spec(),
                ) == reg.entries_model()[k].metadata,
        decreases reg.entries_model().len() - i,
    {
        let md = clone_metadata(&reg.entry_at(i).metadata);
        out.push(OutputHandle::from_metadata(md));
        i = i + 1;
    }
    out
}

/// The input handles of every entry of a registry, in id order; each
/// handle carries its entry's metadata.
pub fn input_handles(reg: &DataStreamStorage) -> (r: Vec<InputHandle>)
    requires
        reg.wf(),
    ensures
        r@.len() == reg.entries_model().len(),
        forall|i: int|
            0 <= i < r@.len() ==> crate::registry::metadata_model(
                (#[trigger] r@[i]).metadata_spec(),
            ) == reg.entries_model()[i].metadata,
{
    let mut out: Vec<InputHandle> = Vec::new();
    let mut i: usize = 0;
    while i < reg.entry_count()
        invariant
            reg.wf(),
            0 <= i <= reg.entries_model().len(),
            out@.len() == i,
            forall|k: int|
                0 <= k < i ==> crate::registry::metadata_model(
                    (#[trigger] out@[k]).metadata_spec(),
                ) == reg.entries_model()[k].metadata,
        decreases reg.entries_model().len() - i,
    {
        let md = clone_metadata(&reg.entry_at(i).metadata);
        out.push(InputHandle::from_metadata(md));
        i = i + 1;
    }
    out
}

/// Registers a fresh value-shaped input, optionally seeded, and hands
/// back its handle.
pub fn new_value_input(
    reg: &mut DataStreamStorage,
    table: &mut StreamTable,
    name: String,
    description: String,
    data_type: crate::types::CommanderDataType,
    initial: Option<CommanderValue>,
) -> (r: ValueInputHandle)
    requires
        old(reg).wf(),
        old(reg).can_allocate(),
        old(reg).changes_model().len() < u64::MAX,
        old(table).wf(),
        old(reg).keys_bounded(old(table).model().len() as int),
    ensures
        final(reg).wf(),
        final(table).wf(),
        final(reg).keys_bounded(final(table).model().len() as int),
        r.metadata.id == old(reg).next_id(),
        final(reg).next_id() == old(reg).next_id() + 1,
        final(reg).entries_model() == old(reg).entries_model().push(
            crate::registry::EntryModel {
                metadata: crate::registry::MetadataModel {
                    id: r.metadata.id,
                    name: name@,
                    description: description@,
                    data_type: crate::types::dt_model(data_type),
                    data_stream_type: DataStreamType::Value,
                },
                stream: old(table).model().len() as int,
            },
        ),
        final(reg).changes_model() == old(reg).changes_model().push(
            crate::registry::ResourceChangeModel::Added(
                final(reg).entries_model().last().metadata,
            ),
        ),
        final(table).model() == old(table).model().push(final(table).model().last()),
        final(table).model().last() matches DataStream::Value(v) && v.current() == (match initial {
            Some(x) => Some(value_model(x)),
            None => None::<ValueModel>,
        }) && v.updates_model() == Seq::<crate::value_stream::ValueChangeModel>::empty(),
        metadata_model(r.metadata) == final(reg).entries_model().last().metadata,
    {
        let md_type = crate::parse::clone_data_type(&data_type);
        let md_name = name.clone();
        let md_desc = description.clone();
        let key = table.add_stream(DataStream::Value(ValueStream::new(initial)));
        let ghost entries_before = reg.entries_model();
        proof {
            assert(table.model()[key as int] == table.model().last());
        }
        let id = reg.add(name, description, data_type, DataStreamType::Value, key, table);
        proof {
            assert forall|i: int| 0 <= i < reg.entries_model().len() implies (
            #[trigger] reg.entries_model()[i]).stream < table.model().len() as int by {
                if i < entries_before.len() {
                    assert(reg.entries_model()[i] == entries_before[i]);
                }
            }
        }
        let metadata = DataStreamMetadata {
            id,
            name: md_name,
            description: md_desc,
            data_type: md_type,
            data_stream_type: DataStreamType::Value,
        };
        ValueInputHandle { metadata }
    }

/// Registers a fresh, empty list-shaped input and hands back its handle.
pub fn new_list_input(
    reg: &mut DataStreamStorage,
    table: &mut StreamTable,
    name: String,
    description: String,
    data_type: crate::types::CommanderDataType,
) -> (r: ListInputHandle)
    requires
        old(reg).wf(),
        old(reg).can_allocate(),
        old(reg).changes_model().len() < u64::MAX,
        old(table).wf(),
        old(reg).keys_bounded(old(table).model().len() as int),
    ensures
        final(reg).wf(),
        final(table).wf(),
        final(reg).keys_bounded(final(table).model().len() as int),
        r.metadata.id == old(reg).next_id(),
        final(reg).next_id() == old(reg).next_id() + 1,
        final(reg).entries_model() == old(reg).entries_model().push(
            crate::registry::EntryModel {
                metadata: crate::registry::MetadataModel {
                    id: r.metadata.id,
                    name: name@,
                    description: description@,
                    data_type: crate::types::dt_model(data_type),
                    data_stream_type: DataStreamType::List,
                },
                stream: old(table).model().len() as int,
            },
        ),
        final(reg).changes_model() == old(reg).changes_model().push(
            crate::registry::ResourceChangeModel::Added(
                final(reg).entries_model().last().metadata,
            ),
        ),
        final(table).model() == old(table).model().push(final(table).model().last()),
        final(table).model().last() matches DataStream::List(l) && l.items_model() == Seq::<
            ValueModel,
        >::empty() && l.updates_model() == Seq::<crate::list_stream::ListChangeModel>::empty()
            && l.requests_model() == Seq::<u32>::empty() && !l.has_more(),
        metadata_model(r.metadata) == final(reg).entries_model().last().metadata,
    {
        let md_type = crate::parse::clone_data_type(&data_type);
        let md_name = name.clone();
        let md_desc = description.clone();
        let key = table.add_stream(DataStream::List(ListStream::new()));
        let ghost entries_before = reg.entries_model();
        proof {
            assert(table.model()[key as int] == table.model().last());
        }
        let id = reg.add(name, description, data_type, DataStreamType::List, key, table);
        proof {
            assert forall|i: int| 0 <= i < reg.entries_model().len() implies (
            #[trigger] reg.entries_model()[i]).stream < table.model().len() as int by {
                if i < entries_before.len() {
                    assert(reg.entries_model()[i] == entries_before[i]);
                }
            }
        }
        let metadata = DataStreamMetadata {
            id,
            name: md_name,
            description: md_desc,
            data_type: md_type,
            data_stream_type: DataStreamType::List,
        };
        ListInputHandle { metadata }
    }

/// Rebinds the input entry `input_id` to consume the stream of the
/// output entry `output_id`: the input keeps its id, name, description
/// and declared type, its underlying stream becomes the output's, and
/// the input registry broadcasts `DataStreamChanged` so observers
/// holding the id resubscribe. Binding succeeds exactly when both
/// entries exist and their declared types are equal; on a type mismatch
/// it fails with `TypeMismatch` and the input registry is unchanged.
pub fn bind_input(
    inputs: &mut DataStreamStorage,
    input_id: ResourceId,
    outputs: &DataStreamStorage,
    output_id: ResourceId,
) -> (r: Result<(), CommanderError>)
    requires
        old(inputs).wf(),
        old(inputs).changes_model().len() < u64::MAX,
        outputs.wf(),
    ensures
        final(inputs).wf(),
        r is Ok <==> {
            &&& old(inputs).has_entry(input_id)
            &&& outputs.has_entry(output_id)
            &&& old(inputs).entries_model()[old(inputs).index_of(input_id)].metadata.data_type
                == outputs.entries_model()[outputs.index_of(output_id)].metadata.data_type
        },
        r matches Err(e) ==> *final(inputs) == *old(inputs) && (e.kind == ErrorKind::TypeMismatch
            <==> (old(inputs).has_entry(input_id) && outputs.has_entry(output_id))) && (e.kind
            == ErrorKind::NotFound <==> !(old(inputs).has_entry(input_id) && outputs.has_entry(
            output_id,
        ))),
        r is Ok ==> {
            &&& final(inputs).entries_model() == old(inputs).entries_model().update(
                old(inputs).index_of(input_id),
                crate::registry::EntryModel {
                    metadata: old(inputs).entries_model()[old(inputs).index_of(
                        input_id,
                    )].metadata,
                    stream: outputs.entries_model()[outputs.index_of(output_id)].stream,
                },
            )
            &&& final(inputs).changes_model() == old(inputs).changes_model().push(
                crate::registry::ResourceChangeModel::DataStreamChanged(input_id),
            )
        },
{
    let out_entry = match outputs.get(output_id) {
        Some(e) => e,
        None => {
            return Err(
                CommanderError::new(
                    ErrorKind::NotFound,
                    crate::strings::str_to_string("the output id is not registered"),
                ),
            );
        },
    };
    let in_entry = match inputs.get(input_id) {
        Some(e) => e,
        None => {
            return Err(
                CommanderError::new(
                    ErrorKind::NotFound,
                    crate::strings::str_to_string("the input id is not registered"),
                ),
            );
        },
    };
    if !crate::types::type_eq(&in_entry.metadata.data_type, &out_entry.metadata.data_type) {
        return Err(
            CommanderError::new(
                ErrorKind::TypeMismatch,
                crate::strings::str_to_string(
                    "the declared types of the input and the output differ",
                ),
            ),
        );
    }
    let new_key = out_entry.stream;
    let r = inputs.change_data_stream(input_id, new_key);
    proof {
        assert(r is Ok);
    }
    Ok(())
}

} // verus!
