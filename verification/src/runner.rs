//! The program runner's schema handling: validating a guest's declared
//! argument specs and filling in default input streams for the
//! arguments a host left unconfigured. Loading the guest and invoking
//! its entry points is the sandbox's work and stays outside the
//! library; the decisions live here.

use vstd::prelude::*;

use crate::datastream::DataStreamType;
use crate::errors::{CommanderError, ErrorKind};
use crate::model::seq_distinct;
use crate::registry::{DataStreamStorage, ResourceId, StreamTable};
use crate::strings::{str_eq, str_to_string};
use crate::types::CommanderDataType;

verus! {

/// One declared argument of a guest's schema.
#[derive(Debug)]
pub struct ArgumentSpec {
    pub name: String,
    pub description: String,
    pub data_type: String,
    pub supports_updates: bool,
}

/// A guest's schema: its name, whether running it changes outside
/// state, and its declared arguments.
#[derive(Debug)]
pub struct Schema {
    pub name: String,
    pub description: String,
    pub performs_state_change: bool,
    pub arguments: Vec<ArgumentSpec>,
}

/// Checks that the schema's argument names are pairwise distinct; a
/// duplicate name fails run construction with `InvalidOperation`.
pub fn validate_schema(schema: &Schema) -> (r: Result<(), CommanderError>)
    ensures
        r is Ok <==> seq_distinct(schema.arguments@.map_values(|a: ArgumentSpec| a.name@)),
        r matches Err(e) ==> e.kind == ErrorKind::InvalidOperation,
{
    let ghost names = schema.arguments@.map_values(|a: ArgumentSpec| a.name@);
    let mut i: usize = 0;
    while i < schema.arguments.len()
        invariant
            0 <= i <= schema.arguments@.len(),
            names == schema.arguments@.map_values(|a: ArgumentSpec| a.name@),
            forall|k: int, l: int| 0 <= k < l < i ==> names[k] != names[l],
        decreases schema.arguments@.len() - i,
    {
        let mut j: usize = 0;
        while j < i
            invariant
                0 <= j <= i < schema.arguments@.len(),
                names == schema.arguments@.map_values(|a: ArgumentSpec| a.name@),
                forall|l: int| 0 <= l < j ==> names[l] != names[i as int],
            decreases i - j,
        {
            if str_eq(schema.arguments[j].name.as_str(), schema.arguments[i].name.as_str()) {
                assert(names[j as int] == schema.arguments@[j as int].name@);
                assert(names[i as int] == schema.arguments@[i as int].name@);
                assert(!seq_distinct(names));
                return Err(
                    CommanderError::new(
                        ErrorKind::InvalidOperation,
                        str_to_string("the schema declares two arguments with one name"),
                    ),
                );
            }
            j = j + 1;
        }
        i = i + 1;
    }
    Ok(())
}

/// One argument a host configured before starting the run: the spec's
/// name and the input id it wired up.
#[derive(Debug)]
pub struct ConfiguredArgument {
    pub name: String,
    pub input: ResourceId,
}

/// The input id the host wired up for an argument name, taking the
/// first configuration with that name, if any.
pub open spec fn first_match(cs: Seq<ConfiguredArgument>, name: Seq<char>) -> Option<ResourceId>
    decreases cs.len(),
{
    if cs.len() == 0 {
        None
    } else if cs[0].name@ == name {
        Some(cs[0].input)
    } else {
        first_match(cs.drop_first(), name)
    }
}

/// What the run builder owes for one argument position: a configured
/// argument keeps its input id; an unconfigured one got a fresh entry
/// carrying the spec's name, description and parsed type, backed by an
/// empty stream of the matching shape — list-shaped for a list type,
/// value-shaped otherwise.
pub open spec fn run_input_ok(
    args: Seq<ArgumentSpec>,
    configured: Seq<ConfiguredArgument>,
    ids: Seq<ResourceId>,
    reg: DataStreamStorage,
    table: StreamTable,
    i: int,
) -> bool {
    match first_match(configured, args[i].name@) {
        Some(cid) => ids[i] == cid,
        None => {
            let t = crate::parse::parse_spec(args[i].data_type@)->Some_0;
            &&& reg.has_entry(ids[i])
            &&& {
                let e = reg.entries_model()[reg.index_of(ids[i])];
                &&& e.metadata.name == args[i].name@
                &&& e.metadata.description == args[i].description@
                &&& e.metadata.data_type == t
                &&& e.metadata.data_stream_type == (if t is List {
                    crate::datastream::DataStreamType::List
                } else {
                    crate::datastream::DataStreamType::Value
                })
                &&& 0 <= e.stream < table.model().len()
                &&& (match table.model()[e.stream] {
                    crate::datastream::DataStream::List(l) => t is List && l.items_model()
                        == Seq::<crate::model::ValueModel>::empty(),
                    crate::datastream::DataStream::Value(v) => !(t is List) && v.current()
                        is None,
                    _ => false,
                })
            }
        },
    }
}

/// Builds the full input list for a run: every argument a host
/// configured keeps its input id; for every other argument a default
/// input is registered from the spec's printed type — an empty
/// list-shaped input for a list type, an empty value-shaped input
/// otherwise. Succeeds exactly when every unconfigured argument's type
/// text parses; a malformed one fails with `TypeParse`, since the
/// schema is the guest's word and is checked, not assumed.
#[verifier::loop_isolation(false)]
pub fn build_run_inputs(
    schema: &Schema,
    configured: &Vec<ConfiguredArgument>,
    reg: &mut DataStreamStorage,
    table: &mut StreamTable,
) -> (r: Result<Vec<ResourceId>, CommanderError>)
    requires
        old(reg).wf(),
        old(table).wf(),
        old(reg).keys_bounded(old(table).model().len() as int),
        old(reg).next_id() + schema.arguments@.len() <= u32::MAX,
        old(reg).changes_model().len() + schema.arguments@.len() < u64::MAX,
    ensures
        final(reg).wf(),
        final(table).wf(),
        final(reg).keys_bounded(final(table).model().len() as int),
        r is Ok <==> (forall|i: int|
            0 <= i < schema.arguments@.len() ==> (first_match(
                configured@,
                (#[trigger] schema.arguments@[i]).name@,
            ) is Some || crate::parse::parse_spec(schema.arguments@[i].data_type@) is Some)),
        r matches Ok(ids) ==> ids@.len() == schema.arguments@.len() && (forall|i: int|
            0 <= i < schema.arguments@.len() ==> run_input_ok(
                schema.arguments@,
                configured@,
                ids@,
                *final(reg),
                *final(table),
                i,
            )),
        r matches Err(e) ==> e.kind == ErrorKind::TypeParse,
{
    let ghost args = schema.arguments@;
    let mut ids: Vec<ResourceId> = Vec::new();
    let mut i: usize = 0;
    while i < schema.arguments.len()
        invariant
            ids@.len() == i,
            0 <= i <= args.len(),
            reg.wf(),
            table.wf(),
            reg.keys_bounded(table.model().len() as int),
            reg.next_id() + args.len() - i <= u32::MAX,
            reg.changes_model().len() + args.len() - i < u64::MAX,
            forall|p: int|
                0 <= p < i ==> (first_match(configured@, (#[trigger] args[p]).name@) is Some
                    || crate::parse::parse_spec(args[p].data_type@) is Some),
            forall|p: int| 0 <= p < i ==> run_input_ok(args, configured@, ids@, *reg, *table, p),
        decreases args.len() - i,
    {
        let found = find_configured(configured, schema.arguments[i].name.as_str());
        match found {
            Some(id) => {
                let ghost ids_before = ids@;
                ids.push(id);
                proof {
                    assert forall|p: int| 0 <= p < i + 1 implies run_input_ok(
                        args,
                        configured@,
                        ids@,
                        *reg,
                        *table,
                        p,
                    ) by {
                        if p < i as int {
                            assert(ids@[p] == ids_before[p]);
                            assert(run_input_ok(args, configured@, ids_before, *reg, *table, p));
                        } else {
                            assert(first_match(configured@, args[p].name@) == Some(id));
                        }
                    }
                }
            },
            None => {
                let data_type = match crate::parse::parse(schema.arguments[i].data_type.as_str()) {
                    Ok(t) => t,
                    Err(e) => {
                        return Err(e);
                    },
                };
                let ghost reg_before = *reg;
                let ghost table_before = *table;
                let ghost tm = crate::types::dt_model(data_type);
                let ghost is_list = data_type is List;
                proof {
                    assert(is_list <==> tm is List);
                }
                let name = schema.arguments[i].name.clone();
                let description = schema.arguments[i].description.clone();
                let id = match data_type {
                    CommanderDataType::List(_) => {
                        let h = crate::handles::new_list_input(
                            reg,
                            table,
                            name,
                            description,
                            data_type,
                        );
                        h.metadata.id
                    },
                    _ => {
                        let h = crate::handles::new_value_input(
                            reg,
                            table,
                            name,
                            description,
                            data_type,
                            None,
                        );
                        h.metadata.id
                    },
                };
                let ghost ids_before = ids@;
                proof {
                    assert(reg.next_id() == reg_before.next_id() + 1);
                    assert(reg.changes_model().len() == reg_before.changes_model().len() + 1);
                    reg.lemma_last_lookup();
                    assert(reg.entries_model().last().metadata.id == id);
                }
                ids.push(id);
                proof {
                    assert forall|p: int| 0 <= p < i + 1 implies run_input_ok(
                        args,
                        configured@,
                        ids@,
                        *reg,
                        *table,
                        p,
                    ) by {
                        if p < i as int {
                            assert(ids@[p] == ids_before[p]);
                            assert(run_input_ok(
                                args,
                                configured@,
                                ids_before,
                                reg_before,
                                table_before,
                                p,
                            ));
                            if first_match(configured@, args[p].name@) is None {
                                crate::registry::DataStreamStorage::lemma_add_preserves_lookup(
                                    reg_before,
                                    *reg,
                                    ids_before[p],
                                );
                                let e = reg_before.entries_model()[reg_before.index_of(
                                    ids_before[p],
                                )];
                                assert(table.model()[e.stream] == table_before.model()[e.stream]);
                            }
                        } else {
                            let e = reg.entries_model()[reg.index_of(id)];
                            assert(e == reg.entries_model().last());
                            assert(e.stream == table_before.model().len() as int);
                            assert(table.model()[e.stream] == table.model().last());
                            assert(e.metadata.data_type == tm);
                            assert(run_input_ok(args, configured@, ids@, *reg, *table, p));
                        }
                    }
                }
            },
        }
        i = i + 1;
    }
    Ok(ids)
}

/// Scans the configured arguments for the first with the given name.
fn find_configured(configured: &Vec<ConfiguredArgument>, name: &str) -> (r: Option<ResourceId>)
    ensures
        r == first_match(configured@, name@),
{
    proof {
        assert(configured@.skip(0) =~= configured@);
    }
    let mut j: usize = 0;
    while j < configured.len()
        invariant
            0 <= j <= configured@.len(),
            first_match(configured@, name@) == first_match(configured@.skip(j as int), name@),
        decreases configured@.len() - j,
    {
        proof {
            assert(configured@.skip(j as int)[0] == configured@[j as int]);
            assert(configured@.skip(j as int).drop_first() =~= configured@.skip(j as int + 1));
        }
        if str_eq(configured[j].name.as_str(), name) {
            return Some(configured[j].input);
        }
        j = j + 1;
    }
    proof {
        assert(configured@.skip(configured@.len() as int) =~= Seq::<ConfiguredArgument>::empty());
    }
    None
}

} // verus!
