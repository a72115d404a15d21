use tooltrain::bridge::{
    add_list_output, add_tree_output, add_value_output, list_output_add, list_output_clear,
    new_list_change_stream, new_tree_change_stream, poll_list_change, poll_tree_change,
    tree_output_add, tree_output_clear, tree_output_remove, ListWireChange, TreeWireChange,
};
use tooltrain::tree_stream::TreeNode;
use tooltrain::errors::ErrorKind;
use tooltrain::handles::{bind_input, new_list_input, new_value_input};
use tooltrain::parse::parse;
use tooltrain::registry::{DataStreamStorage, StreamTable};
use tooltrain::runner::{
    build_run_inputs, validate_schema, ArgumentSpec, ConfiguredArgument, Schema,
};
use tooltrain::types::CommanderValue;

#[test]
fn registry_allocates_growing_ids() {
    let mut table = StreamTable::new();
    let mut reg = DataStreamStorage::new();
    let a = new_value_input(
        &mut reg,
        &mut table,
        "a".to_string(),
        "".to_string(),
        parse("number").unwrap(),
        None,
    );
    let b = new_value_input(
        &mut reg,
        &mut table,
        "b".to_string(),
        "".to_string(),
        parse("number").unwrap(),
        None,
    );
    assert_eq!(a.metadata.id, 0);
    assert_eq!(b.metadata.id, 1);
    assert!(reg.remove(b.metadata.id, &mut table));
    assert!(!reg.remove(b.metadata.id, &mut table));

    // ids are never reused within a run, even after the greatest entry
    // was removed
    let c = new_value_input(
        &mut reg,
        &mut table,
        "c".to_string(),
        "".to_string(),
        parse("number").unwrap(),
        None,
    );
    assert_eq!(c.metadata.id, 2);
}

#[test]
fn binding_requires_equal_declared_types() {
    let mut table = StreamTable::new();
    let mut inputs = DataStreamStorage::new();
    let mut outputs = DataStreamStorage::new();
    let input = new_list_input(
        &mut inputs,
        &mut table,
        "In".to_string(),
        "".to_string(),
        parse("list<string>").unwrap(),
    );
    let out_ok = add_list_output(
        &mut outputs,
        &mut table,
        "Out".to_string(),
        "".to_string(),
        "list<string>",
    )
    .unwrap();
    let out_bad = add_list_output(
        &mut outputs,
        &mut table,
        "Other".to_string(),
        "".to_string(),
        "list<number>",
    )
    .unwrap();

    let e = bind_input(&mut inputs, input.metadata.id, &outputs, out_bad).unwrap_err();
    assert_eq!(e.kind(), ErrorKind::TypeMismatch);
    bind_input(&mut inputs, input.metadata.id, &outputs, out_ok).unwrap();
}

#[test]
fn bound_input_reports_replace_then_append() {
    let mut table = StreamTable::new();
    let mut inputs = DataStreamStorage::new();
    let mut outputs = DataStreamStorage::new();
    let input = new_list_input(
        &mut inputs,
        &mut table,
        "In".to_string(),
        "".to_string(),
        parse("list<string>").unwrap(),
    );
    let out_id = add_list_output(
        &mut outputs,
        &mut table,
        "Out".to_string(),
        "".to_string(),
        "list<string>",
    )
    .unwrap();

    // subscribe to the input's changes before binding
    let mut cursor = new_list_change_stream(&inputs, &table, input.metadata.id).unwrap();
    assert!(matches!(poll_list_change(&mut cursor, &inputs, &table), Ok(None)));

    bind_input(&mut inputs, input.metadata.id, &outputs, out_id).unwrap();

    // the subscriber first sees the synthetic snapshot of the new
    // stream, empty at bind time
    match poll_list_change(&mut cursor, &inputs, &table).unwrap() {
        Some(ListWireChange::Replace(items)) => assert_eq!(items.len(), 0),
        _ => panic!("expected the synthetic replace"),
    }

    // the producer writes to the output after the bind
    let payload = parse("string")
        .unwrap()
        .encode(&CommanderValue::String("x".to_string()))
        .unwrap();
    list_output_add(&outputs, &mut table, out_id, &payload).unwrap();

    // then the append arrives, as the same event the output produced
    match poll_list_change(&mut cursor, &inputs, &table).unwrap() {
        Some(ListWireChange::Append(bytes)) => assert_eq!(bytes, payload),
        _ => panic!("expected the append"),
    }
    assert!(matches!(poll_list_change(&mut cursor, &inputs, &table), Ok(None)));
}

#[test]
fn value_output_set_and_get_round_trip() {
    let mut table = StreamTable::new();
    let mut outputs = DataStreamStorage::new();
    let id = add_value_output(
        &mut outputs,
        &mut table,
        "Out".to_string(),
        "".to_string(),
        "number",
        None,
    )
    .unwrap();
    assert!(tooltrain::bridge::value_input_get(&outputs, &table, id)
        .unwrap()
        .is_none());
    let blob = parse("number")
        .unwrap()
        .encode(&CommanderValue::Number(f64::to_bits(4.5)))
        .unwrap();
    tooltrain::bridge::value_output_set(&outputs, &mut table, id, &blob).unwrap();
    let back = tooltrain::bridge::value_input_get(&outputs, &table, id)
        .unwrap()
        .unwrap();
    assert_eq!(back, blob);
}

#[test]
fn schema_rejects_duplicate_argument_names() {
    let arg = |name: &str, ty: &str| ArgumentSpec {
        name: name.to_string(),
        description: "".to_string(),
        data_type: ty.to_string(),
        supports_updates: false,
    };
    let bad = Schema {
        name: "p".to_string(),
        description: "".to_string(),
        performs_state_change: false,
        arguments: vec![arg("a", "number"), arg("a", "string")],
    };
    assert_eq!(
        validate_schema(&bad).unwrap_err().kind(),
        ErrorKind::InvalidOperation
    );
    let good = Schema {
        name: "p".to_string(),
        description: "".to_string(),
        performs_state_change: false,
        arguments: vec![arg("a", "number"), arg("b", "string")],
    };
    validate_schema(&good).unwrap();
}

#[test]
fn run_inputs_fill_defaults_by_declared_shape() {
    let arg = |name: &str, ty: &str| ArgumentSpec {
        name: name.to_string(),
        description: "".to_string(),
        data_type: ty.to_string(),
        supports_updates: false,
    };
    let schema = Schema {
        name: "p".to_string(),
        description: "".to_string(),
        performs_state_change: false,
        arguments: vec![arg("dir", "path"), arg("rows", "list<string>")],
    };
    let mut table = StreamTable::new();
    let mut reg = DataStreamStorage::new();
    let configured = new_value_input(
        &mut reg,
        &mut table,
        "dir".to_string(),
        "".to_string(),
        parse("path").unwrap(),
        Some(CommanderValue::Path(vec!["tmp".to_string()])),
    );
    let wired = vec![ConfiguredArgument { name: "dir".to_string(), input: configured.metadata.id }];
    let ids = build_run_inputs(&schema, &wired, &mut reg, &mut table).unwrap();
    assert_eq!(ids.len(), 2);
    assert_eq!(ids[0], configured.metadata.id);
    let fresh = reg.get(ids[1]).unwrap();
    assert_eq!(fresh.metadata.data_type.type_string(), "list<string>");

    let broken = Schema {
        name: "p".to_string(),
        description: "".to_string(),
        performs_state_change: false,
        arguments: vec![arg("x", "not a type")],
    };
    let e = build_run_inputs(&broken, &vec![], &mut reg, &mut table).unwrap_err();
    assert_eq!(e.kind(), ErrorKind::TypeParse);
}

#[test]
fn value_cursor_reports_sets_and_clears() {
    let mut table = StreamTable::new();
    let mut outputs = DataStreamStorage::new();
    let id = add_value_output(
        &mut outputs,
        &mut table,
        "Out".to_string(),
        "".to_string(),
        "number",
        None,
    )
    .unwrap();
    let mut cursor =
        tooltrain::bridge::new_value_change_stream(&outputs, &table, id).unwrap();
    assert!(matches!(
        tooltrain::bridge::poll_value_change(&mut cursor, &outputs, &table),
        Ok(None)
    ));
    let blob = parse("number")
        .unwrap()
        .encode(&CommanderValue::Number(f64::to_bits(7.0)))
        .unwrap();
    tooltrain::bridge::value_output_set(&outputs, &mut table, id, &blob).unwrap();
    match tooltrain::bridge::poll_value_change(&mut cursor, &outputs, &table).unwrap() {
        Some(Some(bytes)) => assert_eq!(bytes, blob),
        _ => panic!("expected the new value"),
    }
    assert!(matches!(
        tooltrain::bridge::poll_value_change(&mut cursor, &outputs, &table),
        Ok(None)
    ));
}

#[test]
fn tree_cursor_reports_appends_removals_and_clears() {
    let mut table = StreamTable::new();
    let mut outputs = DataStreamStorage::new();
    let id = add_tree_output(
        &mut outputs,
        &mut table,
        "Tree".to_string(),
        "".to_string(),
        "path",
    )
    .unwrap();
    let mut cursor = new_tree_change_stream(&outputs, &table, id).unwrap();
    let node = |s: &str| TreeNode { id: s.to_string(), value: vec![], has_children: false };

    tree_output_add(&outputs, &mut table, id, None, vec![node("a")]).unwrap();
    match poll_tree_change(&mut cursor, &outputs, &table).unwrap() {
        Some(TreeWireChange::Append(ns)) => {
            assert_eq!(ns.len(), 1);
            assert_eq!(ns[0].id, "a");
        }
        _ => panic!("expected the appended node"),
    }
    tree_output_remove(&outputs, &mut table, id, "a").unwrap();
    match poll_tree_change(&mut cursor, &outputs, &table).unwrap() {
        Some(TreeWireChange::Remove(ids)) => assert_eq!(ids, vec!["a".to_string()]),
        _ => panic!("expected the removal"),
    }
    tree_output_add(&outputs, &mut table, id, None, vec![node("b")]).unwrap();
    tree_output_clear(&outputs, &mut table, id).unwrap();
    assert!(matches!(
        poll_tree_change(&mut cursor, &outputs, &table).unwrap(),
        Some(TreeWireChange::Append(_))
    ));
    match poll_tree_change(&mut cursor, &outputs, &table).unwrap() {
        Some(TreeWireChange::Replace(ns)) => assert!(ns.is_empty()),
        _ => panic!("expected the replacement"),
    }
    assert!(matches!(poll_tree_change(&mut cursor, &outputs, &table), Ok(None)));
}

#[test]
fn lagged_list_cursor_resnapshots() {
    let mut table = StreamTable::new();
    let mut outputs = DataStreamStorage::new();
    let id = add_list_output(
        &mut outputs,
        &mut table,
        "Out".to_string(),
        "".to_string(),
        "list<number>",
    )
    .unwrap();
    let mut cursor = new_list_change_stream(&outputs, &table, id).unwrap();
    let number_type = parse("number").unwrap();
    for k in 0..200u32 {
        let blob = number_type
            .encode(&CommanderValue::Number(f64::to_bits(k as f64)))
            .unwrap();
        list_output_add(&outputs, &mut table, id, &blob).unwrap();
    }
    // the cursor fell 72 changes behind the 128-event ring: it observes
    // the gap as a fresh snapshot of all 200 rows
    match poll_list_change(&mut cursor, &outputs, &table).unwrap() {
        Some(ListWireChange::Replace(items)) => assert_eq!(items.len(), 200),
        _ => panic!("expected the re-snapshot"),
    }
    assert!(matches!(poll_list_change(&mut cursor, &outputs, &table), Ok(None)));
}

#[test]
fn list_output_clear_empties_by_id() {
    let mut table = StreamTable::new();
    let mut outputs = DataStreamStorage::new();
    let id = add_list_output(
        &mut outputs,
        &mut table,
        "Out".to_string(),
        "".to_string(),
        "list<number>",
    )
    .unwrap();
    let blob = parse("number")
        .unwrap()
        .encode(&CommanderValue::Number(f64::to_bits(1.0)))
        .unwrap();
    list_output_add(&outputs, &mut table, id, &blob).unwrap();
    let mut cursor = new_list_change_stream(&outputs, &table, id).unwrap();
    list_output_clear(&outputs, &mut table, id).unwrap();
    match poll_list_change(&mut cursor, &outputs, &table).unwrap() {
        Some(ListWireChange::Replace(items)) => assert!(items.is_empty()),
        _ => panic!("expected the cleared list"),
    }
}
