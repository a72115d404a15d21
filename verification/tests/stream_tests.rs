use tooltrain::broadcast::{Broadcast, RecvOutcome};
use tooltrain::errors::ErrorKind;
use tooltrain::list_stream::{ListChange, ListStream};
use tooltrain::tree_stream::{TreeChange, TreeNode, TreeStream};
use tooltrain::types::CommanderValue;
use tooltrain::value_stream::{ValueChange, ValueStream};

fn number(x: f64) -> CommanderValue {
    CommanderValue::Number(f64::to_bits(x))
}

#[test]
fn value_stream_broadcasts_sets_in_order() {
    let mut s = ValueStream::new(None);
    let mut sub = s.subscribe();
    s.set(number(1.0));
    s.set(number(2.0));
    s.set(number(3.0));
    for expected in [1.0, 2.0, 3.0] {
        match s.recv_update(&mut sub) {
            RecvOutcome::Event(ValueChange::SetTo(v)) => assert_eq!(*v, number(expected)),
            _ => panic!("expected a set change"),
        }
    }
    assert!(matches!(s.recv_update(&mut sub), RecvOutcome::Empty));
    assert_eq!(s.snapshot(), Some(number(3.0)));
}

#[test]
fn subscriber_sees_only_later_changes() {
    let mut s = ValueStream::new(None);
    s.set(number(1.0));
    let mut sub = s.subscribe();
    s.set(number(2.0));
    match s.recv_update(&mut sub) {
        RecvOutcome::Event(ValueChange::SetTo(v)) => assert_eq!(*v, number(2.0)),
        _ => panic!("expected a set change"),
    }
    assert!(matches!(s.recv_update(&mut sub), RecvOutcome::Empty));
}

#[test]
fn list_adds_arrive_in_order() {
    let mut l = ListStream::new();
    let mut sub = l.subscribe();
    l.add(number(1.0));
    l.add(number(2.0));
    l.add(number(3.0));
    assert_eq!(l.snapshot(), vec![number(1.0), number(2.0), number(3.0)]);
    for expected in [1.0, 2.0, 3.0] {
        match l.recv_update(&mut sub) {
            RecvOutcome::Event(ListChange::Add(v)) => assert_eq!(*v, number(expected)),
            _ => panic!("expected an add change"),
        }
    }
    assert!(matches!(l.recv_update(&mut sub), RecvOutcome::Empty));
}

#[test]
fn pop_on_empty_list_fails_and_changes_nothing() {
    let mut l = ListStream::new();
    l.add(number(1.0));
    assert!(l.pop().is_ok());
    let e = l.pop().unwrap_err();
    assert_eq!(e.kind(), ErrorKind::InvalidOperation);
    assert_eq!(l.snapshot(), Vec::<CommanderValue>::new());
}

#[test]
fn paged_list_back_channel() {
    let mut l = ListStream::new();
    let mut req = l.subscribe_requests();
    l.set_has_more_rows(true);
    assert!(l.request_page(50));
    match l.recv_request(&mut req) {
        RecvOutcome::Event(limit) => assert_eq!(*limit, 50),
        _ => panic!("expected a page request"),
    }
    l.set_has_more_rows(false);
    assert!(!l.request_page(50));
    assert!(matches!(l.recv_request(&mut req), RecvOutcome::Empty));
}

fn node(id: &str) -> TreeNode {
    TreeNode { id: id.to_string(), value: vec![], has_children: false }
}

#[test]
fn tree_expand_request() {
    let mut t = TreeStream::new();
    t.add(None, vec![node("a")]).unwrap();
    let mut req = t.subscribe_requests();
    assert!(t.request_children("a"));
    match t.recv_request(&mut req) {
        RecvOutcome::Event(parent) => assert_eq!(parent.as_str(), "a"),
        _ => panic!("expected an expand request"),
    }
    assert!(!t.request_children("missing"));
    assert!(matches!(t.recv_request(&mut req), RecvOutcome::Empty));
}

#[test]
fn tree_add_under_missing_parent_fails_and_changes_nothing() {
    let mut t = TreeStream::new();
    t.add(None, vec![node("a")]).unwrap();
    let e = t.add(Some("missing".to_string()), vec![node("b")]).unwrap_err();
    assert_eq!(e.kind(), ErrorKind::NotFound);
    let entries = t.snapshot_entries();
    assert_eq!(entries.len(), 1);
    assert_eq!(entries[0].node.id, "a");
}

#[test]
fn tree_rejects_duplicate_ids() {
    let mut t = TreeStream::new();
    t.add(None, vec![node("a")]).unwrap();
    let e = t.add(None, vec![node("a")]).unwrap_err();
    assert_eq!(e.kind(), ErrorKind::InvalidOperation);
    let e = t.add(None, vec![node("b"), node("b")]).unwrap_err();
    assert_eq!(e.kind(), ErrorKind::InvalidOperation);
}

#[test]
fn tree_remove_takes_the_whole_subtree() {
    let mut t = TreeStream::new();
    t.add(None, vec![node("a")]).unwrap();
    t.add(Some("a".to_string()), vec![node("b"), node("c")]).unwrap();
    t.add(Some("b".to_string()), vec![node("d")]).unwrap();
    let mut sub = t.subscribe();
    t.remove("b").unwrap();
    let ids: Vec<String> = t
        .snapshot_entries()
        .iter()
        .map(|e| e.node.id.clone())
        .collect();
    assert_eq!(ids, vec!["a".to_string(), "c".to_string()]);
    let mut removed: Vec<String> = Vec::new();
    loop {
        match t.recv_update(&mut sub) {
            RecvOutcome::Event(TreeChange::Remove(n)) => removed.push(n.id.clone()),
            RecvOutcome::Empty => break,
            _ => panic!("expected remove changes only"),
        }
    }
    assert_eq!(removed, vec!["b".to_string(), "d".to_string()]);
    let e = t.remove("missing").unwrap_err();
    assert_eq!(e.kind(), ErrorKind::NotFound);
}

#[test]
fn lagging_subscriber_observes_the_gap() {
    let mut b: Broadcast<u32> = Broadcast::new(2);
    let mut sub = b.subscribe();
    for i in 0..5u32 {
        b.send(i);
    }
    match b.recv(&mut sub) {
        RecvOutcome::Lagged(n) => assert_eq!(n, 3),
        _ => panic!("expected a lost-events signal"),
    }
    match b.recv(&mut sub) {
        RecvOutcome::Event(v) => assert_eq!(*v, 3),
        _ => panic!("expected the oldest retained event"),
    }
    match b.recv(&mut sub) {
        RecvOutcome::Event(v) => assert_eq!(*v, 4),
        _ => panic!("expected the newest event"),
    }
    assert!(matches!(b.recv(&mut sub), RecvOutcome::Empty));
}

#[test]
fn tree_snapshot_is_a_forest_in_insertion_order() {
    let mut t = TreeStream::new();
    t.add(None, vec![node("a"), node("x")]).unwrap();
    t.add(Some("a".to_string()), vec![node("b"), node("c")]).unwrap();
    t.add(Some("b".to_string()), vec![node("d")]).unwrap();
    let forest = t.snapshot();
    assert_eq!(forest.len(), 2);
    assert_eq!(forest[0].value.id, "a");
    assert_eq!(forest[1].value.id, "x");
    assert_eq!(forest[0].children.len(), 2);
    assert_eq!(forest[0].children[0].value.id, "b");
    assert_eq!(forest[0].children[1].value.id, "c");
    assert_eq!(forest[0].children[0].children[0].value.id, "d");
    assert!(forest[1].children.is_empty());

    t.remove("b").unwrap();
    let forest = t.snapshot();
    assert_eq!(forest[0].children.len(), 1);
    assert_eq!(forest[0].children[0].value.id, "c");
}
