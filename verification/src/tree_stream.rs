//! The tree-shaped reactive stream: a forest of nodes keyed by string
//! ids, with an expand-children back-channel.
//!
//! The state is the sequence of inserted entries, each a node together
//! with its optional parent id, in insertion order. The forest invariant
//! holds throughout: ids are distinct and every parent id names an
//! earlier entry.

use vstd::prelude::*;

use crate::broadcast::{Broadcast, RecvOutcome, Subscription};
use crate::errors::{CommanderError, ErrorKind};
use crate::model::seq_distinct;
use crate::strings::{str_eq, str_to_string};
use crate::types::clone_bytes;

verus! {

/// One node of a tree stream: an opaque id, an encoded value payload,
/// and a hint whether children can be requested for it.
#[derive(Debug, PartialEq, Eq)]
pub struct TreeNode {
    pub id: String,
    pub value: Vec<u8>,
    pub has_children: bool,
}

/// The model of a tree node.
pub struct TreeNodeModel {
    pub id: Seq<char>,
    pub value: Seq<u8>,
    pub has_children: bool,
}

/// The model of an executable tree node.
pub open spec fn node_model(n: TreeNode) -> TreeNodeModel {
    TreeNodeModel { id: n.id@, value: n.value@, has_children: n.has_children }
}

/// One inserted entry: a node and its optional parent id.
#[derive(Debug, PartialEq, Eq)]
pub struct TreeEntry {
    pub parent: Option<String>,
    pub node: TreeNode,
}

/// The model of an inserted entry.
pub struct TreeEntryModel {
    pub parent: Option<Seq<char>>,
    pub node: TreeNodeModel,
}

/// The model of an executable entry.
pub open spec fn entry_model(e: TreeEntry) -> TreeEntryModel {
    TreeEntryModel {
        parent: match e.parent {
            Some(p) => Some(p@),
            None => None,
        },
        node: node_model(e.node),
    }
}

/// The model of an optional id.
pub open spec fn opt_str_model(p: Option<String>) -> Option<Seq<char>> {
    match p {
        Some(s) => Some(s@),
        None => None,
    }
}

/// The models of a sequence of entries.
pub open spec fn entries_seq_model(es: Seq<TreeEntry>) -> Seq<TreeEntryModel> {
    es.map_values(|e: TreeEntry| entry_model(e))
}

/// A change of a tree stream.
pub enum TreeChange {
    Add { parent: Option<String>, children: Vec<TreeNode> },
    Remove(TreeNode),
    Clear,
    Destroy,
}

/// The model of a tree stream change.
pub enum TreeChangeModel {
    Add { parent: Option<Seq<char>>, children: Seq<TreeNodeModel> },
    Remove(TreeNodeModel),
    Clear,
    Destroy,
}

/// The model of an executable tree change.
pub open spec fn tree_change_model(c: TreeChange) -> TreeChangeModel {
    match c {
        TreeChange::Add { parent, children } => TreeChangeModel::Add {
            parent: match parent {
                Some(p) => Some(p@),
                None => None,
            },
            children: children@.map_values(|n: TreeNode| node_model(n)),
        },
        TreeChange::Remove(n) => TreeChangeModel::Remove(node_model(n)),
        TreeChange::Clear => TreeChangeModel::Clear,
        TreeChange::Destroy => TreeChangeModel::Destroy,
    }
}

/// Some entry carries this id.
pub open spec fn has_id(es: Seq<TreeEntryModel>, id: Seq<char>) -> bool {
    exists|i: int| 0 <= i < es.len() && (#[trigger] es[i]).node.id == id
}

/// The forest invariant: ids are pairwise distinct, and every non-root
/// entry's parent id names an earlier entry.
pub open spec fn forest_wf(es: Seq<TreeEntryModel>) -> bool {
    &&& seq_distinct(es.map_values(|e: TreeEntryModel| e.node.id))
    &&& forall|i: int|
        0 <= i < es.len() ==> match (#[trigger] es[i]).parent {
            Some(p) => has_id(es.take(i), p),
            None => true,
        }
}

/// The ids doomed by removing `root`, after scanning the first `k`
/// entries: `root` itself, and every scanned entry whose parent is
/// already doomed.
pub open spec fn doomed(es: Seq<TreeEntryModel>, root: Seq<char>, k: int) -> Set<Seq<char>>
    decreases k,
{
    if k <= 0 {
        Set::empty().insert(root)
    } else {
        let d = doomed(es, root, k - 1);
        if 0 <= k - 1 < es.len() && (es[k - 1].parent matches Some(p) && d.contains(p)) {
            d.insert(es[k - 1].node.id)
        } else {
            d
        }
    }
}

/// The ids removed by removing `root`: `root` and its descendants.
pub open spec fn doomed_full(es: Seq<TreeEntryModel>, root: Seq<char>) -> Set<Seq<char>> {
    doomed(es, root, es.len() as int)
}

/// The entries that survive removing the ids in `d`, in order.
pub open spec fn retain(es: Seq<TreeEntryModel>, d: Set<Seq<char>>) -> Seq<TreeEntryModel>
    decreases es.len(),
{
    if es.len() == 0 {
        Seq::empty()
    } else if d.contains(es[0].node.id) {
        retain(es.drop_first(), d)
    } else {
        seq![es[0]] + retain(es.drop_first(), d)
    }
}

/// The entries removed with the ids in `d`, in order.
pub open spec fn dropped_entries(es: Seq<TreeEntryModel>, d: Set<Seq<char>>) -> Seq<TreeEntryModel>
    decreases es.len(),
{
    if es.len() == 0 {
        Seq::empty()
    } else if d.contains(es[0].node.id) {
        seq![es[0]] + dropped_entries(es.drop_first(), d)
    } else {
        dropped_entries(es.drop_first(), d)
    }
}

/// Doomed sets grow with the scan.
proof fn lemma_doomed_monotone(es: Seq<TreeEntryModel>, root: Seq<char>, a: int, b: int)
    requires
        a <= b,
    ensures
        forall|x: Seq<char>| doomed(es, root, a).contains(x) ==> doomed(es, root, b).contains(x),
    decreases b - a,
{
    if a < b {
        lemma_doomed_monotone(es, root, a, b - 1);
    }
}

/// Every doomed id is the root or was added at the scan step of the one
/// entry that carries it.
proof fn lemma_doomed_origin(es: Seq<TreeEntryModel>, root: Seq<char>, k: int, x: Seq<char>)
    requires
        doomed(es, root, k).contains(x),
    ensures
        x == root || exists|j: int|
            0 <= j < k && j < es.len() && (#[trigger] es[j]).node.id == x && doomed(
                es,
                root,
                j + 1,
            ).contains(x),
    decreases k,
{
    if k > 0 && x != root {
        let d = doomed(es, root, k - 1);
        if d.contains(x) {
            lemma_doomed_origin(es, root, k - 1, x);
        } else {
            assert(0 <= k - 1 < es.len() && es[k - 1].node.id == x);
        }
    }
}

/// The doomed set is closed under the child relation: an entry whose
/// parent is doomed is doomed itself.
pub proof fn lemma_doomed_closed(es: Seq<TreeEntryModel>, root: Seq<char>)
    requires
        forest_wf(es),
    ensures
        forall|k: int|
            0 <= k < es.len() && ((#[trigger] es[k]).parent matches Some(p) && doomed_full(
                es,
                root,
            ).contains(p)) ==> doomed_full(es, root).contains(es[k].node.id),
        doomed_full(es, root).contains(root),
{
    lemma_doomed_monotone(es, root, 0, es.len() as int);
    assert forall|k: int|
        0 <= k < es.len() && ((#[trigger] es[k]).parent matches Some(p) && doomed_full(
            es,
            root,
        ).contains(p)) implies doomed_full(es, root).contains(es[k].node.id) by {
        let p = es[k].parent->0;
        lemma_doomed_origin(es, root, es.len() as int, p);
        if p == root {
            lemma_doomed_monotone(es, root, 0, k);
        } else {
            let j = choose|j: int|
                0 <= j < es.len() && (#[trigger] es[j]).node.id == p && doomed(
                    es,
                    root,
                    j + 1,
                ).contains(p);
            let j2 = choose|j2: int| 0 <= j2 < k && (#[trigger] es.take(k)[j2]).node.id == p;
            assert(es[j2] == es.take(k)[j2]);
            let ids = es.map_values(|e: TreeEntryModel| e.node.id);
            assert(ids[j] == p && ids[j2] == p);
            assert(j == j2);
            lemma_doomed_monotone(es, root, j + 1, k);
        }
        assert(doomed(es, root, k).contains(p));
        lemma_doomed_monotone(es, root, k + 1, es.len() as int);
    }
}

/// A tree stream: the inserted entries, a change broadcast, and the
/// expand-children back-channel.
pub struct TreeStream {
    entries: Vec<TreeEntry>,
    updates: Broadcast<TreeChange>,
    child_requests: Broadcast<String>,
}

/// Copies a tree node.
pub fn clone_tree_node(n: &TreeNode) -> (r: TreeNode)
    ensures
        node_model(r) == node_model(*n),
{
    TreeNode { id: n.id.clone(), value: clone_bytes(&n.value), has_children: n.has_children }
}

impl TreeStream {
    /// The inserted entries, in insertion order.
    pub closed spec fn entries_model(&self) -> Seq<TreeEntryModel> {
        entries_seq_model(self.entries@)
    }

    /// Every change ever broadcast, in order.
    pub closed spec fn updates_model(&self) -> Seq<TreeChangeModel> {
        self.updates.history().map_values(|c: TreeChange| tree_change_model(c))
    }

    /// Every expand-children request ever sent, in order.
    pub closed spec fn requests_model(&self) -> Seq<Seq<char>> {
        self.child_requests.history().map_values(|s: String| s@)
    }

    /// The history index of the oldest change still in the ring.
    pub closed spec fn updates_first_retained(&self) -> int {
        self.updates.first_retained()
    }

    /// The history index of the oldest back-channel request still in the
    /// ring.
    pub closed spec fn requests_first_retained(&self) -> int {
        self.child_requests.first_retained()
    }

    /// The structural invariant: the broadcasts are well-formed and the
    /// entries are a valid forest.
    pub closed spec fn wf(&self) -> bool {
        &&& self.updates.wf()
        &&& self.updates.cap() == crate::value_stream::CHANGE_RING
        &&& self.child_requests.wf()
        &&& self.child_requests.cap() == crate::value_stream::REQUEST_RING
        &&& forest_wf(self.entries_model())
    }

    /// The change ring keeps the newest `CHANGE_RING` changes.
    pub proof fn lemma_updates_window(&self)
        requires
            self.wf(),
        ensures
            self.updates_first_retained() == (if self.updates_model().len()
                > crate::value_stream::CHANGE_RING {
                self.updates_model().len() - crate::value_stream::CHANGE_RING
            } else {
                0int
            }),
    {
        self.updates.lemma_window();
    }

    /// The back-channel ring keeps the newest `REQUEST_RING` requests.
    pub proof fn lemma_requests_window(&self)
        requires
            self.wf(),
        ensures
            self.requests_first_retained() == (if self.requests_model().len()
                > crate::value_stream::REQUEST_RING {
                self.requests_model().len() - crate::value_stream::REQUEST_RING
            } else {
                0int
            }),
    {
        self.child_requests.lemma_window();
    }

    /// A well-formed tree is a valid forest: node ids are pairwise
    /// distinct and every non-root entry's parent names an earlier
    /// entry.
    pub proof fn lemma_forest(&self)
        requires
            self.wf(),
        ensures
            forest_wf(self.entries_model()),
    {
    }

    /// A fresh, empty tree stream.
    pub fn new() -> (r: TreeStream)
        ensures
            r.wf(),
            r.entries_model() == Seq::<TreeEntryModel>::empty(),
            r.updates_model() == Seq::<TreeChangeModel>::empty(),
            r.requests_model() == Seq::<Seq<char>>::empty(),
    {
        let r = TreeStream {
            entries: Vec::new(),
            updates: Broadcast::new(crate::value_stream::CHANGE_RING),
            child_requests: Broadcast::new(crate::value_stream::REQUEST_RING),
        };
        proof {
            assert(r.entries_model() =~= Seq::<TreeEntryModel>::empty());
            assert(r.updates_model() =~= Seq::<TreeChangeModel>::empty());
            assert(r.requests_model() =~= Seq::<Seq<char>>::empty());
        }
        r
    }

    /// Whether some entry carries this id.
    pub fn contains_id(&self, id: &str) -> (r: bool)
        ensures
            r == has_id(self.entries_model(), id@),
    {
        let mut i: usize = 0;
        while i < self.entries.len()
            invariant
                0 <= i <= self.entries@.len(),
                forall|k: int|
                    0 <= k < i ==> (#[trigger] entries_seq_model(self.entries@)[k]).node.id != id@,
            decreases self.entries@.len() - i,
        {
            if str_eq(self.entries[i].node.id.as_str(), id) {
                assert(entries_seq_model(self.entries@)[i as int].node.id == id@);
                return true;
            }
            i = i + 1;
        }
        false
    }

    /// The inserted entries, copied, in insertion order.
    pub fn snapshot_entries(&self) -> (r: Vec<TreeEntry>)
        ensures
            entries_seq_model(r@) == self.entries_model(),
    {
        let mut out: Vec<TreeEntry> = Vec::new();
        let mut i: usize = 0;
        while i < self.entries.len()
            invariant
                0 <= i <= self.entries@.len(),
                out@.len() == i,
                forall|k: int|
                    0 <= k < i ==> entry_model(#[trigger] out@[k]) == entry_model(
                        self.entries@[k],
                    ),
            decreases self.entries@.len() - i,
        {
            let e = &self.entries[i];
            let parent = match &e.parent {
                Some(p) => Some(p.clone()),
                None => None,
            };
            out.push(TreeEntry { parent, node: clone_tree_node(&e.node) });
            i = i + 1;
        }
        proof {
            assert(entries_seq_model(out@) =~= entries_seq_model(self.entries@));
        }
        out
    }

    /// Inserts children under an optional parent and broadcasts `Add`.
    /// A missing parent fails with `NotFound`; a child id already in the
    /// tree, or repeated within the call, fails with
    /// `InvalidOperation`. A failed call changes nothing.
    pub fn add(&mut self, parent: Option<String>, children: Vec<TreeNode>) -> (r: Result<
        (),
        CommanderError,
    >)
        requires
            old(self).wf(),
            old(self).updates_model().len() < u64::MAX,
        ensures
            final(self).wf(),
            r is Ok <==> {
                &&& (old(self).add_parent_ok(parent))
                &&& (old(self).add_children_ok(children@))
            },
            r matches Err(e) ==> *final(self) == *old(self) && (e.kind == ErrorKind::NotFound
                <==> !old(self).add_parent_ok(parent)) && (e.kind == ErrorKind::InvalidOperation
                <==> old(self).add_parent_ok(parent)),
            r is Ok ==> {
                &&& final(self).entries_model() == old(self).entries_model() + children@.map_values(
                    |n: TreeNode|
                        TreeEntryModel { parent: opt_str_model(parent), node: node_model(n) },
                )
                &&& final(self).updates_model() == old(self).updates_model().push(
                    TreeChangeModel::Add {
                        parent: opt_str_model(parent),
                        children: children@.map_values(|n: TreeNode| node_model(n)),
                    },
                )
                &&& final(self).requests_model() == old(self).requests_model()
            },
    {
        let parent_ok = match &parent {
            Some(p) => self.contains_id(p.as_str()),
            None => true,
        };
        if !parent_ok {
            return Err(
                CommanderError::new(
                    ErrorKind::NotFound,
                    str_to_string("cannot add children under a missing parent"),
                ),
            );
        }
        if !self.children_ok(&children) {
            return Err(
                CommanderError::new(
                    ErrorKind::InvalidOperation,
                    str_to_string("duplicate node id"),
                ),
            );
        }
        let ghost entries_before = self.entries_model();
        let ghost updates_before = self.updates.history();
        let ghost parent_id = opt_str_model(parent);
        proof {
            assert(entries_before + children@.take(0).map_values(
                |n: TreeNode| TreeEntryModel { parent: parent_id, node: node_model(n) },
            ) =~= entries_before);
            let ids = children@.map_values(|n: TreeNode| n.id@);
            assert forall|x: int, y: int| 0 <= x < y < children@.len() implies (
            #[trigger] children@[x]).id@ != (#[trigger] children@[y]).id@ by {
                assert(ids[x] == children@[x].id@ && ids[y] == children@[y].id@);
            }
            assert forall|x: int| 0 <= x < children@.len() implies !has_id(
                entries_before,
                (#[trigger] children@[x]).id@,
            ) by {
                assert(ids[x] == children@[x].id@);
            }
        }
        let mut k: usize = 0;
        while k < children.len()
            invariant
                0 <= k <= children@.len(),
                self.updates.history() == updates_before,
                self.child_requests == old(self).child_requests,
                self.updates.wf(),
                self.updates.cap() == crate::value_stream::CHANGE_RING,
                self.child_requests.wf(),
                self.child_requests.cap() == crate::value_stream::REQUEST_RING,
                self.entries_model() == entries_before + children@.take(k as int).map_values(
                    |n: TreeNode| TreeEntryModel { parent: parent_id, node: node_model(n) },
                ),
                forest_wf(self.entries_model()),
                parent_id matches Some(p) ==> has_id(entries_before, p),
                forall|x: int, y: int|
                    0 <= x < y < children@.len() ==> (#[trigger] children@[x]).id@ != (
                    #[trigger] children@[y]).id@,
                forall|x: int|
                    0 <= x < children@.len() ==> !has_id(
                        entries_before,
                        (#[trigger] children@[x]).id@,
                    ),
                parent_id == opt_str_model(parent),
            decreases children@.len() - k,
        {
            let p2 = match &parent {
                Some(p) => Some(p.clone()),
                None => None,
            };
            let node = clone_tree_node(&children[k]);
            let ghost before_push = self.entries_model();
            self.entries.push(TreeEntry { parent: p2, node });
            proof {
                assert(self.entries_model() =~= before_push.push(
                    TreeEntryModel {
                        parent: parent_id,
                        node: node_model(children@[k as int]),
                    },
                ));
                assert(self.entries_model() =~= entries_before + children@.take(
                    k as int + 1,
                ).map_values(
                    |n: TreeNode| TreeEntryModel { parent: parent_id, node: node_model(n) },
                ));
                let esm = self.entries_model();
                let ids = esm.map_values(|e: TreeEntryModel| e.node.id);
                let bids = before_push.map_values(|e: TreeEntryModel| e.node.id);
                assert forall|x: int, y: int| 0 <= x < y < ids.len() implies ids[x] != ids[y] by {
                    if y < before_push.len() {
                        assert(bids[x] == ids[x] && bids[y] == ids[y]);
                    } else {
                        assert(ids[y] == children@[k as int].id@);
                        if x < entries_before.len() {
                            assert(!has_id(entries_before, children@[k as int].id@));
                            assert(entries_before[x].node.id == ids[x]);
                        } else {
                            assert(ids[x] == children@[x - entries_before.len()].id@);
                        }
                    }
                }
                assert forall|i2: int| 0 <= i2 < esm.len() implies match (
                #[trigger] esm[i2]).parent {
                    Some(p) => has_id(esm.take(i2), p),
                    None => true,
                } by {
                    if i2 < before_push.len() {
                        assert(before_push[i2] == esm[i2]);
                        if esm[i2].parent is Some {
                            let p = esm[i2].parent->0;
                            assert(has_id(before_push.take(i2), p));
                            assert(before_push.take(i2) =~= esm.take(i2));
                        }
                    } else {
                        if parent_id is Some {
                            let p = parent_id->0;
                            let w = choose|w: int|
                                0 <= w < entries_before.len() && (#[trigger] entries_before[w]).node.id
                                    == p;
                            assert(esm.take(i2)[w] == entries_before[w]);
                            assert(has_id(esm.take(i2), p));
                        }
                    }
                }
            }
            k = k + 1;
        }
        let ev = TreeChange::Add { parent, children };
        self.updates.send(ev);
        proof {
            assert(children@.take(children@.len() as int) =~= children@);
            assert(self.updates_model() =~= updates_before.map_values(
                |c: TreeChange| tree_change_model(c),
            ).push(tree_change_model(ev)));
        }
        Ok(())
    }

    /// Whether `add` would accept this parent.
    pub open spec fn add_parent_ok(&self, parent: Option<String>) -> bool {
        match parent {
            Some(p) => has_id(self.entries_model(), p@),
            None => true,
        }
    }

    /// Checks that the children's ids are pairwise distinct and that
    /// none is already in the tree.
    fn children_ok(&self, children: &Vec<TreeNode>) -> (r: bool)
        ensures
            r == self.add_children_ok(children@),
    {
        let ghost ids = children@.map_values(|n: TreeNode| n.id@);
        let mut i: usize = 0;
        while i < children.len()
            invariant
                0 <= i <= children@.len(),
                ids == children@.map_values(|n: TreeNode| n.id@),
                forall|k: int, l: int| 0 <= k < l < i ==> ids[k] != ids[l],
                forall|k: int| 0 <= k < i ==> !has_id(self.entries_model(), #[trigger] ids[k]),
            decreases children@.len() - i,
        {
            if self.contains_id(children[i].id.as_str()) {
                assert(children@[i as int].id@ == ids[i as int]);
                assert(has_id(self.entries_model(), children@[i as int].id@));
                return false;
            }
            let mut j: usize = 0;
            while j < i
                invariant
                    0 <= j <= i < children@.len(),
                    ids == children@.map_values(|n: TreeNode| n.id@),
                    forall|l: int| 0 <= l < j ==> ids[l] != ids[i as int],
                decreases i - j,
            {
                if str_eq(children[j].id.as_str(), children[i].id.as_str()) {
                    assert(ids[j as int] == children@[j as int].id@);
                    assert(ids[i as int] == children@[i as int].id@);
                    assert(ids[j as int] == ids[i as int]);
                    assert(!seq_distinct(ids));
                    return false;
                }
                j = j + 1;
            }
            i = i + 1;
        }
        proof {
            assert(seq_distinct(ids));
            assert forall|k: int| 0 <= k < children@.len() implies !has_id(
                self.entries_model(),
                (#[trigger] children@[k]).id@,
            ) by {
                assert(ids[k] == children@[k].id@);
            }
        }
        true
    }

    /// Whether `add` would accept these children: ids pairwise distinct
    /// and none already in the tree.
    pub open spec fn add_children_ok(&self, children: Seq<TreeNode>) -> bool {
        &&& seq_distinct(children.map_values(|n: TreeNode| n.id@))
        &&& forall|k: int|
            0 <= k < children.len() ==> !has_id(self.entries_model(), (#[trigger] children[k]).id@)
    }

    /// A subscription that will see exactly the changes broadcast after
    /// this call.
    pub fn subscribe(&self) -> (sub: Subscription)
        requires
            self.wf(),
        ensures
            sub.next == self.updates_model().len(),
    {
        self.updates.subscribe()
    }

    /// One receive step on a subscription to this stream's changes.
    pub fn recv_update<'a>(&'a self, sub: &mut Subscription) -> (r: RecvOutcome<'a, TreeChange>)
        requires
            self.wf(),
        ensures
            old(sub).next >= self.updates_model().len() ==> r is Empty && *final(sub) == *old(sub),
            (old(sub).next as int) < self.updates_first_retained() ==> {
                &&& r matches RecvOutcome::Lagged(n)
                &&& final(sub).next == self.updates_first_retained()
            },
            self.updates_first_retained() <= old(sub).next as int && (old(sub).next as int)
                < self.updates_model().len() ==> {
                &&& r matches RecvOutcome::Event(ev) && tree_change_model(*ev)
                    == self.updates_model()[old(sub).next as int]
                &&& final(sub).next == old(sub).next + 1
            },
    {
        self.updates.recv(sub)
    }

    /// A subscription to the expand-children back-channel.
    pub fn subscribe_requests(&self) -> (sub: Subscription)
        requires
            self.wf(),
        ensures
            sub.next == self.requests_model().len(),
    {
        self.child_requests.subscribe()
    }

    /// One receive step on a back-channel subscription.
    pub fn recv_request<'a>(&'a self, sub: &mut Subscription) -> (r: RecvOutcome<'a, String>)
        requires
            self.wf(),
        ensures
            old(sub).next >= self.requests_model().len() ==> r is Empty && *final(sub) == *old(
                sub,
            ),
            self.requests_first_retained() <= old(sub).next as int && (old(
                sub,
            ).next as int) < self.requests_model().len() ==> {
                &&& r matches RecvOutcome::Event(ev) && (*ev)@ == self.requests_model()[old(
                    sub,
                ).next as int]
                &&& final(sub).next == old(sub).next + 1
            },
    {
        self.child_requests.recv(sub)
    }

    /// Requests the children of a node. When the id is absent it returns
    /// `false` and sends nothing; otherwise it sends the id on the
    /// back-channel and returns `true`.
    pub fn request_children(&mut self, parent: &str) -> (r: bool)
        requires
            old(self).wf(),
            old(self).requests_model().len() < u64::MAX,
        ensures
            final(self).wf(),
            r == has_id(old(self).entries_model(), parent@),
            final(self).entries_model() == old(self).entries_model(),
            final(self).updates_model() == old(self).updates_model(),
            r ==> final(self).requests_model() == old(self).requests_model().push(parent@),
            !r ==> *final(self) == *old(self),
    {
        if !self.contains_id(parent) {
            return false;
        }
        let ghost before = self.child_requests.history();
        self.child_requests.send(str_to_string(parent));
        proof {
            assert(self.requests_model() =~= before.map_values(|s: String| s@).push(parent@));
        }
        true
    }

    /// Empties the forest and broadcasts `Clear`.
    pub fn clear(&mut self)
        requires
            old(self).wf(),
            old(self).updates_model().len() < u64::MAX,
        ensures
            final(self).wf(),
            final(self).entries_model() == Seq::<TreeEntryModel>::empty(),
            final(self).updates_model() == old(self).updates_model().push(TreeChangeModel::Clear),
            final(self).requests_model() == old(self).requests_model(),
    {
        let ghost before = self.updates.history();
        self.entries.clear();
        self.updates.send(TreeChange::Clear);
        proof {
            assert(self.entries_model() =~= Seq::<TreeEntryModel>::empty());
            assert(self.updates_model() =~= before.map_values(
                |c: TreeChange| tree_change_model(c),
            ).push(TreeChangeModel::Clear));
        }
    }

    /// Empties the forest and broadcasts `Destroy`, the terminal change.
    pub fn destroy(&mut self)
        requires
            old(self).wf(),
            old(self).updates_model().len() < u64::MAX,
        ensures
            final(self).wf(),
            final(self).entries_model() == Seq::<TreeEntryModel>::empty(),
            final(self).updates_model() == old(self).updates_model().push(TreeChangeModel::Destroy),
            final(self).requests_model() == old(self).requests_model(),
    {
        let ghost before = self.updates.history();
        self.entries.clear();
        self.updates.send(TreeChange::Destroy);
        proof {
            assert(self.entries_model() =~= Seq::<TreeEntryModel>::empty());
            assert(self.updates_model() =~= before.map_values(
                |c: TreeChange| tree_change_model(c),
            ).push(TreeChangeModel::Destroy));
        }
    }
}

} // verus!

verus! {

/// No surviving entry carries a doomed id.
pub proof fn lemma_retain_not_doomed(es: Seq<TreeEntryModel>, d: Set<Seq<char>>)
    ensures
        forall|i: int|
            0 <= i < retain(es, d).len() ==> !d.contains((#[trigger] retain(es, d)[i]).node.id),
    decreases es.len(),
{
    if es.len() > 0 {
        lemma_retain_not_doomed(es.drop_first(), d);
    }
}

impl TreeStream {
    /// Removes a node and its whole subtree, broadcasting one `Remove`
    /// per removed node, ancestors before descendants. A missing id
    /// fails with `NotFound` and changes nothing.
    pub fn remove(&mut self, id: &str) -> (r: Result<(), CommanderError>)
        requires
            old(self).wf(),
            old(self).updates_model().len() + old(self).entries_model().len() < u64::MAX,
        ensures
            final(self).wf(),
            r is Ok <==> has_id(old(self).entries_model(), id@),
            r matches Err(e) ==> e.kind == ErrorKind::NotFound && *final(self) == *old(self),
            r is Ok ==> {
                &&& final(self).entries_model() == retain(
                    old(self).entries_model(),
                    doomed_full(old(self).entries_model(), id@),
                )
                &&& final(self).updates_model() == old(self).updates_model() + dropped_entries(
                    old(self).entries_model(),
                    doomed_full(old(self).entries_model(), id@),
                ).map_values(|e: TreeEntryModel| TreeChangeModel::Remove(e.node))
                &&& final(self).requests_model() == old(self).requests_model()
            },
    {
        if !self.contains_id(id) {
            return Err(
                CommanderError::new(
                    ErrorKind::NotFound,
                    str_to_string("cannot remove a missing node"),
                ),
            );
        }
        let ghost esm = self.entries_model();
        let ghost dfull = doomed_full(esm, id@);
        let mut doomed_ids: Vec<String> = Vec::new();
        doomed_ids.push(str_to_string(id));
        let mut k: usize = 0;
        proof {
            assert(doomed(esm, id@, 0) =~= Set::empty().insert(id@));
            assert(doomed_ids@[0]@ == id@);
            assert forall|x: Seq<char>| doomed(esm, id@, 0).contains(x) implies exists|j: int|
                0 <= j < doomed_ids@.len() && (#[trigger] doomed_ids@[j])@ == x by {
                assert(x == id@);
                assert(doomed_ids@[0]@ == x);
            }
        }
        while k < self.entries.len()
            invariant
                0 <= k <= self.entries@.len(),
                *self == *old(self),
                self.wf(),
                esm == self.entries_model(),
                forall|j: int|
                    0 <= j < doomed_ids@.len() ==> doomed(esm, id@, k as int).contains(
                        (#[trigger] doomed_ids@[j])@,
                    ),
                forall|x: Seq<char>|
                    doomed(esm, id@, k as int).contains(x) ==> exists|j: int|
                        0 <= j < doomed_ids@.len() && (#[trigger] doomed_ids@[j])@ == x,
            decreases self.entries@.len() - k,
        {
            let parent_doomed = match &self.entries[k].parent {
                Some(p) => crate::strings::contains_str(&doomed_ids, p.as_str()),
                None => false,
            };
            proof {
                assert(esm[k as int] == entry_model(self.entries@[k as int]));
                lemma_doomed_monotone(esm, id@, k as int, k as int + 1);
            }
            if parent_doomed {
                let ghost ids_before = doomed_ids@;
                doomed_ids.push(self.entries[k].node.id.clone());
                proof {
                    assert(doomed_ids@.drop_last() =~= ids_before);
                    assert forall|j: int| 0 <= j < doomed_ids@.len() implies doomed(
                        esm,
                        id@,
                        k as int + 1,
                    ).contains((#[trigger] doomed_ids@[j])@) by {
                        lemma_doomed_monotone(esm, id@, k as int, k as int + 1);
                        if j < ids_before.len() {
                            assert(doomed_ids@[j] == ids_before[j]);
                        }
                    }
                    assert(doomed(esm, id@, k as int + 1) =~= doomed(esm, id@, k as int).insert(
                        esm[k as int].node.id,
                    ));
                    assert forall|x: Seq<char>| #[trigger]
                        doomed(esm, id@, k as int + 1).contains(x) implies exists|j: int|
                        0 <= j < doomed_ids@.len() && (#[trigger] doomed_ids@[j])@ == x by {
                        if x == esm[k as int].node.id {
                            assert(doomed_ids@[doomed_ids@.len() - 1]@ == x);
                        } else {
                            assert(doomed(esm, id@, k as int).contains(x));
                            let jw = choose|j: int|
                                0 <= j < doomed_ids@.len() - 1 && (#[trigger] doomed_ids@.drop_last()[j])@
                                    == x;
                            assert(doomed_ids@[jw] == doomed_ids@.drop_last()[jw]);
                        }
                    }
                }
            } else {
                proof {
                    assert(doomed(esm, id@, k as int + 1) =~= doomed(esm, id@, k as int));
                }
            }
            k = k + 1;
        }
        proof {
            assert(dfull == doomed(esm, id@, self.entries@.len() as int));
            lemma_doomed_closed(esm, id@);
        }
        let ghost updates_before = self.updates_model();
        let mut retained: Vec<TreeEntry> = Vec::new();
        let ghost emitted = Seq::<TreeEntryModel>::empty();
        let mut emitted_tracker: Ghost<Seq<TreeEntryModel>> = Ghost(emitted);
        let mut k2: usize = 0;
        proof {
            assert(esm.skip(0) =~= esm);
            assert(entries_seq_model(retained@) =~= Seq::<TreeEntryModel>::empty());
            assert(entries_seq_model(retained@) + retain(esm.skip(0), dfull) =~= retain(
                esm,
                dfull,
            ));
            assert(emitted_tracker@ + dropped_entries(esm.skip(0), dfull) =~= dropped_entries(
                esm,
                dfull,
            ));
            assert(updates_before + emitted_tracker@.map_values(
                |e: TreeEntryModel| TreeChangeModel::Remove(e.node),
            ) =~= updates_before);
        }
        while k2 < self.entries.len()
            invariant
                0 <= k2 <= self.entries@.len(),
                self.entries@ == old(self).entries@,
                esm == entries_seq_model(self.entries@),
                esm.len() == self.entries@.len(),
                forest_wf(esm),
                self.updates.wf(),
                self.updates.cap() == crate::value_stream::CHANGE_RING,
                self.child_requests == old(self).child_requests,
                self.child_requests.wf(),
                self.child_requests.cap() == crate::value_stream::REQUEST_RING,
                dfull == doomed_full(esm, id@),
                forall|j: int|
                    0 <= j < doomed_ids@.len() ==> dfull.contains((#[trigger] doomed_ids@[j])@),
                forall|x: Seq<char>|
                    dfull.contains(x) ==> exists|j: int|
                        0 <= j < doomed_ids@.len() && (#[trigger] doomed_ids@[j])@ == x,
                forall|kk: int|
                    0 <= kk < esm.len() && ((#[trigger] esm[kk]).parent matches Some(p)
                        && dfull.contains(p)) ==> dfull.contains(esm[kk].node.id),
                retain(esm, dfull) == entries_seq_model(retained@) + retain(
                    esm.skip(k2 as int),
                    dfull,
                ),
                dropped_entries(esm, dfull) == emitted_tracker@ + dropped_entries(
                    esm.skip(k2 as int),
                    dfull,
                ),
                self.updates_model() == updates_before + emitted_tracker@.map_values(
                    |e: TreeEntryModel| TreeChangeModel::Remove(e.node),
                ),
                emitted_tracker@.len() <= k2,
                updates_before.len() + esm.len() < u64::MAX,
                forest_wf(entries_seq_model(retained@)),
                forall|i: int|
                    0 <= i < retained@.len() ==> !dfull.contains(
                        (#[trigger] entries_seq_model(retained@)[i]).node.id,
                    ),
                forall|i: int|
                    0 <= i < retained@.len() ==> exists|j: int|
                        0 <= j < k2 && #[trigger] entries_seq_model(retained@)[i] == esm[j],
                forall|j: int|
                    0 <= j < k2 && !dfull.contains((#[trigger] esm[j]).node.id) ==> has_id(
                        entries_seq_model(retained@),
                        esm[j].node.id,
                    ),
            decreases self.entries@.len() - k2,
        {
            proof {
                assert(esm[k2 as int] == entry_model(self.entries@[k2 as int]));
                assert(esm.skip(k2 as int)[0] == esm[k2 as int]);
                assert(esm.skip(k2 as int).drop_first() =~= esm.skip(k2 as int + 1));
            }
            let doomed_here = crate::strings::contains_str(
                &doomed_ids,
                self.entries[k2].node.id.as_str(),
            );
            proof {
                if doomed_here {
                    assert(dfull.contains(esm[k2 as int].node.id));
                }
            }
            if doomed_here {
                let node = clone_tree_node(&self.entries[k2].node);
                let ghost up_before = self.updates.history();
                proof {
                    assert(self.updates_model().len() == updates_before.len()
                        + emitted_tracker@.len());
                    assert(up_before.len() == self.updates_model().len());
                    assert(up_before.len() < u64::MAX);
                }
                self.updates.send(TreeChange::Remove(node));
                proof {
                    let before_emitted = emitted_tracker@;
                    emitted_tracker@ = emitted_tracker@.push(esm[k2 as int]);
                    assert(self.updates_model() =~= up_before.map_values(
                        |c: TreeChange| tree_change_model(c),
                    ).push(TreeChangeModel::Remove(esm[k2 as int].node)));
                    assert(self.updates_model() =~= updates_before + emitted_tracker@.map_values(
                        |e: TreeEntryModel| TreeChangeModel::Remove(e.node),
                    ));
                    assert(dropped_entries(esm.skip(k2 as int), dfull) == seq![esm[k2 as int]]
                        + dropped_entries(esm.skip(k2 as int + 1), dfull));
                    assert(before_emitted + (seq![esm[k2 as int]] + dropped_entries(
                        esm.skip(k2 as int + 1),
                        dfull,
                    )) =~= emitted_tracker@ + dropped_entries(esm.skip(k2 as int + 1), dfull));
                }
            } else {
                let e = &self.entries[k2];
                let parent = match &e.parent {
                    Some(p) => Some(p.clone()),
                    None => None,
                };
                let ghost retained_before = entries_seq_model(retained@);
                retained.push(TreeEntry { parent, node: clone_tree_node(&e.node) });
                proof {
                    assert(!dfull.contains(esm[k2 as int].node.id));
                    assert(entries_seq_model(retained@) =~= retained_before.push(
                        esm[k2 as int],
                    ));
                    assert(retain(esm.skip(k2 as int), dfull) == seq![esm[k2 as int]] + retain(
                        esm.skip(k2 as int + 1),
                        dfull,
                    ));
                    assert(retained_before + (seq![esm[k2 as int]] + retain(
                        esm.skip(k2 as int + 1),
                        dfull,
                    )) =~= entries_seq_model(retained@) + retain(esm.skip(k2 as int + 1), dfull));
                    let rm = entries_seq_model(retained@);
                    let rids = rm.map_values(|x: TreeEntryModel| x.node.id);
                    let eids = esm.map_values(|x: TreeEntryModel| x.node.id);
                    let bids = retained_before.map_values(|t: TreeEntryModel| t.node.id);
                    assert forall|x: int, y: int| 0 <= x < y < rids.len() implies rids[x]
                        != rids[y] by {
                        if y < rm.len() - 1 {
                            assert(rm[x] == retained_before[x] && rm[y] == retained_before[y]);
                            assert(bids[x] == rids[x] && bids[y] == rids[y]);
                            assert(seq_distinct(bids));
                        } else {
                            assert(rm[y] == esm[k2 as int]);
                            assert(rm[x] == retained_before[x]);
                            let jx = choose|j: int|
                                0 <= j < k2 && #[trigger] retained_before[x] == esm[j];
                            assert(eids[jx] == rids[x] && eids[k2 as int] == rids[y]);
                            assert(jx != k2 as int);
                            assert(seq_distinct(eids));
                        }
                    }
                    assert forall|i: int| 0 <= i < rm.len() implies match (
                    #[trigger] rm[i]).parent {
                        Some(p) => has_id(rm.take(i), p),
                        None => true,
                    } by {
                        if i < rm.len() - 1 {
                            assert(retained_before[i] == rm[i]);
                            if rm[i].parent is Some {
                                let p = rm[i].parent->0;
                                assert(has_id(retained_before.take(i), p));
                                assert(retained_before.take(i) =~= rm.take(i));
                            }
                        } else {
                            assert(rm[i] == esm[k2 as int]);
                            if esm[k2 as int].parent is Some {
                                let p = esm[k2 as int].parent->0;
                                assert(!dfull.contains(p));
                                assert(has_id(esm.take(k2 as int), p));
                                let w = choose|w: int|
                                    0 <= w < k2 && (#[trigger] esm.take(k2 as int)[w]).node.id
                                        == p;
                                assert(esm[w] == esm.take(k2 as int)[w]);
                                assert(has_id(retained_before, p));
                                assert(retained_before =~= rm.take(i));
                            }
                        }
                    }
                    assert forall|i: int| 0 <= i < retained@.len() implies exists|j: int|
                        0 <= j < k2 + 1 && #[trigger] entries_seq_model(retained@)[i] == esm[j] by {
                        if i < rm.len() - 1 {
                            assert(rm[i] == retained_before[i]);
                            let w = choose|j: int|
                                0 <= j < k2 && #[trigger] retained_before[i] == esm[j];
                            assert(rm[i] == esm[w]);
                        } else {
                            assert(rm[i] == esm[k2 as int]);
                        }
                    }
                    assert forall|j: int|
                        0 <= j < k2 + 1 && !dfull.contains((#[trigger] esm[j]).node.id) implies has_id(
                        entries_seq_model(retained@),
                        esm[j].node.id,
                    ) by {
                        if j == k2 as int {
                            assert(rm[rm.len() - 1] == esm[k2 as int]);
                        } else {
                            let w = choose|w: int|
                                0 <= w < retained_before.len() && (#[trigger] retained_before[w]).node.id
                                    == esm[j].node.id;
                            assert(rm[w] == retained_before[w]);
                        }
                    }
                }
            }
            k2 = k2 + 1;
        }
        proof {
            assert(esm.skip(esm.len() as int) =~= Seq::<TreeEntryModel>::empty());
            assert(entries_seq_model(retained@) + retain(
                esm.skip(esm.len() as int),
                dfull,
            ) =~= entries_seq_model(retained@));
            assert(emitted_tracker@ + dropped_entries(
                esm.skip(esm.len() as int),
                dfull,
            ) =~= emitted_tracker@);
        }
        self.entries = retained;
        Ok(())
    }
}

} // verus!

verus! {

broadcast use vstd::std_specs::vec::group_vec_axioms;

/// One node of the recursive forest snapshot: a node and its children,
/// each child subtree in insertion order.
#[derive(Debug, PartialEq, Eq)]
pub struct TreeStreamNode {
    pub value: TreeNode,
    pub children: Vec<TreeStreamNode>,
}

/// The entries inserted under the given parent — the roots for `None`,
/// a node's children for `Some(id)` — in insertion order.
pub open spec fn entries_under(es: Seq<TreeEntryModel>, p: Option<Seq<char>>) -> Seq<
    TreeEntryModel,
>
    decreases es.len(),
{
    if es.len() == 0 {
        Seq::empty()
    } else if es[0].parent == p {
        seq![es[0]] + entries_under(es.drop_first(), p)
    } else {
        entries_under(es.drop_first(), p)
    }
}

/// The root entries of a forest: those without a parent, in order.
pub open spec fn root_entries(es: Seq<TreeEntryModel>) -> Seq<TreeEntryModel> {
    entries_under(es, None)
}

/// `entries_under` splits at any position: the entries under `p` are
/// those found in the prefix followed by those in the rest.
proof fn lemma_under_split(es: Seq<TreeEntryModel>, p: Option<Seq<char>>, k: int)
    requires
        0 <= k <= es.len(),
    ensures
        entries_under(es, p) == entries_under(es.take(k), p) + entries_under(es.skip(k), p),
    decreases k,
{
    if k == 0 {
        assert(es.take(0) =~= Seq::<TreeEntryModel>::empty());
        assert(es.skip(0) =~= es);
        assert(entries_under(es.take(0), p) + entries_under(es.skip(0), p) =~= entries_under(
            es,
            p,
        ));
    } else {
        assert(es.len() > 0);
        let d = es.drop_first();
        lemma_under_split(d, p, k - 1);
        assert(es.take(k).drop_first() =~= d.take(k - 1));
        assert(es.skip(k) =~= d.skip(k - 1));
        if es[0].parent == p {
            assert(es.take(k)[0] == es[0]);
            assert(entries_under(es.take(k), p) == seq![es[0]] + entries_under(d.take(k - 1), p));
            assert((seq![es[0]] + entries_under(d.take(k - 1), p)) + entries_under(
                d.skip(k - 1),
                p,
            ) =~= seq![es[0]] + (entries_under(d.take(k - 1), p) + entries_under(
                d.skip(k - 1),
                p,
            )));
        } else {
            assert(es.take(k)[0] == es[0]);
            assert(entries_under(es.take(k), p) == entries_under(d.take(k - 1), p));
        }
    }
}

/// A sequence with no entry under `p` contributes nothing.
proof fn lemma_under_none(es: Seq<TreeEntryModel>, p: Option<Seq<char>>)
    requires
        forall|m: int| 0 <= m < es.len() ==> (#[trigger] es[m]).parent != p,
    ensures
        entries_under(es, p) == Seq::<TreeEntryModel>::empty(),
    decreases es.len(),
{
    if es.len() > 0 {
        assert forall|m: int| 0 <= m < es.drop_first().len() implies (#[trigger] es.drop_first()[m]).parent
            != p by {
            assert(es.drop_first()[m] == es[m + 1]);
        }
        lemma_under_none(es.drop_first(), p);
    }
}

/// In a well-formed forest, a node's children all stand after it: the
/// prefix through the node itself holds none of them.
proof fn lemma_children_after(es: Seq<TreeEntryModel>, k: int)
    requires
        forest_wf(es),
        0 <= k < es.len(),
    ensures
        entries_under(es.take(k + 1), Some(es[k].node.id)) == Seq::<TreeEntryModel>::empty(),
{
    let id = es[k].node.id;
    let ids = es.map_values(|e: TreeEntryModel| e.node.id);
    assert forall|m: int| 0 <= m < es.take(k + 1).len() implies (#[trigger] es.take(k + 1)[m]).parent
        != Some(id) by {
        assert(es.take(k + 1)[m] == es[m]);
        if es[m].parent == Some(id) {
            assert(has_id(es.take(m), id));
            let w = choose|w: int|
                0 <= w < es.take(m).len() && (#[trigger] es.take(m)[w]).node.id == id;
            assert(es[w] == es.take(m)[w]);
            assert(ids[w] == id && ids[k] == id);
            assert(w < m <= k);
        }
    }
    lemma_under_none(es.take(k + 1), Some(id));
}

/// A returned node mirrors the stored parent edges: its children carry
/// exactly the nodes of the entries appended under its id, in insertion
/// order, and mirror the edges in turn.
pub open spec fn subtree_matches(es: Seq<TreeEntryModel>, n: TreeStreamNode) -> bool
    decreases n,
{
    let kids = entries_under(es, Some(node_model(n.value).id));
    &&& n.children@.len() == kids.len()
    &&& forall|i: int|
        0 <= i < kids.len() ==> node_model((#[trigger] n.children@[i]).value) == kids[i].node
            && subtree_matches(es, n.children@[i])
}

impl TreeStream {
    /// Builds the subtree rooted at the entry with index `k`: its node,
    /// with one child subtree per entry whose parent is that node's id,
    /// in insertion order. Children always stand after their parent, so
    /// the walk descends through strictly later entries.
    #[verifier::loop_isolation(false)]
    fn build_node(&self, k: usize) -> (r: TreeStreamNode)
        requires
            self.wf(),
            k < self.entries_model().len(),
        ensures
            node_model(r.value) == self.entries_model()[k as int].node,
            subtree_matches(self.entries_model(), r),
        decreases self.entries_model().len() - k,
    {
        proof {
            assert(self.entries_model()[k as int] == entry_model(self.entries@[k as int]));
        }
        let id = self.entries[k].node.id.clone();
        let ghost esm = self.entries_model();
        let ghost idm = esm[k as int].node.id;
        let n = self.entries.len();
        let mut children: Vec<TreeStreamNode> = Vec::new();
        let mut j: usize = k + 1;
        proof {
            lemma_children_after(esm, k as int);
        }
        while j < self.entries.len()
            invariant
                k + 1 <= j <= self.entries@.len(),
                id@ == idm,
                children@.len() == entries_under(esm.take(j as int), Some(idm)).len(),
                forall|c: int|
                    0 <= c < children@.len() ==> node_model((#[trigger] children@[c]).value)
                        == entries_under(esm.take(j as int), Some(idm))[c].node
                        && subtree_matches(esm, children@[c]),
            decreases self.entries@.len() - j,
        {
            proof {
                assert(esm[j as int] == entry_model(self.entries@[j as int]));
                lemma_under_split(esm.take(j as int + 1), Some(idm), j as int);
                assert(esm.take(j as int + 1).take(j as int) =~= esm.take(j as int));
                assert(esm.take(j as int + 1).skip(j as int) =~= seq![esm[j as int]]);
                assert(seq![esm[j as int]].drop_first() =~= Seq::<TreeEntryModel>::empty());
            }
            let is_child = match &self.entries[j].parent {
                Some(p) => str_eq(p.as_str(), id.as_str()),
                None => false,
            };
            proof {
                assert(is_child <==> esm[j as int].parent == Some(idm));
                let single = seq![esm[j as int]];
                assert(single.len() == 1 && single[0] == esm[j as int]);
                assert(single.drop_first() =~= Seq::<TreeEntryModel>::empty());
                assert(entries_under(Seq::<TreeEntryModel>::empty(), Some(idm)) =~= Seq::<
                    TreeEntryModel,
                >::empty());
                if is_child {
                    assert(single[0].parent == Some(idm));
                    assert(entries_under(single, Some(idm)) =~= single);
                    assert(entries_under(esm.take(j as int + 1), Some(idm)) =~= entries_under(
                        esm.take(j as int),
                        Some(idm),
                    ).push(esm[j as int]));
                } else {
                    assert(single[0].parent != Some(idm));
                    assert(entries_under(single, Some(idm)) =~= Seq::<TreeEntryModel>::empty());
                    assert(entries_under(esm.take(j as int + 1), Some(idm)) =~= entries_under(
                        esm.take(j as int),
                        Some(idm),
                    ));
                }
            }
            if is_child {
                let ghost before = children@;
                children.push(self.build_node(j));
                proof {
                    assert forall|c: int|
                        0 <= c < children@.len() implies node_model(
                        (#[trigger] children@[c]).value,
                    ) == entries_under(esm.take(j as int + 1), Some(idm))[c].node
                        && subtree_matches(esm, children@[c]) by {
                        if c < before.len() {
                            assert(children@[c] == before[c]);
                            assert(entries_under(esm.take(j as int + 1), Some(idm))[c]
                                == entries_under(esm.take(j as int), Some(idm))[c]);
                        }
                    }
                }
            }
            j = j + 1;
        }
        let r = TreeStreamNode { value: clone_tree_node(&self.entries[k].node), children };
        proof {
            assert(esm.take(esm.len() as int) =~= esm);
            assert(node_model(r.value).id == idm);
        }
        r
    }

    /// The forest rooted at "no parent", as recursive nodes in insertion
    /// order: the root list carries exactly the root entries' nodes, and
    /// every returned node's children are exactly the entries appended
    /// under it, in insertion order.
    pub fn snapshot(&self) -> (r: Vec<TreeStreamNode>)
        requires
            self.wf(),
        ensures
            r@.len() == root_entries(self.entries_model()).len(),
            forall|i: int|
                0 <= i < r@.len() ==> node_model((#[trigger] r@[i]).value) == root_entries(
                    self.entries_model(),
                )[i].node && subtree_matches(self.entries_model(), r@[i]),
    {
        let ghost esm = self.entries_model();
        let mut out: Vec<TreeStreamNode> = Vec::new();
        let mut k: usize = 0;
        proof {
            lemma_under_split(esm, None, 0);
        }
        while k < self.entries.len()
            invariant
                self.wf(),
                esm == self.entries_model(),
                0 <= k <= self.entries@.len(),
                esm.len() == self.entries@.len(),
                out@.len() == entries_under(esm.take(k as int), None).len(),
                forall|i: int|
                    0 <= i < out@.len() ==> node_model((#[trigger] out@[i]).value) == entries_under(
                        esm.take(k as int),
                        None,
                    )[i].node && subtree_matches(esm, out@[i]),
            decreases self.entries@.len() - k,
        {
            proof {
                assert(esm[k as int] == entry_model(self.entries@[k as int]));
                lemma_under_split(esm.take(k as int + 1), None, k as int);
                assert(esm.take(k as int + 1).take(k as int) =~= esm.take(k as int));
                assert(esm.take(k as int + 1).skip(k as int) =~= seq![esm[k as int]]);
                assert(seq![esm[k as int]].drop_first() =~= Seq::<TreeEntryModel>::empty());
            }
            let is_root = match &self.entries[k].parent {
                None => true,
                Some(_) => false,
            };
            proof {
                let single = seq![esm[k as int]];
                assert(single.len() == 1 && single[0] == esm[k as int]);
                assert(single.drop_first() =~= Seq::<TreeEntryModel>::empty());
                assert(entries_under(Seq::<TreeEntryModel>::empty(), None::<Seq<char>>) =~= Seq::<
                    TreeEntryModel,
                >::empty());
                if is_root {
                    assert(single[0].parent == None::<Seq<char>>);
                    assert(entries_under(single, None) =~= single);
                    assert(entries_under(esm.take(k as int + 1), None) =~= entries_under(
                        esm.take(k as int),
                        None,
                    ).push(esm[k as int]));
                } else {
                    assert(single[0].parent != None::<Seq<char>>);
                    assert(entries_under(single, None) =~= Seq::<TreeEntryModel>::empty());
                    assert(entries_under(esm.take(k as int + 1), None) =~= entries_under(
                        esm.take(k as int),
                        None,
                    ));
                }
            }
            if is_root {
                let node = self.build_node(k);
                let ghost before = out@;
                out.push(node);
                proof {
                    assert forall|i: int| 0 <= i < out@.len() implies node_model(
                        (#[trigger] out@[i]).value,
                    ) == entries_under(esm.take(k as int + 1), None)[i].node && subtree_matches(
                        esm,
                        out@[i],
                    ) by {
                        if i < before.len() {
                            assert(out@[i] == before[i]);
                            assert(entries_under(esm.take(k as int + 1), None)[i] == entries_under(
                                esm.take(k as int),
                                None,
                            )[i]);
                        }
                    }
                }
            }
            k = k + 1;
        }
        proof {
            assert(esm.take(esm.len() as int) =~= esm);
        }
        out
    }
}

} // verus!

verus! {

/// Copies a node list; the copies' models equal the originals'.
pub fn clone_tree_nodes(ns: &Vec<TreeNode>) -> (r: Vec<TreeNode>)
    ensures
        r@.len() == ns@.len(),
        forall|i: int| 0 <= i < ns@.len() ==> node_model(#[trigger] r@[i]) == node_model(ns@[i]),
{
    let mut out: Vec<TreeNode> = Vec::new();
    let mut i: usize = 0;
    while i < ns.len()
        invariant
            0 <= i <= ns@.len(),
            out@.len() == i,
            forall|k: int|
                0 <= k < i ==> node_model(#[trigger] out@[k]) == node_model(ns@[k]),
        decreases ns@.len() - i,
    {
        out.push(clone_tree_node(&ns[i]));
        i = i + 1;
    }
    out
}

impl TreeStream {
    /// The root entries' nodes, copied, in insertion order; the flat
    /// form of the forest a replacement change carries.
    pub fn root_nodes(&self) -> (r: Vec<TreeNode>)
        requires
            self.wf(),
        ensures
            r@.len() == root_entries(self.entries_model()).len(),
            forall|i: int|
                0 <= i < r@.len() ==> node_model(#[trigger] r@[i]) == root_entries(
                    self.entries_model(),
                )[i].node,
    {
        let forest = self.snapshot();
        let mut out: Vec<TreeNode> = Vec::new();
        let mut i: usize = 0;
        while i < forest.len()
            invariant
                0 <= i <= forest@.len(),
                out@.len() == i,
                forest@.len() == root_entries(self.entries_model()).len(),
                forall|k: int|
                    0 <= k < forest@.len() ==> node_model((#[trigger] forest@[k]).value)
                        == root_entries(self.entries_model())[k].node,
                forall|k: int|
                    0 <= k < i ==> node_model(#[trigger] out@[k]) == root_entries(
                        self.entries_model(),
                    )[k].node,
            decreases forest@.len() - i,
        {
            out.push(clone_tree_node(&forest[i].value));
            i = i + 1;
        }
        out
    }
}

} // verus!
