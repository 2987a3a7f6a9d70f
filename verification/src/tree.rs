//! In-memory parent index keyed by durable `process.uid` (not pid alone).

use vstd::prelude::*;
use vstd::string::StringExecFns;
use crate::exec_event::ExecEvent;
use crate::ocsf::{AgentMeta, process_uid, process_uid_text};
use crate::order::{
    compare_text, lemma_text_lt_irreflexive, lemma_text_lt_transitive, text_lt, TextOrder,
};

verus! {

/// One known process: its uid, its parent's uid and its display name.
#[derive(Debug)]
struct TreeNode {
    uid: String,
    parent_uid: String,
    name: String,
}

/// Processes seen so far, keyed by `process.uid`.
///
/// Nodes are kept sorted by uid in `String` order, each uid at most once.
#[derive(Debug)]
pub struct ProcessTree {
    nodes: Vec<TreeNode>,
}

/// The line `render_lines` prints for one process.
pub open spec fn tree_line(name: Seq<char>, uid: Seq<char>, parent_uid: Seq<char>) -> Seq<char> {
    name + " uid="@ + uid + " parent_uid="@ + parent_uid
}

/// The tree `m` after recording `ev`: the event's uid maps to its parent's uid
/// and its process name; every other entry is unchanged.
pub open spec fn ingested(
    m: Map<Seq<char>, (Seq<char>, Seq<char>)>,
    ev: ExecEvent,
    meta: AgentMeta,
) -> Map<Seq<char>, (Seq<char>, Seq<char>)> {
    m.insert(
        process_uid_text(meta.boot_id@, ev.pid as nat, ev.start_time_ns as nat),
        (process_uid_text(meta.boot_id@, ev.ppid as nat, ev.parent_start_time_ns as nat), ev.comm_text()),
    )
}

spec fn sorted_nodes(nodes: Seq<TreeNode>) -> bool {
    forall|i: int, j: int|
        0 <= i < j < nodes.len() ==> text_lt(#[trigger] nodes[i].uid@, #[trigger] nodes[j].uid@)
}

spec fn node_index(nodes: Seq<TreeNode>, uid: Seq<char>) -> int {
    choose|i: int| 0 <= i < nodes.len() && nodes[i].uid@ == uid
}

spec fn nodes_view(nodes: Seq<TreeNode>) -> Map<Seq<char>, (Seq<char>, Seq<char>)> {
    Map::new(
        |uid: Seq<char>| exists|i: int| 0 <= i < nodes.len() && nodes[i].uid@ == uid,
        |uid: Seq<char>|
            {
                let i = node_index(nodes, uid);
                (nodes[i].parent_uid@, nodes[i].name@)
            },
    )
}

proof fn lemma_sorted_unique(nodes: Seq<TreeNode>, i: int, j: int)
    requires
        sorted_nodes(nodes),
        0 <= i < nodes.len(),
        0 <= j < nodes.len(),
        nodes[i].uid@ == nodes[j].uid@,
    ensures
        i == j,
{
    if i < j {
        lemma_text_lt_irreflexive(nodes[i].uid@);
    } else if j < i {
        lemma_text_lt_irreflexive(nodes[i].uid@);
    }
}

proof fn lemma_view_at(nodes: Seq<TreeNode>, i: int)
    requires
        sorted_nodes(nodes),
        0 <= i < nodes.len(),
    ensures
        nodes_view(nodes).contains_key(nodes[i].uid@),
        nodes_view(nodes)[nodes[i].uid@] == (nodes[i].parent_uid@, nodes[i].name@),
{
    let uid = nodes[i].uid@;
    assert(exists|k: int| 0 <= k < nodes.len() && nodes[k].uid@ == uid);
    let k = node_index(nodes, uid);
    lemma_sorted_unique(nodes, i, k);
}

proof fn lemma_insert_node(old: Seq<TreeNode>, i: int, n: TreeNode)
    requires
        sorted_nodes(old),
        0 <= i <= old.len(),
        forall|j: int| 0 <= j < i ==> text_lt(#[trigger] old[j].uid@, n.uid@),
        forall|j: int| i <= j < old.len() ==> text_lt(n.uid@, #[trigger] old[j].uid@),
    ensures
        sorted_nodes(old.insert(i, n)),
        nodes_view(old.insert(i, n)) == nodes_view(old).insert(n.uid@, (n.parent_uid@, n.name@)),
{
    let new = old.insert(i, n);
    assert forall|p: int, q: int| 0 <= p < q < new.len() implies text_lt(
        #[trigger] new[p].uid@,
        #[trigger] new[q].uid@,
    ) by {
        if q < i {
        } else if q == i {
        } else if p < i {
            assert(new[q] == old[q - 1]);
            lemma_text_lt_transitive(old[p].uid@, n.uid@, old[q - 1].uid@);
        } else if p == i {
            assert(new[q] == old[q - 1]);
        } else {
            assert(new[p] == old[p - 1]);
            assert(new[q] == old[q - 1]);
        }
    }
    let target = nodes_view(old).insert(n.uid@, (n.parent_uid@, n.name@));
    assert forall|k: Seq<char>| nodes_view(new).contains_key(k) <==> target.contains_key(k) by {
        if nodes_view(new).contains_key(k) {
            let j = choose|j: int| 0 <= j < new.len() && new[j].uid@ == k;
            if j < i {
                assert(old[j].uid@ == k);
            } else if j > i {
                assert(old[j - 1].uid@ == k);
            }
        }
        if target.contains_key(k) && k != n.uid@ {
            let j = choose|j: int| 0 <= j < old.len() && old[j].uid@ == k;
            if j < i {
                assert(new[j].uid@ == k);
            } else {
                assert(new[j + 1].uid@ == k);
            }
        }
        if k == n.uid@ {
            assert(new[i].uid@ == k);
        }
    }
    assert forall|k: Seq<char>| #[trigger] nodes_view(new).contains_key(k) implies nodes_view(new)[k]
        == target[k] by {
        let j = choose|j: int| 0 <= j < new.len() && new[j].uid@ == k;
        lemma_view_at(new, j);
        if j < i {
            assert(new[j] == old[j]);
            lemma_view_at(old, j);
            lemma_text_lt_irreflexive(k);
        } else if j > i {
            assert(new[j] == old[j - 1]);
            lemma_view_at(old, j - 1);
            lemma_text_lt_irreflexive(k);
        }
    }
    assert(nodes_view(new) =~= target);
}

proof fn lemma_replace_node(old: Seq<TreeNode>, i: int, n: TreeNode)
    requires
        sorted_nodes(old),
        0 <= i < old.len(),
        old[i].uid@ == n.uid@,
    ensures
        sorted_nodes(old.update(i, n)),
        nodes_view(old.update(i, n)) == nodes_view(old).insert(n.uid@, (n.parent_uid@, n.name@)),
{
    let new = old.update(i, n);
    assert forall|p: int, q: int| 0 <= p < q < new.len() implies text_lt(
        #[trigger] new[p].uid@,
        #[trigger] new[q].uid@,
    ) by {
        assert(new[p].uid@ == old[p].uid@);
        assert(new[q].uid@ == old[q].uid@);
    }
    let target = nodes_view(old).insert(n.uid@, (n.parent_uid@, n.name@));
    assert forall|k: Seq<char>| nodes_view(new).contains_key(k) <==> target.contains_key(k) by {
        if nodes_view(new).contains_key(k) {
            let j = choose|j: int| 0 <= j < new.len() && new[j].uid@ == k;
            assert(old[j].uid@ == k);
        }
        if target.contains_key(k) && k != n.uid@ {
            let j = choose|j: int| 0 <= j < old.len() && old[j].uid@ == k;
            assert(new[j].uid@ == k);
        }
        if k == n.uid@ {
            assert(new[i].uid@ == k);
        }
    }
    assert forall|k: Seq<char>| #[trigger] nodes_view(new).contains_key(k) implies nodes_view(new)[k]
        == target[k] by {
        let j = choose|j: int| 0 <= j < new.len() && new[j].uid@ == k;
        lemma_view_at(new, j);
        if j != i {
            lemma_view_at(old, j);
            if k == n.uid@ {
                lemma_sorted_unique(old, i, j);
            }
        }
    }
    assert(nodes_view(new) =~= target);
}

impl View for ProcessTree {
    type V = Map<Seq<char>, (Seq<char>, Seq<char>)>;

    /// uid ↦ (parent uid, name).
    closed spec fn view(&self) -> Self::V {
        nodes_view(self.nodes@)
    }
}

impl ProcessTree {
    #[verifier::type_invariant]
    spec fn well_formed(self) -> bool {
        sorted_nodes(self.nodes@)
    }

    /// The known uids in `String` order.
    pub closed spec fn sorted_uids(&self) -> Seq<Seq<char>> {
        self.nodes@.map_values(|n: TreeNode| n.uid@)
    }

    /// Position of `uid` among the nodes, or where it would be inserted.
    fn find(&self, uid: &str) -> (r: Result<usize, usize>)
        ensures
            match r {
                Ok(i) => i < self.nodes@.len() && self.nodes@[i as int].uid@ == uid@,
                Err(i) => {
                    &&& i <= self.nodes@.len()
                    &&& forall|j: int| 0 <= j < i ==> text_lt(#[trigger] self.nodes@[j].uid@, uid@)
                    &&& forall|j: int|
                        i <= j < self.nodes@.len() ==> text_lt(uid@, #[trigger] self.nodes@[j].uid@)
                },
            },
    {
        proof {
            use_type_invariant(self);
        }
        let mut lo: usize = 0;
        let mut hi: usize = self.nodes.len();
        while lo < hi
            invariant
                sorted_nodes(self.nodes@),
                lo <= hi <= self.nodes@.len(),
                forall|j: int| 0 <= j < lo ==> text_lt(#[trigger] self.nodes@[j].uid@, uid@),
                forall|j: int| hi <= j < self.nodes@.len() ==> text_lt(uid@, #[trigger] self.nodes@[j].uid@),
            decreases hi - lo,
        {
            let mid = lo + (hi - lo) / 2;
            match compare_text(self.nodes[mid].uid.as_str(), uid) {
                TextOrder::Less => {
                    assert forall|j: int| 0 <= j < mid + 1 implies text_lt(
                        #[trigger] self.nodes@[j].uid@,
                        uid@,
                    ) by {
                        if j < mid {
                            lemma_text_lt_transitive(self.nodes@[j].uid@, self.nodes@[mid as int].uid@, uid@);
                        }
                    }
                    lo = mid + 1;
                },
                TextOrder::Equal => {
                    return Ok(mid);
                },
                TextOrder::Greater => {
                    assert forall|j: int| mid <= j < self.nodes@.len() implies text_lt(
                        uid@,
                        #[trigger] self.nodes@[j].uid@,
                    ) by {
                        if j > mid {
                            lemma_text_lt_transitive(uid@, self.nodes@[mid as int].uid@, self.nodes@[j].uid@);
                        }
                    }
                    hi = mid;
                },
            }
        }
        Err(lo)
    }

    /// The parent uid recorded for `uid`, if it is known.
    pub fn parent_of(&self, uid: &str) -> (parent: Option<&str>)
        ensures
            match parent {
                Some(p) => self@.contains_key(uid@) && p@ == self@[uid@].0,
                None => !self@.contains_key(uid@),
            },
    {
        proof {
            use_type_invariant(self);
        }
        match self.find(uid) {
            Ok(i) => {
                proof {
                    lemma_view_at(self.nodes@, i as int);
                }
                Some(self.nodes[i].parent_uid.as_str())
            },
            Err(i) => {
                proof {
                    if self@.contains_key(uid@) {
                        let k = node_index(self.nodes@, uid@);
                        lemma_text_lt_irreflexive(uid@);
                    }
                }
                None
            },
        }
    }
    /// Records `ev`: its uid now maps to its parent's uid and its name.
    pub fn ingest(&mut self, ev: &ExecEvent, meta: &AgentMeta)
        ensures
            final(self)@ == ingested(old(self)@, *ev, *meta),
    {
        proof {
            use_type_invariant(&*self);
        }
        let uid = process_uid(meta.boot_id.as_str(), ev.pid, ev.start_time_ns);
        let parent_uid = process_uid(meta.boot_id.as_str(), ev.ppid, ev.parent_start_time_ns);
        let name = String::from_str(ev.comm_str());
        let pos = self.find(uid.as_str());
        let node = TreeNode { uid, parent_uid, name };
        let mut nodes: Vec<TreeNode> = Vec::new();
        std::mem::swap(&mut nodes, &mut self.nodes);
        let ghost before = nodes@;
        match pos {
            Ok(i) => {
                proof {
                    lemma_replace_node(before, i as int, node);
                }
                nodes.set(i, node);
            },
            Err(i) => {
                proof {
                    lemma_insert_node(before, i as int, node);
                }
                nodes.insert(i, node);
            },
        }
        self.nodes = nodes;
    }

    /// One line per known process, in uid order: `{name} uid={uid} parent_uid={parent}`.
    pub fn render_lines(&self) -> (lines: Vec<String>)
        ensures
            lines@.len() == self.sorted_uids().len(),
            forall|i: int|
                0 <= i < lines@.len() ==> #[trigger] lines@[i]@ == tree_line(
                    self@[self.sorted_uids()[i]].1,
                    self.sorted_uids()[i],
                    self@[self.sorted_uids()[i]].0,
                ),
            forall|i: int, j: int|
                0 <= i < j < self.sorted_uids().len() ==> text_lt(
                    #[trigger] self.sorted_uids()[i],
                    #[trigger] self.sorted_uids()[j],
                ),
            forall|uid: Seq<char>| #[trigger] self@.contains_key(uid) <==> self.sorted_uids().contains(uid),
            self@.dom().finite(),
            lines@.len() == self@.dom().len(),
    {
        proof {
            use_type_invariant(self);
        }
        let mut lines: Vec<String> = Vec::new();
        let mut i: usize = 0;
        while i < self.nodes.len()
            invariant
                sorted_nodes(self.nodes@),
                i <= self.nodes@.len(),
                lines@.len() == i,
                forall|k: int|
                    0 <= k < i ==> #[trigger] lines@[k]@ == tree_line(
                        self.nodes@[k].name@,
                        self.nodes@[k].uid@,
                        self.nodes@[k].parent_uid@,
                    ),
            decreases self.nodes@.len() - i,
        {
            let node = &self.nodes[i];
            let mut line = String::from_str(node.name.as_str());
            line.append(" uid=");
            line.append(node.uid.as_str());
            line.append(" parent_uid=");
            line.append(node.parent_uid.as_str());
            lines.push(line);
            i = i + 1;
        }
        proof {
            assert forall|k: int| 0 <= k < lines@.len() implies #[trigger] lines@[k]@ == tree_line(
                self@[self.sorted_uids()[k]].1,
                self.sorted_uids()[k],
                self@[self.sorted_uids()[k]].0,
            ) by {
                lemma_view_at(self.nodes@, k);
            }
            assert forall|uid: Seq<char>| #[trigger] self@.contains_key(uid) <==> self.sorted_uids().contains(uid) by {
                if self@.contains_key(uid) {
                    let k = choose|k: int| 0 <= k < self.nodes@.len() && self.nodes@[k].uid@ == uid;
                    assert(self.sorted_uids()[k] == uid);
                }
                if self.sorted_uids().contains(uid) {
                    let k = choose|k: int| 0 <= k < self.sorted_uids().len() && self.sorted_uids()[k] == uid;
                    assert(self.nodes@[k].uid@ == uid);
                }
            }
            let us = self.sorted_uids();
            assert forall|a: int, b: int| 0 <= a < us.len() && 0 <= b < us.len() && a != b implies us[a] != us[b] by {
                lemma_text_lt_irreflexive(us[a]);
            }
            assert(us.no_duplicates());
            us.unique_seq_to_set();
            vstd::seq_lib::seq_to_set_is_finite(us);
            assert(self@.dom() =~= us.to_set());
        }
        lines
    }
}

impl Default for ProcessTree {
    /// The empty tree.
    fn default() -> (t: Self)
        ensures
            t@ == Map::<Seq<char>, (Seq<char>, Seq<char>)>::empty(),
    {
        let t = ProcessTree { nodes: Vec::new() };
        assert(t@ =~= Map::<Seq<char>, (Seq<char>, Seq<char>)>::empty());
        t
    }
}

} // verus!
