//! From a collection of entries to the nodes of a tree and its edges from
//! parent to child.

use vstd::prelude::*;
use vstd::string::StringExecFns;
use crate::entry::{FileContent, FileContentView};
use crate::error::Error;
use crate::filesystem::FileSystem;
use crate::model::FileSystemView;

verus! {

/// A node of the tree: one entry under its path, labelled with its name.
#[derive(Debug)]
pub struct TreeNode {
    pub key: String,
    pub label: String,
    pub entry: FileContent,
}

/// An edge of the tree, from the node of a parent to the node of its child,
/// each named by its key.
#[derive(Debug)]
pub struct TreeEdge {
    pub parent: String,
    pub child: String,
}

/// The nodes and edges of a tree. An edge whose parent is no node cannot be
/// drawn: such edges are kept apart, as `dangling`.
#[derive(Debug)]
pub struct Tree {
    pub nodes: Vec<TreeNode>,
    pub edges: Vec<TreeEdge>,
    pub dangling: Vec<TreeEdge>,
}

/// What a `TreeNode` holds, as mathematical values.
pub struct TreeNodeView {
    pub key: Seq<char>,
    pub label: Seq<char>,
    pub entry: FileContentView,
}

/// What a `TreeEdge` holds, as mathematical values.
pub struct TreeEdgeView {
    pub parent: Seq<char>,
    pub child: Seq<char>,
}

/// What a `Tree` holds, as mathematical values.
pub struct TreeView {
    pub nodes: Seq<TreeNodeView>,
    pub edges: Seq<TreeEdgeView>,
    pub dangling: Seq<TreeEdgeView>,
}

impl View for TreeNode {
    type V = TreeNodeView;

    open spec fn view(&self) -> TreeNodeView {
        TreeNodeView { key: self.key@, label: self.label@, entry: self.entry@ }
    }
}

impl View for TreeEdge {
    type V = TreeEdgeView;

    open spec fn view(&self) -> TreeEdgeView {
        TreeEdgeView { parent: self.parent@, child: self.child@ }
    }
}

/// The views of a list of nodes, in order.
pub open spec fn node_views(nodes: Seq<TreeNode>) -> Seq<TreeNodeView> {
    Seq::new(nodes.len(), |i: int| nodes[i]@)
}

/// The views of a list of edges, in order.
pub open spec fn edge_views(edges: Seq<TreeEdge>) -> Seq<TreeEdgeView> {
    Seq::new(edges.len(), |i: int| edges[i]@)
}

impl View for Tree {
    type V = TreeView;

    open spec fn view(&self) -> TreeView {
        TreeView {
            nodes: node_views(self.nodes@),
            edges: edge_views(self.edges@),
            dangling: edge_views(self.dangling@),
        }
    }
}

/// The node of an entry: its key is the path, its label the name.
pub open spec fn node_of(entry: FileContentView) -> TreeNodeView {
    TreeNodeView { key: entry.path, label: entry.name, entry }
}

/// The edge to an entry from the parent that it names, if it names one that
/// `v` holds.
pub open spec fn sound_link(v: FileSystemView) -> spec_fn(FileContentView) -> Option<
    TreeEdgeView,
> {
    |entry: FileContentView|
        match entry.parent {
            Some(p) => if v.has(p) {
                Some(TreeEdgeView { parent: p, child: entry.path })
            } else {
                None
            },
            None => None,
        }
}

/// The edge to an entry from the parent that it names, if it names one that
/// `v` does not hold.
pub open spec fn broken_link(v: FileSystemView) -> spec_fn(FileContentView) -> Option<
    TreeEdgeView,
> {
    |entry: FileContentView|
        match entry.parent {
            Some(p) => if v.has(p) {
                None
            } else {
                Some(TreeEdgeView { parent: p, child: entry.path })
            },
            None => None,
        }
}

/// The tree of a collection: a node for each entry, in order, and for each
/// entry that names a parent an edge from that parent, among `edges` where the
/// parent is held and among `dangling` where it is not.
pub open spec fn tree_of(v: FileSystemView) -> TreeView {
    TreeView {
        nodes: v.entries.map_values(|entry: FileContentView| node_of(entry)),
        edges: v.entries.filter_map(sound_link(v)),
        dangling: v.entries.filter_map(broken_link(v)),
    }
}

/// Among the first `count` entries of a collection in which no parent is
/// missing, none gives a dangling edge.
pub proof fn lemma_no_dangling(v: FileSystemView, count: int)
    requires
        v.closed(),
        0 <= count <= v.entries.len(),
    ensures
        v.entries.take(count).filter_map(broken_link(v)).len() == 0,
    decreases count,
{
    if count > 0 {
        lemma_no_dangling(v, count - 1);
        assert(v.entries.take(count).drop_last() =~= v.entries.take(count - 1));
        assert(v.entries.take(count).last() == v.entries[count - 1]);
    }
}

/// Both ends of every edge among the first `count` entries are held: the edge
/// joins two nodes of the tree.
pub proof fn lemma_edges_join_nodes(v: FileSystemView, count: int)
    requires
        0 <= count <= v.entries.len(),
    ensures
        forall|k: int|
            0 <= k < v.entries.take(count).filter_map(sound_link(v)).len() ==> v.has(
                (#[trigger] v.entries.take(count).filter_map(sound_link(v))[k]).parent,
            ) && v.has(v.entries.take(count).filter_map(sound_link(v))[k].child),
    decreases count,
{
    if count > 0 {
        lemma_edges_join_nodes(v, count - 1);
        let upto = v.entries.take(count);
        let before = v.entries.take(count - 1).filter_map(sound_link(v));
        let last = v.entries[count - 1];
        assert(upto.drop_last() =~= v.entries.take(count - 1));
        assert(upto.last() == last);
        assert(v.has(last.path));
        assert forall|k: int| 0 <= k < upto.filter_map(sound_link(v)).len() implies v.has(
            (#[trigger] upto.filter_map(sound_link(v))[k]).parent,
        ) && v.has(upto.filter_map(sound_link(v))[k].child) by {
            if k < before.len() {
                assert(upto.filter_map(sound_link(v))[k] == before[k]);
            }
        }
    }
}

/// In the tree of a collection every edge joins two nodes, and where no
/// parent is missing in the collection no edge dangles.
pub proof fn law_tree_is_connected(v: FileSystemView)
    ensures
        forall|k: int|
            0 <= k < tree_of(v).edges.len() ==> v.has((#[trigger] tree_of(v).edges[k]).parent)
                && v.has(tree_of(v).edges[k].child),
        v.closed() ==> tree_of(v).dangling.len() == 0,
{
    assert(v.entries.take(v.entries.len() as int) =~= v.entries);
    lemma_edges_join_nodes(v, v.entries.len() as int);
    if v.closed() {
        lemma_no_dangling(v, v.entries.len() as int);
    }
}

impl Tree {
    /// Where the node with the given key stands among the nodes: the first
    /// such node. A key that no node has is refused as `RootNodeMissing`.
    pub fn locate(&self, key: &str) -> (place: Result<usize, Error>)
        ensures
            match place {
                Ok(at) => {
                    &&& at < self@.nodes.len()
                    &&& self@.nodes[at as int].key == key@
                    &&& forall|j: int| 0 <= j < at ==> (#[trigger] self@.nodes[j]).key != key@
                },
                Err(e) => {
                    &&& e == Error::RootNodeMissing
                    &&& forall|j: int|
                        0 <= j < self@.nodes.len() ==> (#[trigger] self@.nodes[j]).key != key@
                },
            },
    {
        let wanted = String::from_str(key);
        let mut i: usize = 0;
        while i < self.nodes.len()
            invariant
                i <= self.nodes@.len(),
                wanted@ == key@,
                forall|j: int| 0 <= j < i ==> (#[trigger] self@.nodes[j]).key != key@,
            decreases self.nodes@.len() - i,
        {
            if self.nodes[i].key == wanted {
                assert(self@.nodes[i as int] == self.nodes@[i as int]@);
                return Ok(i);
            }
            assert(self@.nodes[i as int] == self.nodes@[i as int]@);
            i = i + 1;
        }
        Err(Error::RootNodeMissing)
    }
}

impl FileSystem {
    /// The tree of the collection: a node for each entry, keyed by its path
    /// and labelled with its name, and an edge to each entry that names a
    /// parent, from that parent. Edges from a parent that is not held are
    /// handed back apart; there is none where no parent is missing.
    pub fn build_graph(&self) -> (tree: Tree)
        requires
            self.wf(),
        ensures
            tree@ == tree_of(self@),
            self@.closed() ==> tree@.dangling.len() == 0,
    {
        let list = self.entries();
        let ghost v = self@;
        let mut nodes: Vec<TreeNode> = Vec::new();
        let mut edges: Vec<TreeEdge> = Vec::new();
        let mut dangling: Vec<TreeEdge> = Vec::new();
        let mut i: usize = 0;
        while i < list.len()
            invariant
                i <= list@.len(),
                v == self@,
                crate::model::views(list@) == v.entries,
                nodes@.len() == i,
                forall|j: int| 0 <= j < i ==> (#[trigger] nodes@[j])@ == node_of(v.entries[j]),
                edge_views(edges@) == v.entries.take(i as int).filter_map(sound_link(v)),
                edge_views(dangling@) == v.entries.take(i as int).filter_map(broken_link(v)),
            decreases list@.len() - i,
        {
            let entry = &list[i];
            assert(entry@ == v.entries[i as int]);
            proof {
                assert(v.entries.take(i + 1).drop_last() =~= v.entries.take(i as int));
                assert(v.entries.take(i + 1).last() == v.entries[i as int]);
            }
            let ghost edges_before = edge_views(edges@);
            let ghost dangling_before = edge_views(dangling@);
            match &entry.parent {
                Some(above) => {
                    let edge = TreeEdge { parent: above.clone(), child: entry.path.clone() };
                    if self.contains(above.as_str()) {
                        edges.push(edge);
                        assert(edge_views(edges@) =~= edges_before + seq![edge@]);
                    } else {
                        dangling.push(edge);
                        assert(edge_views(dangling@) =~= dangling_before + seq![edge@]);
                    }
                },
                None => {},
            }
            nodes.push(
                TreeNode {
                    key: entry.path.clone(),
                    label: entry.name.clone(),
                    entry: entry.clone(),
                },
            );
            i = i + 1;
        }
        let tree = Tree { nodes, edges, dangling };
        proof {
            assert(v.entries.take(i as int) =~= v.entries);
            assert(tree@.nodes =~= tree_of(v).nodes);
            law_tree_is_connected(v);
        }
        tree
    }
}

} // verus!
