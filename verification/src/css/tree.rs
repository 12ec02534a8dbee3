//! The view of the UI tree that styling works on: nodes in pre-order, each with
//! its classes, its parent, and its interaction state.

use vstd::prelude::*;

use crate::interner::StrId;
use crate::nodeid::NodeId;

verus! {

/// The parent index of the root node.
pub const NO_PARENT: usize = usize::MAX;

/// A node of the UI tree as styling sees it.
#[derive(Debug, Clone)]
pub struct StyleNode {
    /// The node's classes (interned).
    pub classes: Vec<StrId>,
    /// The index of the parent node, or [`NO_PARENT`] for the root.
    pub parent: usize,
    /// The number of descendants of the node.
    pub subtree_size: usize,
    /// The node's id, if it has one.
    pub nid: Option<NodeId>,
    /// Whether the node is enabled, when known.
    pub enabled: Option<bool>,
    /// The stylesheet attached to the node, as a handle, if any.
    pub style_sheet: Option<usize>,
}

/// Every node but the root has a parent that comes before it; the root has none.
pub open spec fn tree_wf(nodes: Seq<StyleNode>) -> bool {
    &&& nodes.len() > 0 ==> nodes[0].parent == NO_PARENT
    &&& forall|i: int| 0 < i < nodes.len() ==> (#[trigger] nodes[i].parent as int) < i
}

/// Node `a` is a proper ancestor of node `i`.
pub open spec fn is_ancestor(nodes: Seq<StyleNode>, a: int, i: int) -> bool
    decreases i,
{
    if 0 <= i < nodes.len() && nodes[i].parent != NO_PARENT && (nodes[i].parent as int) < i {
        nodes[i].parent as int == a || is_ancestor(nodes, a, nodes[i].parent as int)
    } else {
        false
    }
}

/// Node `a` is node `i` or one of its ancestors.
pub open spec fn on_path(nodes: Seq<StyleNode>, a: int, i: int) -> bool {
    a == i || is_ancestor(nodes, a, i)
}

/// The nodes are in pre-order: the parent of each node is on the path from the root
/// to the node just before it.
pub open spec fn preorder(nodes: Seq<StyleNode>) -> bool {
    &&& tree_wf(nodes)
    &&& forall|i: int| 0 < i < nodes.len() ==> on_path(nodes, #[trigger] nodes[i].parent as int, i - 1)
}

/// The path from the root to node `i`, root first.
pub open spec fn path_to(nodes: Seq<StyleNode>, i: int) -> Seq<int>
    decreases i,
{
    if 0 <= i < nodes.len() && nodes[i].parent != NO_PARENT && (nodes[i].parent as int) < i {
        path_to(nodes, nodes[i].parent as int).push(i)
    } else {
        seq![i]
    }
}

/// An ancestor comes before the node, and is at most its parent.
pub proof fn lemma_ancestor_before(nodes: Seq<StyleNode>, a: int, i: int)
    requires
        is_ancestor(nodes, a, i),
    ensures
        0 <= a < i < nodes.len(),
        nodes[i].parent != NO_PARENT,
        a <= nodes[i].parent as int,
    decreases i,
{
    let p = nodes[i].parent as int;
    if p != a {
        lemma_ancestor_before(nodes, a, p);
    }
}

/// The parent of an ancestor is again an ancestor (when it exists).
pub proof fn lemma_ancestor_parent(nodes: Seq<StyleNode>, a: int, i: int)
    requires
        tree_wf(nodes),
        is_ancestor(nodes, a, i),
        nodes[a].parent != NO_PARENT,
    ensures
        is_ancestor(nodes, nodes[a].parent as int, i),
    decreases i,
{
    lemma_ancestor_before(nodes, a, i);
    let p = nodes[i].parent as int;
    if p == a {
        if a > 0 {
            assert((nodes[a].parent as int) < a);
        } else {
            assert(nodes[0].parent == NO_PARENT);
        }
        assert(is_ancestor(nodes, nodes[a].parent as int, p));
    } else {
        lemma_ancestor_parent(nodes, a, p);
    }
}

/// Ancestry is transitive.
pub proof fn lemma_ancestor_trans(nodes: Seq<StyleNode>, a: int, b: int, i: int)
    requires
        is_ancestor(nodes, a, b),
        is_ancestor(nodes, b, i),
    ensures
        is_ancestor(nodes, a, i),
    decreases i,
{
    let p = nodes[i].parent as int;
    if p != b {
        lemma_ancestor_trans(nodes, a, b, p);
    }
}

/// In a well-formed tree, a node that is not the root has its parent as an ancestor.
pub proof fn lemma_parent_is_ancestor(nodes: Seq<StyleNode>, i: int)
    requires
        tree_wf(nodes),
        0 <= i < nodes.len(),
        nodes[i].parent != NO_PARENT,
    ensures
        is_ancestor(nodes, nodes[i].parent as int, i),
{
    if i == 0 {
        assert(nodes[0].parent == NO_PARENT);
    } else {
        assert((nodes[i].parent as int) < i);
    }
}

} // verus!
