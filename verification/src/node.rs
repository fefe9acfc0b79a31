//! The assembled directory tree.

use vstd::prelude::*;

verus! {

/// One directory in an assembled tree, with its subdirectories in order.
#[derive(Debug, PartialEq, Eq)]
pub struct DirectoryNode {
    pub id: i32,
    pub name: String,
    pub subs: Vec<DirectoryNode>,
}

/// The mathematical content of a [`DirectoryNode`]: a finite ordered tree.
pub struct NodeView {
    pub id: i32,
    pub name: Seq<char>,
    pub subs: Seq<NodeView>,
}

impl View for DirectoryNode {
    type V = NodeView;

    open spec fn view(&self) -> NodeView
        decreases self,
    {
        NodeView { id: self.id, name: self.name@, subs: node_views(self.subs@) }
    }
}

/// The views of a sequence of nodes, in the same order.
pub open spec fn node_views(nodes: Seq<DirectoryNode>) -> Seq<NodeView>
    decreases nodes,
{
    Seq::new(
        nodes.len(),
        |i: int|
            if 0 <= i < nodes.len() {
                nodes[i]@
            } else {
                arbitrary()
            },
    )
}

/// The ids of a tree in the order a depth-first walk meets them: the node
/// itself, then its subtrees from first to last.
pub open spec fn node_ids(tree: NodeView) -> Seq<i32>
    decreases tree,
{
    seq![tree.id] + forest_ids(tree.subs)
}

/// The ids of a sequence of trees, tree after tree.
pub open spec fn forest_ids(trees: Seq<NodeView>) -> Seq<i32>
    decreases trees,
{
    if trees.len() == 0 {
        Seq::empty()
    } else {
        forest_ids(trees.drop_last()) + node_ids(trees.last())
    }
}

impl Clone for DirectoryNode {
    /// A copy of the whole tree.
    fn clone(&self) -> (copy: Self)
        ensures
            copy@ == self@,
        decreases self,
    {
        let mut subs: Vec<DirectoryNode> = Vec::new();
        let mut next: usize = 0;
        while next < self.subs.len()
            invariant
                next <= self.subs.len(),
                subs.len() == next,
                forall|k: int| 0 <= k < next ==> (#[trigger] subs[k])@ == self.subs[k]@,
            decreases self.subs.len() - next,
        {
            let sub = self.subs[next].clone();
            subs.push(sub);
            next += 1;
        }
        proof {
            assert(node_views(subs@) =~= node_views(self.subs@));
        }
        DirectoryNode { id: self.id, name: self.name.clone(), subs }
    }
}

} // verus!
