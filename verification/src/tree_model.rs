//! The mathematical model of tree assembly.
//!
//! Rows are folded, in input order, into a table of entries keyed by id and a
//! list of root ids. A tree is read off that table by following the child
//! lists; it exists only where that walk meets every id once.

use vstd::prelude::*;
use crate::node::{forest_ids, node_ids, NodeView};
use crate::row::RowView;

verus! {

/// What the builder keeps for one id: the name and the ids of the children,
/// in the order their rows came.
pub struct EntryView {
    pub name: Seq<char>,
    pub children: Seq<i32>,
}

/// The content of a builder: its entries by id and the recorded roots.
pub struct BuilderView {
    pub entries: Map<i32, EntryView>,
    pub roots: Seq<i32>,
}

/// The builder before any row.
pub open spec fn empty_builder() -> BuilderView {
    BuilderView { entries: Map::empty(), roots: Seq::empty() }
}

/// Whether a row can become a node: it has both an id and a name.
pub open spec fn row_usable(row: RowView) -> bool {
    row.id is Some && row.name is Some
}

/// The builder after one more row.
///
/// A row without id or name changes nothing. Any other row gets a fresh entry
/// under its id, replacing an earlier one. Without a parent its id is recorded
/// as a root; with a parent that has an entry by now, its id is appended to
/// that parent's children; with any other parent it is linked nowhere.
pub open spec fn add_row(builder: BuilderView, row: RowView) -> BuilderView {
    if row_usable(row) {
        let id = row.id->0;
        let entries = builder.entries.insert(
            id,
            EntryView { name: row.name->0, children: Seq::empty() },
        );
        match row.parent_id {
            None => BuilderView { entries, roots: builder.roots.push(id) },
            Some(parent) => if entries.contains_key(parent) {
                BuilderView {
                    entries: entries.insert(
                        parent,
                        EntryView {
                            name: entries[parent].name,
                            children: entries[parent].children.push(id),
                        },
                    ),
                    roots: builder.roots,
                }
            } else {
                BuilderView { entries, roots: builder.roots }
            },
        }
    } else {
        builder
    }
}

/// The builder after all of `rows`, taken in order.
pub open spec fn after_rows(rows: Seq<RowView>) -> BuilderView
    decreases rows.len(),
{
    if rows.len() == 0 {
        empty_builder()
    } else {
        add_row(after_rows(rows.drop_last()), rows.last())
    }
}

/// Why a tree could not be built.
#[derive(Debug, Clone, Copy, PartialEq, Eq, Structural)]
pub enum TreeError {
    /// The id that was asked for has no entry.
    NotFound,
    /// The entries below the id that was asked for do not form a tree: the
    /// walk along the child lists came to an id a second time, or to one
    /// without an entry.
    CorruptTree,
}

/// `tree` is what `entries` say about its root id, all the way down: each
/// node carries the name of its entry, and its subtrees are those of the
/// entry's children, in the entry's order.
pub open spec fn describes(entries: Map<i32, EntryView>, tree: NodeView) -> bool
    decreases tree,
{
    &&& entries.contains_key(tree.id)
    &&& entries[tree.id].name == tree.name
    &&& describes_all(entries, entries[tree.id].children, tree.subs)
}

/// `trees` are, one for one and in order, what `entries` say about `ids`.
pub open spec fn describes_all(
    entries: Map<i32, EntryView>,
    ids: Seq<i32>,
    trees: Seq<NodeView>,
) -> bool
    decreases trees,
{
    &&& trees.len() == ids.len()
    &&& forall|i: int|
        0 <= i < trees.len() ==> (#[trigger] trees[i]).id == ids[i] && describes(entries, trees[i])
}

/// `tree` is described by `entries` and holds no id twice.
pub open spec fn is_tree(entries: Map<i32, EntryView>, tree: NodeView) -> bool {
    describes(entries, tree) && node_ids(tree).no_duplicates()
}

/// `trees` are described by `entries` for `ids`, and no id occurs twice in
/// all of them together.
pub open spec fn is_forest(
    entries: Map<i32, EntryView>,
    ids: Seq<i32>,
    trees: Seq<NodeView>,
) -> bool {
    describes_all(entries, ids, trees) && forest_ids(trees).no_duplicates()
}

/// The tree that `entries` hold below `id`, if they hold one.
///
/// There is at most one: see `lemma_described_tree_unique`.
pub open spec fn tree_at(entries: Map<i32, EntryView>, id: i32) -> Option<NodeView> {
    if exists|tree: NodeView| tree.id == id && #[trigger] is_tree(entries, tree) {
        Some(choose|tree: NodeView| tree.id == id && #[trigger] is_tree(entries, tree))
    } else {
        None
    }
}

/// The trees that `entries` hold below `ids`, if together they form a forest.
///
/// There is at most one such sequence: see `lemma_described_forest_unique`.
pub open spec fn forest_at(entries: Map<i32, EntryView>, ids: Seq<i32>) -> Option<Seq<NodeView>> {
    if exists|trees: Seq<NodeView>| #[trigger] is_forest(entries, ids, trees) {
        Some(choose|trees: Seq<NodeView>| #[trigger] is_forest(entries, ids, trees))
    } else {
        None
    }
}

/// The synthetic node, with id 0 and an empty name, that groups the roots.
pub open spec fn virtual_root(subs: Seq<NodeView>) -> NodeView {
    NodeView { id: 0, name: Seq::empty(), subs }
}

/// What asking a builder for the subtree of `id` yields.
pub open spec fn node_outcome(builder: BuilderView, id: i32) -> Result<NodeView, TreeError> {
    if !builder.entries.contains_key(id) {
        Err(TreeError::NotFound)
    } else {
        match tree_at(builder.entries, id) {
            Some(tree) => Ok(tree),
            None => Err(TreeError::CorruptTree),
        }
    }
}

/// What asking a builder for everything yields: the trees of the recorded
/// roots, in recorded order, under the virtual root.
pub open spec fn root_outcome(builder: BuilderView) -> Result<NodeView, TreeError> {
    match forest_at(builder.entries, builder.roots) {
        Some(trees) => Ok(virtual_root(trees)),
        None => Err(TreeError::CorruptTree),
    }
}

} // verus!
