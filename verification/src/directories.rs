//! Directory listings, from the rows a storage query returned.

use vstd::prelude::*;
use crate::node::DirectoryNode;
use crate::row::ListDirectory;
use crate::tree_builder::{outcome_view, row_views, DirectoryTreeBuilder};
use crate::tree_model::{after_rows, node_outcome, root_outcome, TreeError};

verus! {

/// Returns the directory structure starting from the given directory id,
/// including all its subdirectories, as `rows` give it.
pub fn list(directory_id: i32, rows: Vec<ListDirectory>) -> (result: Result<
    DirectoryNode,
    TreeError,
>)
    ensures
        outcome_view(result) == node_outcome(after_rows(row_views(rows@)), directory_id),
{
    DirectoryTreeBuilder::from_list(rows).into_node(directory_id)
}

/// Returns the directory structure starting from the root, as `rows` give
/// it: every directory without parent, with all below it, under the virtual
/// root.
pub fn list_all(rows: Vec<ListDirectory>) -> (result: Result<DirectoryNode, TreeError>)
    ensures
        outcome_view(result) == root_outcome(after_rows(row_views(rows@))),
{
    DirectoryTreeBuilder::from_list(rows).into_root()
}

} // verus!
