//! Flat directory rows as a storage query returns them.

use vstd::prelude::*;

verus! {

/// One flat record describing a directory, prior to tree assembly.
///
/// Every column may be missing: a row without `id` or without `name` cannot
/// become a node. A missing `parent_id` marks a root.
#[derive(Debug, Clone)]
pub struct ListDirectory {
    pub id: Option<i32>,
    pub name: Option<String>,
    pub parent_id: Option<i32>,
}

/// The mathematical content of a row.
pub struct RowView {
    pub id: Option<i32>,
    pub name: Option<Seq<char>>,
    pub parent_id: Option<i32>,
}

impl View for ListDirectory {
    type V = RowView;

    open spec fn view(&self) -> RowView {
        RowView {
            id: self.id,
            name: match self.name {
                Some(n) => Some(n@),
                None => None,
            },
            parent_id: self.parent_id,
        }
    }
}

} // verus!
