//! What holds of every tree assembly.

use vstd::prelude::*;
use crate::node::{forest_ids, node_ids, NodeView};
use crate::row::RowView;
use crate::tree_lemmas::lemma_forest_ids_origin;
use crate::tree_model::{
    after_rows, describes, forest_at, is_forest, is_tree, node_outcome, root_outcome, row_usable,
    tree_at, virtual_root, BuilderView, EntryView, TreeError,
};

verus! {

/// The rows that can become nodes, in input order.
pub open spec fn usable_rows(rows: Seq<RowView>) -> Seq<RowView> {
    rows.filter(|row: RowView| row_usable(row))
}

/// Some usable row of `rows` has the id `id`.
pub open spec fn id_present(rows: Seq<RowView>, id: i32) -> bool {
    exists|i: int| 0 <= i < rows.len() && row_usable(#[trigger] rows[i]) && rows[i].id == Some(id)
}

/// Rows without id or name leave no trace: the builder is the one that the
/// usable rows alone give.
pub proof fn lemma_unusable_rows_are_skipped(rows: Seq<RowView>)
    ensures
        after_rows(rows) == after_rows(usable_rows(rows)),
    decreases rows.len(),
{
    let usable = |row: RowView| row_usable(row);
    if rows.len() == 0 {
        assert(rows.filter(usable) =~= rows) by {
            reveal(Seq::filter);
        }
    } else {
        let front = rows.drop_last();
        let last = rows.last();
        lemma_unusable_rows_are_skipped(front);
        assert(front.push(last) =~= rows);
        front.lemma_filter_push(last, usable);
        if row_usable(last) {
            assert(front.filter(usable).push(last).drop_last() =~= front.filter(usable));
        }
    }
}

/// The builder has an entry for exactly the ids of the usable rows.
pub proof fn lemma_entries_hold_usable_ids(rows: Seq<RowView>, id: i32)
    ensures
        after_rows(rows).entries.contains_key(id) <==> id_present(rows, id),
    decreases rows.len(),
{
    if rows.len() > 0 {
        let front = rows.drop_last();
        let last = rows.last();
        lemma_entries_hold_usable_ids(front, id);
        if id_present(front, id) {
            let i = choose|i: int|
                0 <= i < front.len() && row_usable(#[trigger] front[i]) && front[i].id == Some(id);
            assert(rows[i] == front[i]);
        }
        if id_present(rows, id) {
            let i = choose|i: int|
                0 <= i < rows.len() && row_usable(#[trigger] rows[i]) && rows[i].id == Some(id);
            if i < front.len() {
                assert(front[i] == rows[i]);
            }
        }
        if row_usable(last) && last.id == Some(id) {
            assert(rows[rows.len() - 1] == last);
        }
    }
}

/// Asking for an id that no usable row carries fails with `NotFound`.
pub proof fn lemma_absent_id_is_not_found(rows: Seq<RowView>, id: i32)
    requires
        !id_present(rows, id),
    ensures
        node_outcome(after_rows(rows), id) == Err::<NodeView, TreeError>(TreeError::NotFound),
{
    lemma_entries_hold_usable_ids(rows, id);
}

/// Asking for an id that some usable row carries never fails with `NotFound`.
pub proof fn lemma_present_id_is_found(rows: Seq<RowView>, id: i32)
    requires
        id_present(rows, id),
    ensures
        node_outcome(after_rows(rows), id) != Err::<NodeView, TreeError>(TreeError::NotFound),
{
    lemma_entries_hold_usable_ids(rows, id);
}

/// Row `at` is usable and gets linked: it names no parent and becomes a
/// root, or it names a parent that has an entry once the row is read.
pub open spec fn row_is_linked(rows: Seq<RowView>, at: int) -> bool {
    &&& row_usable(rows[at])
    &&& match rows[at].parent_id {
        None => true,
        Some(parent) => id_present(rows.take(at + 1), parent),
    }
}

/// Row `at` is an orphan: usable, and naming a parent id that no usable row
/// of the whole input carries.
pub open spec fn row_is_orphan(rows: Seq<RowView>, at: int) -> bool {
    &&& 0 <= at < rows.len()
    &&& row_usable(rows[at])
    &&& rows[at].parent_id is Some
    &&& !id_present(rows, rows[at].parent_id->0)
}

/// `id` is recorded as a root or as a child of some entry.
pub open spec fn id_is_linked(builder: BuilderView, id: i32) -> bool {
    ||| builder.roots.contains(id)
    ||| exists|parent: i32|
        builder.entries.contains_key(parent) && (#[trigger] builder.entries[parent])
            .children.contains(id)
}

/// An id is linked in the builder only where a row that carries it got
/// linked.
pub proof fn lemma_links_come_from_rows(rows: Seq<RowView>, id: i32) -> (at: int)
    requires
        id_is_linked(after_rows(rows), id),
    ensures
        0 <= at < rows.len(),
        rows[at].id == Some(id),
        row_is_linked(rows, at),
    decreases rows.len(),
{
    if rows.len() == 0 {
        assert(!after_rows(rows).roots.contains(id));
        0
    } else {
        let front = rows.drop_last();
        let last = rows.last();
        let before = after_rows(front);
        let after = after_rows(rows);
        if id_is_linked(before, id) {
            let at = lemma_links_come_from_rows(front, id);
            assert(front.take(at + 1) =~= rows.take(at + 1));
            at
        } else {
            // The link is new, so the last row made it.
            let at = rows.len() - 1;
            assert(row_usable(last));
            let own = last.id->0;
            let fresh = before.entries.insert(
                own,
                EntryView { name: last.name->0, children: Seq::empty() },
            );
            assert(rows.take(at + 1) =~= rows);
            if after.roots.contains(id) {
                assert(last.parent_id is None);
                assert(before.roots.push(own) == after.roots);
                let i = choose|i: int| 0 <= i < after.roots.len() && after.roots[i] == id;
                if i < before.roots.len() {
                    assert(before.roots[i] == id);
                }
                assert(own == id);
            } else {
                let parent = choose|parent: i32|
                    after.entries.contains_key(parent) && (#[trigger] after.entries[parent])
                        .children.contains(id);
                let kids = after.entries[parent].children;
                let i = choose|i: int| 0 <= i < kids.len() && kids[i] == id;
                if last.parent_id == Some(parent) && fresh.contains_key(parent) {
                    if i < fresh[parent].children.len() {
                        assert(fresh[parent].children[i] == id);
                        assert(fresh[parent].children.contains(id));
                        assert(parent != own);
                        assert(before.entries[parent].children.contains(id));
                    }
                    assert(own == id);
                    lemma_entries_hold_usable_ids(front, parent);
                    if parent == own {
                        assert(rows[at] == last);
                    } else {
                        let j = choose|j: int|
                            0 <= j < front.len() && row_usable(#[trigger] front[j]) && front[j].id
                                == Some(parent);
                        assert(rows[j] == front[j]);
                    }
                } else {
                    assert(after.entries[parent] == fresh[parent]);
                    assert(parent != own);
                    assert(before.entries[parent].children.contains(id));
                }
            }
            at
        }
    }
}

/// Every id that a builder records as a root or lists as a child has an
/// entry of its own: the walk along the child lists never leaves the table.
pub proof fn lemma_listed_ids_have_entries(rows: Seq<RowView>, id: i32)
    requires
        id_is_linked(after_rows(rows), id),
    ensures
        after_rows(rows).entries.contains_key(id),
{
    let at = lemma_links_come_from_rows(rows, id);
    lemma_entries_hold_usable_ids(rows, id);
}

/// An id that no entry lists as a child occurs in no described tree, unless
/// as its root.
pub proof fn lemma_unlisted_id_is_outside(entries: Map<i32, EntryView>, id: i32, tree: NodeView)
    requires
        describes(entries, tree),
        tree.id != id,
        forall|parent: i32|
            entries.contains_key(parent) ==> !(#[trigger] entries[parent]).children.contains(id),
    ensures
        !node_ids(tree).contains(id),
    decreases tree,
{
    vstd::seq_lib::lemma_seq_concat_contains_all_elements(seq![tree.id], forest_ids(tree.subs), id);
    if forest_ids(tree.subs).contains(id) {
        let k = lemma_forest_ids_origin(tree.subs, id);
        let kids = entries[tree.id].children;
        assert(tree.subs[k].id == kids[k]);
        if kids[k] == id {
            assert(kids.contains(id));
        }
        lemma_unlisted_id_is_outside(entries, id, tree.subs[k]);
    }
    if seq![tree.id].contains(id) {
        assert(seq![tree.id][0] == tree.id);
    }
}

/// An orphan row leaves an entry that no tree shows.
///
/// Where row `at` names a parent that no usable row carries, and no other
/// row of the same id gets linked, the id of row `at` has an entry, yet it
/// occurs in no subtree asked for under another id, nor anywhere below the
/// virtual root.
pub proof fn lemma_orphan_is_invisible(rows: Seq<RowView>, at: int)
    requires
        row_is_orphan(rows, at),
        forall|other: int|
            0 <= other < rows.len() && other != at && (#[trigger] rows[other]).id == rows[at].id
                ==> !row_is_linked(rows, other),
    ensures
        after_rows(rows).entries.contains_key(rows[at].id->0),
        forall|id: i32|
            id != rows[at].id->0 ==> (#[trigger] node_outcome(after_rows(rows), id) matches Ok(tree)
                ==> !node_ids(tree).contains(rows[at].id->0)),
        root_outcome(after_rows(rows)) matches Ok(root) ==> !forest_ids(root.subs).contains(
            rows[at].id->0,
        ),
{
    let builder = after_rows(rows);
    let orphan = rows[at].id->0;
    lemma_entries_hold_usable_ids(rows, orphan);
    assert(!id_is_linked(builder, orphan)) by {
        if id_is_linked(builder, orphan) {
            let linked = lemma_links_come_from_rows(rows, orphan);
            if linked == at {
                let parent = rows[at].parent_id->0;
                let early = rows.take(at + 1);
                let i = choose|i: int|
                    0 <= i < early.len() && row_usable(#[trigger] early[i]) && early[i].id == Some(
                        parent,
                    );
                assert(rows[i] == early[i]);
            }
        }
    }
    assert forall|id: i32| id != orphan implies (#[trigger] node_outcome(builder, id) matches Ok(
        tree,
    ) ==> !node_ids(tree).contains(orphan)) by {
        if let Ok(tree) = node_outcome(builder, id) {
            assert(tree_at(builder.entries, id) == Some(tree));
            assert(is_tree(builder.entries, tree) && tree.id == id);
            lemma_unlisted_id_is_outside(builder.entries, orphan, tree);
        }
    }
    if let Ok(root) = root_outcome(builder) {
        let trees = forest_at(builder.entries, builder.roots)->0;
        assert(root == virtual_root(trees));
        assert(is_forest(builder.entries, builder.roots, trees));
        if forest_ids(trees).contains(orphan) {
            let k = lemma_forest_ids_origin(trees, orphan);
            assert(trees[k].id == builder.roots[k]);
            if builder.roots[k] == orphan {
                assert(builder.roots.contains(orphan));
            }
            lemma_unlisted_id_is_outside(builder.entries, orphan, trees[k]);
        }
    }
}

/// A subtree that a builder yields is the tree its entries hold below the id
/// asked for: described by them, and without any id twice.
pub proof fn lemma_yielded_node_is_tree(builder: BuilderView, id: i32)
    ensures
        node_outcome(builder, id) matches Ok(tree) ==> tree.id == id && is_tree(
            builder.entries,
            tree,
        ),
{
}

/// Below the virtual root that a builder yields stand the trees of its
/// recorded roots, in recorded order, and no id occurs twice among them.
pub proof fn lemma_yielded_root_is_forest(builder: BuilderView)
    ensures
        root_outcome(builder) matches Ok(root) ==> root.id == 0 && root.name == Seq::<char>::empty()
            && is_forest(builder.entries, builder.roots, root.subs),
{
}

/// A builder fails with `CorruptTree` exactly where the id asked for has an
/// entry but the entries hold no tree below it.
pub proof fn lemma_corrupt_means_no_tree(builder: BuilderView, id: i32)
    ensures
        node_outcome(builder, id) == Err::<NodeView, TreeError>(TreeError::CorruptTree) <==> (
        builder.entries.contains_key(id) && forall|tree: NodeView|
            tree.id == id ==> !#[trigger] is_tree(builder.entries, tree)),
{
}

} // verus!
