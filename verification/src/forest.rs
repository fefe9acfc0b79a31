//! Rows that already are a forest, and the trees they spell.

use vstd::prelude::*;
use crate::node::{forest_ids, node_ids, NodeView};
use crate::row::RowView;
use crate::tree_laws::{id_present, lemma_unusable_rows_are_skipped, usable_rows};
use crate::tree_lemmas::{
    lemma_concat_no_duplicates, lemma_described_forest_unique, lemma_described_tree_unique,
    lemma_forest_ids_push,
};
use crate::tree_model::{
    add_row, after_rows, describes, describes_all, forest_at, is_forest, is_tree, node_outcome,
    root_outcome, row_usable, tree_at, virtual_root, BuilderView, EntryView, TreeError,
};

verus! {

/// The rows are a forest written down parents first: no two carry the same
/// id, and each names no parent or one that an earlier row carries.
pub open spec fn forest_shaped(rows: Seq<RowView>) -> bool {
    &&& forall|i: int, j: int|
        0 <= i < j < rows.len() ==> (#[trigger] rows[i]).id != (#[trigger] rows[j]).id
    &&& forall|i: int|
        0 <= i < rows.len() && (#[trigger] rows[i]).parent_id is Some ==> id_present(
            rows.take(i),
            rows[i].parent_id->0,
        )
}

/// The positions from `lo` up to `hi`, ascending, of the rows that name
/// `parent`; with `None` for `parent`, of the rows that name no parent.
pub open spec fn child_rows(rows: Seq<RowView>, parent: Option<i32>, lo: int, hi: int) -> Seq<int>
    decreases hi - lo,
{
    if hi <= lo {
        Seq::empty()
    } else if rows[hi - 1].parent_id == parent {
        child_rows(rows, parent, lo, hi - 1).push(hi - 1)
    } else {
        child_rows(rows, parent, lo, hi - 1)
    }
}

/// The tree of the row at `at`: its id and name and, below, the trees of the
/// later rows that name it as their parent, in input order.
pub open spec fn row_tree(rows: Seq<RowView>, at: int) -> NodeView
    decreases rows.len() - at,
{
    NodeView {
        id: rows[at].id->0,
        name: rows[at].name->0,
        subs: child_rows(rows, rows[at].id, at + 1, rows.len() as int).map_values(
            |below: int|
                if at < below < rows.len() {
                    row_tree(rows, below)
                } else {
                    arbitrary()
                },
        ),
    }
}

/// The trees of the rows at `positions`, in that order.
pub open spec fn row_trees(rows: Seq<RowView>, positions: Seq<int>) -> Seq<NodeView> {
    positions.map_values(|at: int| row_tree(rows, at))
}

/// The trees of the rows that name no parent, in input order.
pub open spec fn row_forest(rows: Seq<RowView>) -> Seq<NodeView> {
    row_trees(rows, child_rows(rows, None, 0, rows.len() as int))
}

/// The ids of the rows at `positions`, in that order.
spec fn row_ids(rows: Seq<RowView>, positions: Seq<int>) -> Seq<i32> {
    positions.map_values(|at: int| rows[at].id->0)
}

/// Every row has an id and a name.
spec fn all_usable(rows: Seq<RowView>) -> bool {
    forall|i: int| 0 <= i < rows.len() ==> row_usable(#[trigger] rows[i])
}

/// Each of the child rows lies in the range and names the parent, and they
/// ascend.
proof fn lemma_child_rows_members(rows: Seq<RowView>, parent: Option<i32>, lo: int, hi: int)
    requires
        0 <= lo,
        hi <= rows.len(),
    ensures
        forall|k: int|
            0 <= k < child_rows(rows, parent, lo, hi).len() ==> {
                let at = #[trigger] child_rows(rows, parent, lo, hi)[k];
                lo <= at < hi && rows[at].parent_id == parent
            },
        forall|k: int, l: int|
            0 <= k < l < child_rows(rows, parent, lo, hi).len() ==> child_rows(
                rows,
                parent,
                lo,
                hi,
            )[k] < child_rows(rows, parent, lo, hi)[l],
    decreases hi - lo,
{
    if hi > lo {
        lemma_child_rows_members(rows, parent, lo, hi - 1);
    }
}

/// Where no row of the range names the parent, there are no child rows.
proof fn lemma_child_rows_none(rows: Seq<RowView>, parent: Option<i32>, lo: int, hi: int)
    requires
        forall|at: int| lo <= at < hi ==> (#[trigger] rows[at]).parent_id != parent,
    ensures
        child_rows(rows, parent, lo, hi) == Seq::<int>::empty(),
    decreases hi - lo,
{
    if hi > lo {
        lemma_child_rows_none(rows, parent, lo, hi - 1);
    }
}

/// Rows that do not name the parent can be left out at the front.
proof fn lemma_child_rows_skip(rows: Seq<RowView>, parent: Option<i32>, lo: int, mid: int, hi: int)
    requires
        lo <= mid <= hi,
        forall|at: int| lo <= at < mid ==> (#[trigger] rows[at]).parent_id != parent,
    ensures
        child_rows(rows, parent, lo, hi) == child_rows(rows, parent, mid, hi),
    decreases hi - mid,
{
    if hi > mid {
        lemma_child_rows_skip(rows, parent, lo, mid, hi - 1);
    } else {
        lemma_child_rows_none(rows, parent, lo, hi);
    }
}

/// In a forest no row up to `at` names the row at `at` as its parent.
proof fn lemma_children_come_later(rows: Seq<RowView>, at: int, child: int)
    requires
        forest_shaped(rows),
        0 <= at < rows.len(),
        0 <= child < rows.len(),
        rows[at].id is Some,
        rows[child].parent_id == rows[at].id,
    ensures
        at < child,
{
    let early = rows.take(child);
    let parent = rows[child].parent_id->0;
    let i = choose|i: int|
        0 <= i < early.len() && row_usable(#[trigger] early[i]) && early[i].id == Some(parent);
    assert(rows[i] == early[i]);
    if i < at {
        assert(rows[i].id != rows[at].id);
    }
    if at < i {
        assert(rows[at].id != rows[i].id);
    }
}

/// The subtrees of a row's tree are the trees of its child rows.
proof fn lemma_row_tree_subs(rows: Seq<RowView>, at: int)
    requires
        0 <= at < rows.len(),
    ensures
        row_tree(rows, at).subs == row_trees(
            rows,
            child_rows(rows, rows[at].id, at + 1, rows.len() as int),
        ),
{
    let below = child_rows(rows, rows[at].id, at + 1, rows.len() as int);
    lemma_child_rows_members(rows, rows[at].id, at + 1, rows.len() as int);
    assert(row_tree(rows, at).subs =~= row_trees(rows, below));
}

/// The builder holds, for the first `count` rows of a forest, what those rows
/// say: the roots among them, and for each its name and its children so far.
spec fn builder_matches(rows: Seq<RowView>, count: int, builder: BuilderView) -> bool {
    &&& builder.roots == row_ids(rows, child_rows(rows, None, 0, count))
    &&& forall|i: int|
        0 <= i < count ==> {
            let id = (#[trigger] rows[i]).id->0;
            &&& builder.entries.contains_key(id)
            &&& builder.entries[id] == EntryView {
                name: rows[i].name->0,
                children: row_ids(rows, child_rows(rows, rows[i].id, 0, count)),
            }
        }
}

/// After the first `count` rows of a forest the builder holds what those
/// rows say.
proof fn lemma_forest_builder(rows: Seq<RowView>, count: int)
    requires
        all_usable(rows),
        forest_shaped(rows),
        0 <= count <= rows.len(),
    ensures
        builder_matches(rows, count, after_rows(rows.take(count))),
    decreases count,
{
    if count == 0 {
        assert(row_ids(rows, child_rows(rows, None, 0, 0)) =~= Seq::<i32>::empty());
    } else {
        let done = count - 1;
        let row = rows[done];
        let own = row.id->0;
        let before = after_rows(rows.take(done));
        let after = after_rows(rows.take(count));
        lemma_forest_builder(rows, done);
        assert(rows.take(count).drop_last() =~= rows.take(done));
        assert(rows.take(count).last() == row);
        assert(after == add_row(before, row));
        assert(row_usable(row));
        let fresh = before.entries.insert(
            own,
            EntryView { name: row.name->0, children: Seq::empty() },
        );
        assert forall|i: int| 0 <= i < done implies (#[trigger] rows[i]).id->0 != own by {
            assert(row_usable(rows[i]));
            assert(rows[i].id != rows[done].id);
        }
        assert(child_rows(rows, row.id, 0, count) == Seq::<int>::empty()) by {
            assert forall|at: int| 0 <= at < count implies (#[trigger] rows[at]).parent_id
                != row.id by {
                if rows[at].parent_id == row.id {
                    lemma_children_come_later(rows, done, at);
                }
            }
            lemma_child_rows_none(rows, row.id, 0, count);
        }
        assert(row_ids(rows, Seq::<int>::empty()) =~= Seq::<i32>::empty());
        match row.parent_id {
            None => {
                assert(row_ids(rows, child_rows(rows, None, 0, done).push(done)) =~= row_ids(
                    rows,
                    child_rows(rows, None, 0, done),
                ).push(own));
                assert forall|i: int| 0 <= i < count implies {
                    let id = (#[trigger] rows[i]).id->0;
                    &&& after.entries.contains_key(id)
                    &&& after.entries[id] == EntryView {
                        name: rows[i].name->0,
                        children: row_ids(rows, child_rows(rows, rows[i].id, 0, count)),
                    }
                } by {
                    assert(row_usable(rows[i]));
                }
            },
            Some(parent) => {
                let early = rows.take(done);
                let j = choose|j: int|
                    0 <= j < early.len() && row_usable(#[trigger] early[j]) && early[j].id == Some(
                        parent,
                    );
                assert(rows[j] == early[j]);
                assert(before.entries.contains_key(parent));
                assert(parent != own);
                assert(after.entries == fresh.insert(
                    parent,
                    EntryView {
                        name: fresh[parent].name,
                        children: fresh[parent].children.push(own),
                    },
                ));
                assert forall|i: int| 0 <= i < count implies {
                    let id = (#[trigger] rows[i]).id->0;
                    &&& after.entries.contains_key(id)
                    &&& after.entries[id] == EntryView {
                        name: rows[i].name->0,
                        children: row_ids(rows, child_rows(rows, rows[i].id, 0, count)),
                    }
                } by {
                    assert(row_usable(rows[i]));
                    if i < done && rows[i].id == Some(parent) {
                        let kids = child_rows(rows, rows[i].id, 0, done);
                        assert(row_ids(rows, kids.push(done)) =~= row_ids(rows, kids).push(own));
                    }
                }
            },
        }
    }
}

/// The builder made from a forest describes the tree of each row.
proof fn lemma_row_tree_described(rows: Seq<RowView>, at: int)
    requires
        all_usable(rows),
        forest_shaped(rows),
        0 <= at < rows.len(),
    ensures
        describes(after_rows(rows).entries, row_tree(rows, at)),
    decreases rows.len() - at,
{
    let count = rows.len() as int;
    let entries = after_rows(rows).entries;
    lemma_forest_builder(rows, count);
    assert(rows.take(count) =~= rows);
    assert(row_usable(rows[at]));
    assert forall|child: int| 0 <= child < at + 1 implies (#[trigger] rows[child]).parent_id
        != rows[at].id by {
        if rows[child].parent_id == rows[at].id {
            lemma_children_come_later(rows, at, child);
        }
    }
    lemma_child_rows_skip(rows, rows[at].id, 0, at + 1, count);
    let below = child_rows(rows, rows[at].id, at + 1, count);
    lemma_child_rows_members(rows, rows[at].id, at + 1, count);
    lemma_row_tree_subs(rows, at);
    let subs = row_trees(rows, below);
    assert forall|k: int| 0 <= k < subs.len() implies (#[trigger] subs[k]).id == row_ids(
        rows,
        below,
    )[k] && describes(entries, subs[k]) by {
        lemma_row_tree_described(rows, below[k]);
    }
}

/// The builder made from a forest describes, below its roots, the trees of
/// the rows that name no parent.
proof fn lemma_row_forest_described(rows: Seq<RowView>)
    requires
        all_usable(rows),
        forest_shaped(rows),
    ensures
        describes_all(after_rows(rows).entries, after_rows(rows).roots, row_forest(rows)),
{
    let count = rows.len() as int;
    let entries = after_rows(rows).entries;
    lemma_forest_builder(rows, count);
    assert(rows.take(count) =~= rows);
    let tops = child_rows(rows, None, 0, count);
    lemma_child_rows_members(rows, None, 0, count);
    let trees = row_forest(rows);
    assert forall|k: int| 0 <= k < trees.len() implies (#[trigger] trees[k]).id == row_ids(
        rows,
        tops,
    )[k] && describes(entries, trees[k]) by {
        lemma_row_tree_described(rows, tops[k]);
    }
}

/// The position of the row that the row at `at` names as its parent.
spec fn parent_row(rows: Seq<RowView>, at: int) -> int {
    choose|up: int| 0 <= up < at && rows[up].id == rows[at].parent_id
}

/// `top` is the row at `at` itself or lies above it: its parent, the parent
/// of its parent, and so on.
spec fn is_under(rows: Seq<RowView>, at: int, top: int) -> bool
    decreases at,
{
    at == top || (0 <= at < rows.len() && rows[at].parent_id is Some && {
        let up = parent_row(rows, at);
        0 <= up < at && is_under(rows, up, top)
    })
}

/// Some row that carries `id` is at or below `top`.
spec fn id_under(rows: Seq<RowView>, id: i32, top: int) -> bool {
    exists|at: int|
        0 <= at < rows.len() && (#[trigger] rows[at]).id == Some(id) && is_under(rows, at, top)
}

/// In a forest an id belongs to one row only.
proof fn lemma_same_id_same_row(rows: Seq<RowView>, i: int, j: int)
    requires
        forest_shaped(rows),
        0 <= i < rows.len(),
        0 <= j < rows.len(),
        rows[i].id == rows[j].id,
    ensures
        i == j,
{
    if i < j {
        assert(rows[i].id != rows[j].id);
    }
    if j < i {
        assert(rows[j].id != rows[i].id);
    }
}

/// In a forest the parent of a row is the one earlier row with that id.
proof fn lemma_parent_row(rows: Seq<RowView>, at: int)
    requires
        forest_shaped(rows),
        0 <= at < rows.len(),
        rows[at].parent_id is Some,
    ensures
        0 <= parent_row(rows, at) < at,
        rows[parent_row(rows, at)].id == rows[at].parent_id,
        forall|up: int|
            0 <= up < rows.len() && (#[trigger] rows[up]).id == rows[at].parent_id ==> up
                == parent_row(rows, at),
{
    let early = rows.take(at);
    let parent = rows[at].parent_id->0;
    let i = choose|i: int|
        0 <= i < early.len() && row_usable(#[trigger] early[i]) && early[i].id == Some(parent);
    assert(rows[i] == early[i]);
    let chosen = parent_row(rows, at);
    assert forall|up: int|
        0 <= up < rows.len() && (#[trigger] rows[up]).id == rows[at].parent_id implies up
        == chosen by {
        lemma_same_id_same_row(rows, up, chosen);
    }
}

/// What lies above a row comes no later than the row.
proof fn lemma_under_is_later(rows: Seq<RowView>, at: int, top: int)
    requires
        is_under(rows, at, top),
    ensures
        top <= at,
    decreases at,
{
    if at != top {
        lemma_under_is_later(rows, parent_row(rows, at), top);
    }
}

/// What is under a row is under that row's parent.
proof fn lemma_under_the_parent(rows: Seq<RowView>, at: int, child: int, top: int)
    requires
        is_under(rows, at, child),
        0 <= child < rows.len(),
        rows[child].parent_id is Some,
        parent_row(rows, child) == top,
        0 <= top < child,
    ensures
        is_under(rows, at, top),
    decreases at,
{
    if at == child {
        assert(is_under(rows, top, top));
    } else {
        lemma_under_the_parent(rows, parent_row(rows, at), child, top);
    }
}

/// Of two rows above the same row, the later is under the earlier.
proof fn lemma_above_is_a_chain(rows: Seq<RowView>, at: int, early: int, late: int)
    requires
        is_under(rows, at, early),
        is_under(rows, at, late),
        early < late,
    ensures
        is_under(rows, late, early),
    decreases at,
{
    if at == late {
    } else if at == early {
        lemma_under_is_later(rows, at, late);
    } else {
        lemma_above_is_a_chain(rows, parent_row(rows, at), early, late);
    }
}

/// Two rows of a forest that name the same parent, or both none, have no row
/// under both.
proof fn lemma_siblings_share_nothing(rows: Seq<RowView>, at: int, early: int, late: int)
    requires
        forest_shaped(rows),
        0 <= early < late < rows.len(),
        rows[early].parent_id == rows[late].parent_id,
        is_under(rows, at, early),
    ensures
        !is_under(rows, at, late),
{
    if is_under(rows, at, late) {
        lemma_above_is_a_chain(rows, at, early, late);
        let up = parent_row(rows, late);
        lemma_under_is_later(rows, up, early);
        lemma_parent_row(rows, late);
        lemma_parent_row(rows, early);
    }
}

/// The tree of a row in a forest holds no id twice, and only ids of rows
/// under that row.
proof fn lemma_row_tree_ids(rows: Seq<RowView>, at: int)
    requires
        all_usable(rows),
        forest_shaped(rows),
        0 <= at < rows.len(),
    ensures
        node_ids(row_tree(rows, at)).no_duplicates(),
        forall|id: i32| #[trigger]
            node_ids(row_tree(rows, at)).contains(id) ==> id_under(rows, id, at),
    decreases rows.len() - at, 0int,
{
    let count = rows.len() as int;
    let own = rows[at].id->0;
    assert(row_usable(rows[at]));
    let below = child_rows(rows, rows[at].id, at + 1, count);
    let subs = row_trees(rows, below);
    lemma_row_tree_subs(rows, at);
    lemma_child_rows_members(rows, rows[at].id, at + 1, count);
    lemma_sibling_tree_ids(rows, rows[at].id, at + 1, count);
    assert(is_under(rows, at, at));
    assert forall|id: i32| forest_ids(subs).contains(id) implies id_under(rows, id, at) && id
        != own by {
        let k = choose|k: int| 0 <= k < below.len() && id_under(rows, id, below[k]);
        let child = below[k];
        let found = choose|found: int|
            0 <= found < rows.len() && (#[trigger] rows[found]).id == Some(id) && is_under(
                rows,
                found,
                child,
            );
        lemma_parent_row(rows, child);
        lemma_under_the_parent(rows, found, child, at);
        lemma_under_is_later(rows, found, child);
        if id == own {
            lemma_same_id_same_row(rows, found, at);
        }
    }
    assert forall|id: i32| seq![own].contains(id) implies !forest_ids(subs).contains(id) by {
        assert(id == own);
    }
    lemma_concat_no_duplicates(seq![own], forest_ids(subs));
    assert forall|id: i32| node_ids(row_tree(rows, at)).contains(id) implies id_under(
        rows,
        id,
        at,
    ) by {
        vstd::seq_lib::lemma_seq_concat_contains_all_elements(seq![own], forest_ids(subs), id);
        if seq![own].contains(id) {
            assert(id == own);
        }
    }
}

/// The trees of rows in a forest that name the same parent, or all none,
/// hold no id twice between them, and only ids of rows under those rows.
proof fn lemma_sibling_tree_ids(rows: Seq<RowView>, parent: Option<i32>, lo: int, hi: int)
    requires
        all_usable(rows),
        forest_shaped(rows),
        0 <= lo,
        hi <= rows.len(),
    ensures
        forest_ids(row_trees(rows, child_rows(rows, parent, lo, hi))).no_duplicates(),
        forall|id: i32| #[trigger]
            forest_ids(row_trees(rows, child_rows(rows, parent, lo, hi))).contains(id)
                ==> exists|k: int|
                0 <= k < child_rows(rows, parent, lo, hi).len() && id_under(
                    rows,
                    id,
                    #[trigger] child_rows(rows, parent, lo, hi)[k],
                ),
    decreases rows.len() - lo, hi - lo + 1,
{
    let all = child_rows(rows, parent, lo, hi);
    if hi <= lo {
        assert(row_trees(rows, all) =~= Seq::<NodeView>::empty());
    } else {
        let last = hi - 1;
        let front = child_rows(rows, parent, lo, last);
        lemma_sibling_tree_ids(rows, parent, lo, last);
        if rows[last].parent_id == parent {
            let tree = row_tree(rows, last);
            lemma_row_tree_ids(rows, last);
            lemma_child_rows_members(rows, parent, lo, last);
            assert(row_trees(rows, front.push(last)) =~= row_trees(rows, front).push(tree));
            lemma_forest_ids_push(row_trees(rows, front), tree);
            let before = forest_ids(row_trees(rows, front));
            assert forall|id: i32| before.contains(id) implies !node_ids(tree).contains(id) by {
                if node_ids(tree).contains(id) {
                    assert(id_under(rows, id, last));
                    let k = choose|k: int|
                        0 <= k < front.len() && id_under(rows, id, #[trigger] front[k]);
                    let one = choose|at: int|
                        0 <= at < rows.len() && (#[trigger] rows[at]).id == Some(id) && is_under(
                            rows,
                            at,
                            front[k],
                        );
                    let other = choose|at: int|
                        0 <= at < rows.len() && (#[trigger] rows[at]).id == Some(id) && is_under(
                            rows,
                            at,
                            last,
                        );
                    lemma_same_id_same_row(rows, one, other);
                    lemma_siblings_share_nothing(rows, one, front[k], last);
                }
            }
            lemma_concat_no_duplicates(before, node_ids(tree));
            assert forall|id: i32| forest_ids(row_trees(rows, all)).contains(id) implies exists|
                k: int,
            |
                0 <= k < all.len() && id_under(rows, id, #[trigger] all[k]) by {
                vstd::seq_lib::lemma_seq_concat_contains_all_elements(before, node_ids(tree), id);
                if before.contains(id) {
                    let k = choose|k: int|
                        0 <= k < front.len() && id_under(rows, id, #[trigger] front[k]);
                    assert(all[k] == front[k]);
                } else {
                    assert(all[all.len() - 1] == last);
                }
            }
        }
    }
}

/// What is kept as usable is usable.
proof fn lemma_usable_rows_are_usable(rows: Seq<RowView>)
    ensures
        all_usable(usable_rows(rows)),
{
    let usable = |row: RowView| row_usable(row);
    assert forall|i: int| 0 <= i < usable_rows(rows).len() implies row_usable(
        #[trigger] usable_rows(rows)[i],
    ) by {
        rows.lemma_filter_pred(usable, i);
    }
}

/// A forest comes back as it was written.
///
/// Where the usable rows are a forest written down parents first, asking for
/// everything succeeds, and the virtual root holds the trees of the rows
/// without parent in input order, each row's tree holding below it the trees
/// of the rows that name it, in input order.
pub proof fn lemma_forest_is_reproduced(rows: Seq<RowView>)
    requires
        forest_shaped(usable_rows(rows)),
    ensures
        root_outcome(after_rows(rows)) == Ok::<NodeView, TreeError>(
            virtual_root(row_forest(usable_rows(rows))),
        ),
{
    let usable = usable_rows(rows);
    let builder = after_rows(rows);
    lemma_unusable_rows_are_skipped(rows);
    lemma_usable_rows_are_usable(rows);
    lemma_row_forest_described(usable);
    lemma_sibling_tree_ids(usable, None, 0, usable.len() as int);
    assert(is_forest(builder.entries, builder.roots, row_forest(usable)));
    let found = forest_at(builder.entries, builder.roots)->0;
    lemma_described_forest_unique(builder.entries, builder.roots, found, row_forest(usable));
}

/// Each subtree of a forest comes back as it was written.
///
/// Where the usable rows are a forest written down parents first, asking for
/// the id of any of them succeeds with the tree of that row.
pub proof fn lemma_subtree_is_reproduced(rows: Seq<RowView>, at: int)
    requires
        forest_shaped(usable_rows(rows)),
        0 <= at < usable_rows(rows).len(),
    ensures
        node_outcome(after_rows(rows), usable_rows(rows)[at].id->0) == Ok::<NodeView, TreeError>(
            row_tree(usable_rows(rows), at),
        ),
{
    let usable = usable_rows(rows);
    let builder = after_rows(rows);
    let id = usable[at].id->0;
    lemma_unusable_rows_are_skipped(rows);
    lemma_usable_rows_are_usable(rows);
    lemma_row_tree_described(usable, at);
    lemma_row_tree_ids(usable, at);
    assert(is_tree(builder.entries, row_tree(usable, at)));
    assert(row_tree(usable, at).id == id);
    let found = tree_at(builder.entries, id)->0;
    lemma_described_tree_unique(builder.entries, found, row_tree(usable, at));
}

} // verus!
