//! Facts about trees and the entries that describe them.

use vstd::prelude::*;
use crate::node::{forest_ids, node_ids, NodeView};
use crate::tree_model::{describes, describes_all, EntryView};

verus! {

/// A concatenation without duplicates has none in either part, and the parts
/// share no element.
pub proof fn lemma_concat_no_duplicates_parts<A>(a: Seq<A>, b: Seq<A>)
    requires
        (a + b).no_duplicates(),
    ensures
        a.no_duplicates(),
        b.no_duplicates(),
        forall|x: A| a.contains(x) ==> !b.contains(x),
{
    let c = a + b;
    assert forall|i: int, j: int| 0 <= i < a.len() && 0 <= j < a.len() && i != j implies a[i]
        != a[j] by {
        assert(c[i] == a[i] && c[j] == a[j]);
    }
    assert forall|i: int, j: int| 0 <= i < b.len() && 0 <= j < b.len() && i != j implies b[i]
        != b[j] by {
        assert(c[a.len() + i] == b[i] && c[a.len() + j] == b[j]);
    }
    assert forall|x: A| a.contains(x) implies !b.contains(x) by {
        if b.contains(x) {
            let i = choose|i: int| 0 <= i < a.len() && a[i] == x;
            let j = choose|j: int| 0 <= j < b.len() && b[j] == x;
            assert(c[i] == x && c[a.len() + j] == x);
        }
    }
}

/// Two sequences without duplicates that share no element concatenate to one
/// without duplicates.
pub proof fn lemma_concat_no_duplicates<A>(a: Seq<A>, b: Seq<A>)
    requires
        a.no_duplicates(),
        b.no_duplicates(),
        forall|x: A| a.contains(x) ==> !b.contains(x),
    ensures
        (a + b).no_duplicates(),
{
    assert forall|i: int, j: int| 0 <= i < a.len() && 0 <= j < b.len() implies a[i] != b[j] by {
        assert(a.contains(a[i]));
        assert(b.contains(b[j]));
    }
    vstd::seq_lib::lemma_no_dup_in_concat(a, b);
}

/// The ids of a forest with one more tree at its end.
pub proof fn lemma_forest_ids_push(trees: Seq<NodeView>, tree: NodeView)
    ensures
        forest_ids(trees.push(tree)) == forest_ids(trees) + node_ids(tree),
{
    assert(trees.push(tree).drop_last() =~= trees);
}

/// The ids of a forest are those of any front part followed by those of the
/// rest.
pub proof fn lemma_forest_ids_split(trees: Seq<NodeView>, k: int)
    requires
        0 <= k <= trees.len(),
    ensures
        forest_ids(trees) == forest_ids(trees.take(k)) + forest_ids(trees.skip(k)),
    decreases trees.len(),
{
    if k == trees.len() {
        assert(trees.take(k) =~= trees);
        assert(trees.skip(k) =~= Seq::<NodeView>::empty());
        assert(forest_ids(trees) =~= forest_ids(trees) + Seq::<i32>::empty());
    } else {
        let front = trees.drop_last();
        lemma_forest_ids_split(front, k);
        assert(front.take(k) =~= trees.take(k));
        assert(front.skip(k) =~= trees.skip(k).drop_last());
        assert(trees.skip(k).last() == trees.last());
        assert(forest_ids(trees) =~= forest_ids(trees.take(k)) + forest_ids(trees.skip(k)));
    }
}

/// The ids of the first `k + 1` trees are those of the first `k` followed by
/// those of the next.
pub proof fn lemma_forest_ids_take(trees: Seq<NodeView>, k: int)
    requires
        0 <= k < trees.len(),
    ensures
        forest_ids(trees.take(k + 1)) == forest_ids(trees.take(k)) + node_ids(trees[k]),
{
    assert(trees.take(k + 1).drop_last() =~= trees.take(k));
    assert(trees.take(k + 1).last() == trees[k]);
}

/// The ids of a forest include those of each of its trees.
pub proof fn lemma_forest_ids_cover(trees: Seq<NodeView>, k: int)
    requires
        0 <= k < trees.len(),
    ensures
        forall|x: i32| node_ids(trees[k]).contains(x) ==> forest_ids(trees).contains(x),
{
    lemma_forest_ids_take(trees, k);
    lemma_forest_ids_split(trees, k + 1);
    assert forall|x: i32| node_ids(trees[k]).contains(x) implies forest_ids(trees).contains(
        x,
    ) by {
        vstd::seq_lib::lemma_seq_concat_contains_all_elements(
            forest_ids(trees.take(k)),
            node_ids(trees[k]),
            x,
        );
        vstd::seq_lib::lemma_seq_concat_contains_all_elements(
            forest_ids(trees.take(k + 1)),
            forest_ids(trees.skip(k + 1)),
            x,
        );
    }
}

/// Every id of a described tree has an entry.
pub proof fn lemma_tree_ids_keyed(entries: Map<i32, EntryView>, tree: NodeView)
    requires
        describes(entries, tree),
    ensures
        forall|x: i32| node_ids(tree).contains(x) ==> entries.contains_key(x),
    decreases tree,
{
    lemma_forest_ids_keyed(entries, entries[tree.id].children, tree.subs);
    assert forall|x: i32| node_ids(tree).contains(x) implies entries.contains_key(x) by {
        vstd::seq_lib::lemma_seq_concat_contains_all_elements(
            seq![tree.id],
            forest_ids(tree.subs),
            x,
        );
        if seq![tree.id].contains(x) {
            assert(x == tree.id);
        }
    }
}

/// Every id of a described forest has an entry.
pub proof fn lemma_forest_ids_keyed(
    entries: Map<i32, EntryView>,
    ids: Seq<i32>,
    trees: Seq<NodeView>,
)
    requires
        describes_all(entries, ids, trees),
    ensures
        forall|x: i32| forest_ids(trees).contains(x) ==> entries.contains_key(x),
    decreases trees,
{
    if trees.len() > 0 {
        let front = trees.drop_last();
        assert forall|i: int| 0 <= i < front.len() implies (#[trigger] front[i]).id
            == ids.drop_last()[i] && describes(entries, front[i]) by {
            assert(front[i] == trees[i]);
        }
        lemma_forest_ids_keyed(entries, ids.drop_last(), front);
        lemma_tree_ids_keyed(entries, trees.last());
        assert forall|x: i32| forest_ids(trees).contains(x) implies entries.contains_key(x) by {
            vstd::seq_lib::lemma_seq_concat_contains_all_elements(
                forest_ids(front),
                node_ids(trees.last()),
                x,
            );
        }
    }
}

/// A tree described by some entries is described by any larger table.
pub proof fn lemma_describes_larger(
    small: Map<i32, EntryView>,
    large: Map<i32, EntryView>,
    tree: NodeView,
)
    requires
        forall|k: i32| #[trigger]
            small.contains_key(k) ==> large.contains_key(k) && small[k] == large[k],
        describes(small, tree),
    ensures
        describes(large, tree),
    decreases tree,
{
    assert(small.contains_key(tree.id));
    assert forall|i: int| 0 <= i < tree.subs.len() implies describes(
        large,
        #[trigger] tree.subs[i],
    ) by {
        lemma_describes_larger(small, large, tree.subs[i]);
    }
}

/// A tree stays described when entries are removed that it does not use.
pub proof fn lemma_describes_without(
    entries: Map<i32, EntryView>,
    gone: Set<i32>,
    tree: NodeView,
)
    requires
        describes(entries, tree),
        forall|x: i32| node_ids(tree).contains(x) ==> !gone.contains(x),
    ensures
        describes(entries.remove_keys(gone), tree),
    decreases tree,
{
    let rest = entries.remove_keys(gone);
    assert(node_ids(tree)[0] == tree.id);
    assert(node_ids(tree).contains(tree.id));
    assert(rest.contains_key(tree.id));
    assert forall|i: int| 0 <= i < tree.subs.len() implies describes(
        rest,
        #[trigger] tree.subs[i],
    ) by {
        let sub = tree.subs[i];
        assert forall|x: i32| node_ids(sub).contains(x) implies !gone.contains(x) by {
            lemma_forest_ids_cover(tree.subs, i);
            vstd::seq_lib::lemma_seq_concat_contains_all_elements(
                seq![tree.id],
                forest_ids(tree.subs),
                x,
            );
        }
        lemma_describes_without(entries, gone, sub);
    }
}

/// Two trees that the same entries describe below the same id are equal.
pub proof fn lemma_described_tree_unique(entries: Map<i32, EntryView>, a: NodeView, b: NodeView)
    requires
        describes(entries, a),
        describes(entries, b),
        a.id == b.id,
    ensures
        a == b,
    decreases a,
{
    assert forall|i: int| 0 <= i < a.subs.len() implies a.subs[i] == b.subs[i] by {
        lemma_described_tree_unique(entries, a.subs[i], b.subs[i]);
    }
    assert(a.subs =~= b.subs);
}

/// A forest described by some entries is described by any larger table.
pub proof fn lemma_describes_all_larger(
    small: Map<i32, EntryView>,
    large: Map<i32, EntryView>,
    ids: Seq<i32>,
    trees: Seq<NodeView>,
)
    requires
        forall|k: i32| #[trigger]
            small.contains_key(k) ==> large.contains_key(k) && small[k] == large[k],
        describes_all(small, ids, trees),
    ensures
        describes_all(large, ids, trees),
{
    assert forall|i: int| 0 <= i < trees.len() implies describes(large, #[trigger] trees[i]) by {
        lemma_describes_larger(small, large, trees[i]);
    }
}

/// A forest stays described when entries are removed that it does not use.
pub proof fn lemma_describes_all_without(
    entries: Map<i32, EntryView>,
    gone: Set<i32>,
    ids: Seq<i32>,
    trees: Seq<NodeView>,
)
    requires
        describes_all(entries, ids, trees),
        forall|x: i32| forest_ids(trees).contains(x) ==> !gone.contains(x),
    ensures
        describes_all(entries.remove_keys(gone), ids, trees),
{
    assert forall|i: int| 0 <= i < trees.len() implies describes(
        entries.remove_keys(gone),
        #[trigger] trees[i],
    ) by {
        lemma_forest_ids_cover(trees, i);
        lemma_describes_without(entries, gone, trees[i]);
    }
}

/// Two forests that the same entries describe below the same ids are equal.
pub proof fn lemma_described_forest_unique(
    entries: Map<i32, EntryView>,
    ids: Seq<i32>,
    a: Seq<NodeView>,
    b: Seq<NodeView>,
)
    requires
        describes_all(entries, ids, a),
        describes_all(entries, ids, b),
    ensures
        a == b,
{
    assert forall|i: int| 0 <= i < a.len() implies a[i] == b[i] by {
        lemma_described_tree_unique(entries, a[i], b[i]);
    }
    assert(a =~= b);
}

/// Every id of a forest is an id of one of its trees.
pub proof fn lemma_forest_ids_origin(trees: Seq<NodeView>, x: i32) -> (k: int)
    requires
        forest_ids(trees).contains(x),
    ensures
        0 <= k < trees.len(),
        node_ids(trees[k]).contains(x),
    decreases trees.len(),
{
    let front = trees.drop_last();
    vstd::seq_lib::lemma_seq_concat_contains_all_elements(
        forest_ids(front),
        node_ids(trees.last()),
        x,
    );
    if forest_ids(front).contains(x) {
        lemma_forest_ids_origin(front, x)
    } else {
        trees.len() - 1
    }
}

} // verus!
