//! Assembling a directory tree from flat rows.

use std::collections::HashMap;
use vstd::prelude::*;
use crate::node::{forest_ids, node_ids, node_views, DirectoryNode, NodeView};
use crate::row::{ListDirectory, RowView};
use crate::tree_lemmas::{
    lemma_concat_no_duplicates, lemma_concat_no_duplicates_parts, lemma_described_forest_unique,
    lemma_described_tree_unique, lemma_describes_all_larger, lemma_describes_all_without,
    lemma_describes_larger, lemma_describes_without, lemma_forest_ids_keyed,
    lemma_forest_ids_push, lemma_forest_ids_split, lemma_forest_ids_take, lemma_tree_ids_keyed,
};
use crate::tree_model::{
    after_rows, describes_all, forest_at, is_forest, is_tree, node_outcome, root_outcome, tree_at,
    virtual_root, BuilderView, EntryView, TreeError,
};

verus! {

/// The views of a sequence of rows, in the same order.
pub open spec fn row_views(rows: Seq<ListDirectory>) -> Seq<RowView> {
    rows.map_values(|row: ListDirectory| row@)
}

/// The content of what asking a builder for a tree gave.
pub open spec fn outcome_view(result: Result<DirectoryNode, TreeError>) -> Result<
    NodeView,
    TreeError,
> {
    match result {
        Ok(node) => Ok(node@),
        Err(error) => Err(error),
    }
}

#[derive(Debug)]
struct DirectoryTreeBuilderEntry {
    name: String,
    children: Vec<i32>,
}

impl View for DirectoryTreeBuilderEntry {
    type V = EntryView;

    closed spec fn view(&self) -> EntryView {
        EntryView { name: self.name@, children: self.children@ }
    }
}

/// The model of a table of entries.
spec fn entry_views(map: Map<i32, DirectoryTreeBuilderEntry>) -> Map<i32, EntryView> {
    Map::new(|id: i32| map.contains_key(id), |id: i32| map[id]@)
}

/// Assembles directory trees from a flat list of rows.
///
/// A builder is made from rows once and consumed by the one tree it is asked
/// for.
#[derive(Debug)]
pub struct DirectoryTreeBuilder {
    map: HashMap<i32, DirectoryTreeBuilderEntry>,
    root_ids: Vec<i32>,
}

impl View for DirectoryTreeBuilder {
    type V = BuilderView;

    closed spec fn view(&self) -> BuilderView {
        BuilderView { entries: entry_views(self.map@), roots: self.root_ids@ }
    }
}

impl DirectoryTreeBuilder {
    /// Reads `list` in one pass, in order.
    ///
    /// Rows that lack an id or a name are skipped. Each of the others gets a
    /// fresh entry under its id and is recorded as a root or appended to the
    /// children of its parent, as `add_row` says.
    pub fn from_list(list: Vec<ListDirectory>) -> (builder: Self)
        ensures
            builder@ == after_rows(row_views(list@)),
    {
        let mut map: HashMap<i32, DirectoryTreeBuilderEntry> = HashMap::with_capacity(list.len());
        let mut root_ids: Vec<i32> = Vec::new();
        let ghost rows = row_views(list@);
        proof {
            assert(entry_views(map@) =~= Map::<i32, EntryView>::empty());
            assert(rows.take(0) =~= Seq::<RowView>::empty());
        }

        for dir in it: list.into_iter()
            invariant
                rows.len() == it.seq().len(),
                forall|i: int| 0 <= i < rows.len() ==> rows[i] == (#[trigger] it.seq()[i])@,
                (BuilderView { entries: entry_views(map@), roots: root_ids@ }) == after_rows(
                    rows.take(it.index() as int),
                ),
        {
            let ghost before = BuilderView { entries: entry_views(map@), roots: root_ids@ };
            proof {
                assert(rows.take(it.index() + 1).drop_last() =~= rows.take(it.index() as int));
                assert(rows.take(it.index() + 1).last() == dir@);
            }
            match (dir.id, dir.name) {
                (Some(id), Some(name)) => {
                    map.insert(id, DirectoryTreeBuilderEntry { name, children: Vec::new() });
                    assert(entry_views(map@) =~= before.entries.insert(
                        id,
                        EntryView { name: name@, children: Seq::empty() },
                    ));
                    match dir.parent_id {
                        None => {
                            root_ids.push(id);
                        },
                        Some(parent_id) => {
                            let ghost fresh = entry_views(map@);
                            match map.remove(&parent_id) {
                                Some(mut parent) => {
                                    parent.children.push(id);
                                    map.insert(parent_id, parent);
                                    assert(entry_views(map@) =~= fresh.insert(
                                        parent_id,
                                        EntryView {
                                            name: fresh[parent_id].name,
                                            children: fresh[parent_id].children.push(id),
                                        },
                                    ));
                                },
                                None => {
                                    assert(entry_views(map@) =~= fresh);
                                },
                            }
                        },
                    }
                },
                _ => {},
            }
        }
        proof {
            assert(rows.take(rows.len() as int) =~= rows);
        }
        DirectoryTreeBuilder { map, root_ids }
    }

    /// Takes the entry of `id` out of `map` and, with it, everything below.
    ///
    /// Succeeds exactly where the entries hold a tree below `id`; the entries
    /// of that tree are then gone from `map`.
    fn recursively_build_tree(
        id: i32,
        map: &mut HashMap<i32, DirectoryTreeBuilderEntry>,
    ) -> (result: Result<DirectoryNode, TreeError>)
        ensures
            final(map)@.dom().subset_of(old(map)@.dom()),
            match result {
                Ok(node) => {
                    &&& node@.id == id
                    &&& is_tree(entry_views(old(map)@), node@)
                    &&& entry_views(final(map)@) == entry_views(old(map)@).remove_keys(
                        node_ids(node@).to_set(),
                    )
                },
                Err(error) => {
                    &&& error == TreeError::CorruptTree
                    &&& forall|tree: NodeView|
                        tree.id == id ==> !#[trigger] is_tree(entry_views(old(map)@), tree)
                },
            },
        decreases old(map)@.dom().len(), 0nat,
    {
        let ghost before = entry_views(map@);
        match map.remove(&id) {
            None => Err(TreeError::CorruptTree),
            Some(entry) => {
                let ghost inner = entry_views(map@);
                proof {
                    assert(inner =~= before.remove_keys(set![id]));
                }
                match Self::recursively_build_forest(&entry.children, map) {
                    Err(error) => {
                        proof {
                            assert forall|tree: NodeView| tree.id == id implies !#[trigger] is_tree(
                                before,
                                tree,
                            ) by {
                                if is_tree(before, tree) {
                                    lemma_concat_no_duplicates_parts(
                                        seq![id],
                                        forest_ids(tree.subs),
                                    );
                                    assert(seq![id][0] == id);
                                    assert(seq![id].contains(id));
                                    lemma_describes_all_without(
                                        before,
                                        set![id],
                                        entry@.children,
                                        tree.subs,
                                    );
                                    assert(is_forest(inner, entry@.children, tree.subs));
                                }
                            }
                        }
                        Err(error)
                    },
                    Ok(subs) => {
                        let ghost trees = node_views(subs@);
                        let node = DirectoryNode { id, name: entry.name, subs };
                        proof {
                            lemma_describes_all_larger(inner, before, entry@.children, trees);
                            lemma_forest_ids_keyed(inner, entry@.children, trees);
                            assert forall|x: i32| seq![id].contains(x) implies !forest_ids(
                                trees,
                            ).contains(x) by {
                                assert(x == id);
                            }
                            lemma_concat_no_duplicates(seq![id], forest_ids(trees));
                            vstd::seq_lib::seq_to_set_distributes_over_add(
                                seq![id],
                                forest_ids(trees),
                            );
                            assert(seq![id].to_set() =~= set![id]) by {
                                assert(seq![id][0] == id);
                            }
                            assert(entry_views(map@) =~= before.remove_keys(
                                node_ids(node@).to_set(),
                            ));
                        }
                        Ok(node)
                    },
                }
            },
        }
    }

    /// Builds the trees below `ids`, one after the other, out of `map`.
    ///
    /// Succeeds exactly where the entries hold a forest below `ids`; the
    /// entries of that forest are then gone from `map`.
    fn recursively_build_forest(
        ids: &Vec<i32>,
        map: &mut HashMap<i32, DirectoryTreeBuilderEntry>,
    ) -> (result: Result<Vec<DirectoryNode>, TreeError>)
        ensures
            final(map)@.dom().subset_of(old(map)@.dom()),
            match result {
                Ok(nodes) => {
                    &&& is_forest(entry_views(old(map)@), ids@, node_views(nodes@))
                    &&& entry_views(final(map)@) == entry_views(old(map)@).remove_keys(
                        forest_ids(node_views(nodes@)).to_set(),
                    )
                },
                Err(error) => {
                    &&& error == TreeError::CorruptTree
                    &&& forall|trees: Seq<NodeView>|
                        !#[trigger] is_forest(entry_views(old(map)@), ids@, trees)
                },
            },
        decreases old(map)@.dom().len(), 1nat,
    {
        let ghost start = map@;
        let ghost before = entry_views(map@);
        let mut nodes: Vec<DirectoryNode> = Vec::new();
        let mut next: usize = 0;
        proof {
            assert(node_views(nodes@) =~= Seq::<NodeView>::empty());
            assert(forest_ids(node_views(nodes@)).to_set() =~= Set::<i32>::empty());
            assert(entry_views(map@) =~= before.remove_keys(Set::<i32>::empty()));
        }
        while next < ids.len()
            invariant
                next <= ids.len(),
                nodes.len() == next,
                start == old(map)@,
                before == entry_views(start),
                map@.dom().subset_of(start.dom()),
                is_forest(before, ids@.take(next as int), node_views(nodes@)),
                entry_views(map@) == before.remove_keys(forest_ids(node_views(nodes@)).to_set()),
            decreases ids.len() - next,
        {
            let ghost done = node_views(nodes@);
            let ghost current = entry_views(map@);
            proof {
                vstd::set_lib::lemma_len_subset(map@.dom(), start.dom());
            }
            match Self::recursively_build_tree(ids[next], map) {
                Err(error) => {
                    proof {
                        assert forall|trees: Seq<NodeView>| !#[trigger] is_forest(
                            before,
                            ids@,
                            trees,
                        ) by {
                            if is_forest(before, ids@, trees) {
                                let k = next as int;
                                let tree = trees[k];
                                assert(describes_all(before, ids@.take(k), trees.take(k)));
                                lemma_described_forest_unique(
                                    before,
                                    ids@.take(k),
                                    trees.take(k),
                                    done,
                                );
                                lemma_forest_ids_split(trees, k + 1);
                                lemma_concat_no_duplicates_parts(
                                    forest_ids(trees.take(k + 1)),
                                    forest_ids(trees.skip(k + 1)),
                                );
                                lemma_forest_ids_take(trees, k);
                                lemma_concat_no_duplicates_parts(forest_ids(done), node_ids(tree));
                                lemma_describes_without(before, forest_ids(done).to_set(), tree);
                                assert(is_tree(current, tree));
                            }
                        }
                    }
                    return Err(error);
                },
                Ok(node) => {
                    proof {
                        let tree = node@;
                        lemma_describes_larger(current, before, tree);
                        lemma_forest_ids_push(done, tree);
                        lemma_tree_ids_keyed(current, tree);
                        lemma_concat_no_duplicates(forest_ids(done), node_ids(tree));
                        vstd::seq_lib::seq_to_set_distributes_over_add(
                            forest_ids(done),
                            node_ids(tree),
                        );
                        assert(node_views(nodes@.push(node)) =~= done.push(tree));
                        assert(entry_views(map@) =~= before.remove_keys(
                            forest_ids(done.push(tree)).to_set(),
                        ));
                    }
                    nodes.push(node);
                },
            }
            next += 1;
        }
        proof {
            assert(ids@.take(next as int) =~= ids@);
        }
        Ok(nodes)
    }

    /// Builds the subtree rooted at `directory_id`, consuming the builder.
    ///
    /// Fails with `NotFound` where no entry has that id, and with
    /// `CorruptTree` where the entries below it do not form a tree.
    pub fn into_node(self, directory_id: i32) -> (result: Result<DirectoryNode, TreeError>)
        ensures
            outcome_view(result) == node_outcome(self@, directory_id),
    {
        let mut map = self.map;
        if !map.contains_key(&directory_id) {
            return Err(TreeError::NotFound);
        }
        let ghost entries = entry_views(map@);
        match Self::recursively_build_tree(directory_id, &mut map) {
            Ok(node) => {
                proof {
                    let found = tree_at(entries, directory_id)->0;
                    lemma_described_tree_unique(entries, found, node@);
                }
                Ok(node)
            },
            Err(error) => Err(error),
        }
    }

    /// Builds the trees of all recorded roots, in recorded order, under the
    /// virtual root, consuming the builder.
    ///
    /// Fails with `CorruptTree` where the entries below the roots do not form
    /// a forest.
    pub fn into_root(self) -> (result: Result<DirectoryNode, TreeError>)
        ensures
            outcome_view(result) == root_outcome(self@),
    {
        let mut map = self.map;
        let ghost entries = entry_views(map@);
        match Self::recursively_build_forest(&self.root_ids, &mut map) {
            Ok(subs) => {
                let root = DirectoryNode { id: 0, name: String::new(), subs };
                proof {
                    let found = forest_at(entries, self.root_ids@)->0;
                    lemma_described_forest_unique(
                        entries,
                        self.root_ids@,
                        found,
                        node_views(subs@),
                    );
                    assert(root@ == virtual_root(node_views(subs@)));
                }
                Ok(root)
            },
            Err(error) => Err(error),
        }
    }
}

} // verus!
