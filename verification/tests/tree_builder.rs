use directory_core::node::DirectoryNode;
use directory_core::row::ListDirectory;
use directory_core::tree_builder::DirectoryTreeBuilder;
use directory_core::tree_model::TreeError;

fn row(id: i32, name: &str, parent_id: Option<i32>) -> ListDirectory {
    ListDirectory {
        id: id.into(),
        name: name.to_string().into(),
        parent_id,
    }
}

fn node(id: i32, name: &str, subs: Vec<DirectoryNode>) -> DirectoryNode {
    DirectoryNode {
        id,
        name: name.into(),
        subs,
    }
}

#[test]
fn with_empty_list() {
    let builder = DirectoryTreeBuilder::from_list(vec![]);

    assert_eq!(
        builder.into_root(),
        Ok(DirectoryNode {
            id: 0,
            name: String::new(),
            subs: vec![],
        })
    );
}

#[test]
fn into_root_simple_test() {
    let builder = DirectoryTreeBuilder::from_list(vec![
        ListDirectory {
            id: 1.into(),
            name: "util".to_string().into(),
            parent_id: None,
        },
        ListDirectory {
            id: 2.into(),
            name: "src".to_string().into(),
            parent_id: None,
        },
        ListDirectory {
            id: 3.into(),
            name: "bin".to_string().into(),
            parent_id: 1.into(),
        },
        ListDirectory {
            id: 4.into(),
            name: "var".to_string().into(),
            parent_id: 1.into(),
        },
        ListDirectory {
            id: 5.into(),
            name: "usr".to_string().into(),
            parent_id: 3.into(),
        },
    ]);

    assert_eq!(
        builder.into_root(),
        Ok(DirectoryNode {
            id: 0,
            name: String::new(),
            subs: vec![
                DirectoryNode {
                    id: 1,
                    name: "util".into(),
                    subs: vec![
                        DirectoryNode {
                            id: 3,
                            name: "bin".into(),
                            subs: vec![DirectoryNode {
                                id: 5,
                                name: "usr".into(),
                                subs: vec![],
                            },],
                        },
                        DirectoryNode {
                            id: 4,
                            name: "var".into(),
                            subs: vec![],
                        },
                    ],
                },
                DirectoryNode {
                    id: 2,
                    name: "src".into(),
                    subs: vec![],
                }
            ],
        })
    );
}

#[test]
fn into_node_simple_test() {
    let builder = DirectoryTreeBuilder::from_list(vec![
        ListDirectory {
            id: 1.into(),
            name: "util".to_string().into(),
            parent_id: None,
        },
        ListDirectory {
            id: 2.into(),
            name: "src".to_string().into(),
            parent_id: None,
        },
        ListDirectory {
            id: 3.into(),
            name: "bin".to_string().into(),
            parent_id: 1.into(),
        },
        ListDirectory {
            id: 4.into(),
            name: "var".to_string().into(),
            parent_id: 1.into(),
        },
        ListDirectory {
            id: 5.into(),
            name: "usr".to_string().into(),
            parent_id: 3.into(),
        },
    ]);

    assert_eq!(
        builder.into_node(1).expect("to not failed"),
        DirectoryNode {
            id: 1,
            name: "util".into(),
            subs: vec![
                DirectoryNode {
                    id: 3,
                    name: "bin".into(),
                    subs: vec![DirectoryNode {
                        id: 5,
                        name: "usr".into(),
                        subs: vec![],
                    },],
                },
                DirectoryNode {
                    id: 4,
                    name: "var".into(),
                    subs: vec![],
                },
            ],
        }
    );
}

#[test]
fn into_node_of_absent_id_is_not_found() {
    let builder = DirectoryTreeBuilder::from_list(vec![row(1, "util", None)]);
    assert_eq!(builder.into_node(7), Err(TreeError::NotFound));
}

#[test]
fn into_node_of_a_leaf_yields_the_leaf() {
    let builder = DirectoryTreeBuilder::from_list(vec![
        row(1, "util", None),
        row(3, "bin", Some(1)),
    ]);
    assert_eq!(builder.into_node(3), Ok(node(3, "bin", vec![])));
}

#[test]
fn rows_without_id_or_name_are_skipped() {
    let builder = DirectoryTreeBuilder::from_list(vec![
        ListDirectory {
            id: None,
            name: Some("ghost".to_string()),
            parent_id: None,
        },
        row(1, "util", None),
        ListDirectory {
            id: Some(2),
            name: None,
            parent_id: Some(1),
        },
        row(3, "bin", Some(1)),
    ]);
    assert_eq!(
        builder.into_root(),
        Ok(node(0, "", vec![node(1, "util", vec![node(3, "bin", vec![])])]))
    );
}

#[test]
fn a_row_that_only_lacks_its_name_leaves_no_entry() {
    let builder = DirectoryTreeBuilder::from_list(vec![ListDirectory {
        id: Some(2),
        name: None,
        parent_id: None,
    }]);
    assert_eq!(builder.into_node(2), Err(TreeError::NotFound));
}

#[test]
fn orphan_row_is_in_no_tree_but_has_its_entry() {
    let rows = || {
        vec![
            row(1, "util", None),
            row(2, "lost", Some(99)),
            row(3, "bin", Some(1)),
            row(4, "below", Some(2)),
        ]
    };
    assert_eq!(
        DirectoryTreeBuilder::from_list(rows()).into_root(),
        Ok(node(0, "", vec![node(1, "util", vec![node(3, "bin", vec![])])]))
    );
    assert_eq!(
        DirectoryTreeBuilder::from_list(rows()).into_node(1),
        Ok(node(1, "util", vec![node(3, "bin", vec![])]))
    );
    assert_eq!(
        DirectoryTreeBuilder::from_list(rows()).into_node(2),
        Ok(node(2, "lost", vec![node(4, "below", vec![])]))
    );
}

#[test]
fn a_child_read_before_its_parent_is_not_linked() {
    let rows = || vec![row(2, "bin", Some(1)), row(1, "util", None)];
    assert_eq!(
        DirectoryTreeBuilder::from_list(rows()).into_root(),
        Ok(node(0, "", vec![node(1, "util", vec![])]))
    );
    assert_eq!(
        DirectoryTreeBuilder::from_list(rows()).into_node(2),
        Ok(node(2, "bin", vec![]))
    );
}

#[test]
fn a_root_recorded_twice_is_a_corrupt_tree() {
    let builder =
        DirectoryTreeBuilder::from_list(vec![row(1, "util", None), row(1, "again", None)]);
    assert_eq!(builder.into_root(), Err(TreeError::CorruptTree));
}

#[test]
fn a_row_that_names_itself_is_a_corrupt_tree() {
    let rows = || vec![row(5, "loop", Some(5))];
    assert_eq!(
        DirectoryTreeBuilder::from_list(rows()).into_node(5),
        Err(TreeError::CorruptTree)
    );
    assert_eq!(
        DirectoryTreeBuilder::from_list(rows()).into_root(),
        Ok(node(0, "", vec![]))
    );
}

#[test]
fn a_child_listed_twice_is_a_corrupt_tree() {
    let builder = DirectoryTreeBuilder::from_list(vec![
        row(1, "util", None),
        row(2, "bin", Some(1)),
        row(2, "bin", Some(1)),
    ]);
    assert_eq!(builder.into_node(1), Err(TreeError::CorruptTree));
}

#[test]
fn a_later_row_replaces_the_entry_of_its_id() {
    let builder = DirectoryTreeBuilder::from_list(vec![
        row(1, "util", None),
        row(2, "bin", Some(1)),
        row(3, "usr", Some(2)),
        row(2, "var", Some(7)),
    ]);
    assert_eq!(
        builder.into_root(),
        Ok(node(0, "", vec![node(1, "util", vec![node(2, "var", vec![])])]))
    );
}

#[test]
fn children_keep_input_order_not_id_order() {
    let builder = DirectoryTreeBuilder::from_list(vec![
        row(9, "top", None),
        row(7, "b", Some(9)),
        row(8, "a", Some(9)),
        row(3, "c", Some(9)),
        row(1, "other", None),
    ]);
    assert_eq!(
        builder.into_root(),
        Ok(node(
            0,
            "",
            vec![
                node(
                    9,
                    "top",
                    vec![node(7, "b", vec![]), node(8, "a", vec![]), node(3, "c", vec![])]
                ),
                node(1, "other", vec![]),
            ]
        ))
    );
}

#[test]
fn a_forest_written_parents_first_comes_back_whole() {
    let rows = || {
        vec![
            row(10, "a", None),
            row(20, "b", None),
            row(11, "a1", Some(10)),
            row(21, "b1", Some(20)),
            row(12, "a2", Some(10)),
            row(111, "a11", Some(11)),
            row(112, "a12", Some(11)),
        ]
    };
    let a = || {
        node(
            10,
            "a",
            vec![
                node(
                    11,
                    "a1",
                    vec![node(111, "a11", vec![]), node(112, "a12", vec![])],
                ),
                node(12, "a2", vec![]),
            ],
        )
    };
    let b = || node(20, "b", vec![node(21, "b1", vec![])]);
    assert_eq!(
        DirectoryTreeBuilder::from_list(rows()).into_root(),
        Ok(node(0, "", vec![a(), b()]))
    );
    assert_eq!(DirectoryTreeBuilder::from_list(rows()).into_node(10), Ok(a()));
    assert_eq!(DirectoryTreeBuilder::from_list(rows()).into_node(20), Ok(b()));
}

#[test]
fn a_real_row_with_id_zero_sits_under_the_virtual_root() {
    let builder = DirectoryTreeBuilder::from_list(vec![row(0, "zero", None)]);
    assert_eq!(
        builder.into_root(),
        Ok(node(0, "", vec![node(0, "zero", vec![])]))
    );
}

#[test]
fn a_cloned_tree_equals_the_tree() {
    let tree = node(
        1,
        "util",
        vec![node(3, "bin", vec![node(5, "usr", vec![])]), node(4, "var", vec![])],
    );
    assert_eq!(tree.clone(), tree);
}
