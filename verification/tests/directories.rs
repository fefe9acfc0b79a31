use directory_core::directories::{list, list_all};
use directory_core::node::DirectoryNode;
use directory_core::row::ListDirectory;
use directory_core::tree_model::TreeError;

fn sample_rows() -> Vec<ListDirectory> {
    let row = |id: i32, name: &str, parent_id: Option<i32>| ListDirectory {
        id: Some(id),
        name: Some(name.to_string()),
        parent_id,
    };
    vec![
        row(1, "util", None),
        row(2, "src", None),
        row(3, "bin", Some(1)),
        row(4, "var", Some(1)),
        row(5, "usr", Some(3)),
    ]
}

fn leaf(id: i32, name: &str) -> DirectoryNode {
    DirectoryNode {
        id,
        name: name.to_string(),
        subs: vec![],
    }
}

#[test]
fn list_yields_the_directory_with_all_below() {
    assert_eq!(
        list(3, sample_rows()),
        Ok(DirectoryNode {
            id: 3,
            name: "bin".to_string(),
            subs: vec![leaf(5, "usr")],
        })
    );
}

#[test]
fn list_of_an_unknown_directory_is_not_found() {
    assert_eq!(list(6, sample_rows()), Err(TreeError::NotFound));
    assert_eq!(list(1, vec![]), Err(TreeError::NotFound));
}

#[test]
fn list_all_groups_the_roots_under_the_virtual_root() {
    assert_eq!(
        list_all(sample_rows()),
        Ok(DirectoryNode {
            id: 0,
            name: String::new(),
            subs: vec![
                DirectoryNode {
                    id: 1,
                    name: "util".to_string(),
                    subs: vec![
                        DirectoryNode {
                            id: 3,
                            name: "bin".to_string(),
                            subs: vec![leaf(5, "usr")],
                        },
                        leaf(4, "var"),
                    ],
                },
                leaf(2, "src"),
            ],
        })
    );
}

#[test]
fn list_all_of_nothing_is_the_bare_virtual_root() {
    assert_eq!(list_all(vec![]), Ok(leaf(0, "")));
}
