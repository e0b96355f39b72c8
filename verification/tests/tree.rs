//! File lists and texts.

use hypr_clipboard::text::{contains_text, join_path, same_text};
use hypr_clipboard::tree::{FileDescriptor, RemoteNodeKind, RemoteTree, FIRST_INODE};

fn file(name: &str) -> FileDescriptor {
    FileDescriptor::new(name.to_string())
}

#[test]
fn empty_tree_has_no_roots() {
    assert!(RemoteTree::empty().roots().is_empty());
    assert_eq!(RemoteTree::empty().next_base(), 0);
}

#[test]
fn entries_are_numbered_in_order() {
    let files = [
        file("folder").with_directory(),
        file("inner").with_relative_path("folder".to_string()).with_file_size(3),
        file("top"),
    ];
    let mut tree = RemoteTree::build(&files, 100, 40);
    assert_eq!(tree.roots(), &vec![42, 44]);
    assert_eq!(tree.root_names(), vec!["folder".to_string(), "top".to_string()]);
    assert_eq!(tree.next_base(), 43);
    let inner = tree.node(43).unwrap();
    assert_eq!(inner.name, "inner");
    assert_eq!(inner.kind, RemoteNodeKind::File { index: 1 });
    assert_eq!(inner.size, Some(3));
    assert_eq!(inner.relative_path.as_deref(), Some("folder"));
    assert_eq!(tree.node(44).unwrap().relative_path, None);
    assert_eq!(tree.node(42).unwrap().kind, RemoteNodeKind::Directory);
    assert!(tree.node(41).is_none());
    assert!(tree.node(45).is_none());
    assert!(!tree.set_size(42, 9));
    assert!(!tree.set_size(45, 9));
    assert!(!tree.set_size(0, 9));
    assert!(tree.set_size(44, 9));
    assert_eq!(tree.node(44).unwrap().size, Some(9));
}

#[test]
fn a_list_is_cut_where_it_is_too_long() {
    let files = [file("a"), file("b"), file("c")];
    assert_eq!(RemoteTree::build(&files, 2, 0).root_names().len(), 2);
    assert!(RemoteTree::build(&files, 0, 0).roots().is_empty());
    let last = u64::MAX - FIRST_INODE;
    assert!(RemoteTree::build(&files, 3, last).roots().is_empty());
    assert_eq!(RemoteTree::build(&files, 3, last - 1).roots(), &vec![u64::MAX - 1]);
}

#[test]
fn texts_are_compared_whole() {
    assert!(same_text("é", "é"));
    assert!(!same_text("é", "e"));
    assert!(!same_text("a", "ab"));
    assert!(same_text("", ""));
    let list = vec!["a".to_string(), "b".to_string()];
    assert!(contains_text(&list, "b"));
    assert!(!contains_text(&list, "c"));
}

#[test]
fn paths_are_joined_as_the_system_does() {
    for directory in ["/mount", "/mount/", "mount", "", "/"] {
        for name in ["a", "", "/a", "é b", "a/b"] {
            let path = std::path::Path::new(directory).join(name);
            assert_eq!(Some(join_path(directory, name).as_str()), path.to_str());
        }
    }
}
