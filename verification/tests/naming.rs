//! Display-name derivation and the listing primitives.

use iced_file_tree::dir::Node;
use iced_file_tree::err::ErrorFile;
use iced_file_tree::file::File;
use iced_file_tree::folder::Folder;
use iced_file_tree::listing::{EntryKind, RawEntry, filter_visible, name_le, sort_entries};
use iced_file_tree::paths::{child_path, file_name, file_stem};

#[test]
fn file_name_is_the_final_component() {
    assert_eq!(file_name("/tmp/a/b.txt"), "b.txt");
    assert_eq!(file_name("b.txt"), "b.txt");
    assert_eq!(file_name("/tmp/a/"), "");
    assert_eq!(file_name(""), "");
}

#[test]
fn file_stem_strips_the_last_extension() {
    assert_eq!(file_stem("a.txt"), "a");
    assert_eq!(file_stem("a.tar.gz"), "a.tar");
    assert_eq!(file_stem(".hidden"), ".hidden");
    assert_eq!(file_stem(".hidden.txt"), ".hidden");
    assert_eq!(file_stem("plain"), "plain");
    assert_eq!(file_stem("dot."), "dot");
}

#[test]
fn child_path_joins_with_a_separator() {
    assert_eq!(child_path("/tmp/a", "b.txt"), "/tmp/a/b.txt");
}

#[test]
fn file_nodes_honor_the_extension_flag() {
    let with_ext = File::new_inner(String::from("/r/notes.txt"), false, false, true);
    assert_eq!(with_ext.name, "notes.txt");
    let without_ext = File::new_inner(String::from("/r/notes.txt"), false, false, false);
    assert_eq!(without_ext.name, "notes");
}

#[test]
fn error_nodes_show_the_final_component() {
    let e = ErrorFile::new_inner(String::from("/r/dev0"));
    assert_eq!(e.name, "dev0");
    assert_eq!(e.path, "/r/dev0");
}

#[test]
fn name_order_is_case_insensitive() {
    assert!(name_le("Apple", "banana"));
    assert!(name_le("banana", "Cherry"));
    assert!(!name_le("cherry", "Banana"));
    assert!(name_le("same", "same"));
    assert!(name_le("ab", "abc"));
    assert!(!name_le("abc", "ab"));
}

#[test]
fn sorting_puts_directories_first() {
    let entries = vec![
        RawEntry { name: String::from("z.txt"), kind: EntryKind::RegularFile },
        RawEntry { name: String::from("B"), kind: EntryKind::Directory },
        RawEntry { name: String::from("a.txt"), kind: EntryKind::RegularFile },
        RawEntry { name: String::from("a"), kind: EntryKind::Directory },
    ];
    let sorted = sort_entries(entries);
    let names: Vec<&str> = sorted.iter().map(|e| e.name.as_str()).collect();
    assert_eq!(names, vec!["a", "B", "a.txt", "z.txt"]);
}

#[test]
fn filtering_drops_dot_entries_unless_asked() {
    let entries = vec![
        RawEntry { name: String::from(".git"), kind: EntryKind::Directory },
        RawEntry { name: String::from("src"), kind: EntryKind::Directory },
    ];
    let kept = filter_visible(entries, false);
    assert_eq!(kept.len(), 1);
    assert_eq!(kept[0].name, "src");

    let entries2 = vec![
        RawEntry { name: String::from(".git"), kind: EntryKind::Directory },
        RawEntry { name: String::from("src"), kind: EntryKind::Directory },
    ];
    assert_eq!(filter_visible(entries2, true).len(), 2);
}

#[test]
fn folder_needs_a_readable_named_root() {
    assert!(Folder::new(String::from("/tmp/root"), false).is_none());
    assert!(Folder::new(String::from("/tmp/root/"), true).is_none());
    let f = Folder::new(String::from("/tmp/root"), true).unwrap();
    assert_eq!(f.0.name, "root");
}

#[test]
fn folder_builders_set_the_configuration() {
    let f = Folder::new(String::from("/tmp/root"), true)
        .unwrap()
        .hidden_files(true)
        .file_extensions(false)
        .on_single_click()
        .on_double_click();
    assert!(f.0.show_hidden);
    assert!(!f.0.show_extensions);
    assert!(f.0.single_click);
    assert!(f.0.double_click);
}

#[test]
fn unclassifiable_entries_become_one_error_row_in_order() {
    let mut d = iced_file_tree::dir::Dir::new_inner(
        String::from("/tmp/root"),
        false,
        false,
        false,
        true,
    );
    d.populate(Some(vec![
        RawEntry { name: String::from("zz.txt"), kind: EntryKind::RegularFile },
        RawEntry { name: String::from("dev0"), kind: EntryKind::Other },
        RawEntry { name: String::from("adir"), kind: EntryKind::Directory },
    ]));
    let children = d.children_for_display(true);
    assert_eq!(children.len(), 3);
    assert!(matches!(children[0], Node::Dir(_)));
    match &children[1] {
        Node::Error(e) => assert_eq!(e.name, "dev0"),
        other => panic!("expected the error row, got {:?}", other),
    }
    assert!(matches!(children[2], Node::File(_)));
    let errors = children.iter().filter(|c| matches!(c, Node::Error(_))).count();
    assert_eq!(errors, 1);
}
