//! Behavior of the tree as a whole: population, sorting, caching, layout,
//! event routing and reconciliation.

use iced_file_tree::LINE_HEIGHT;
use iced_file_tree::dir::{Dir, Node, NodeKey, VisualState};
use iced_file_tree::event::{CursorPos, TreeMessage, UiEvent};
use iced_file_tree::file_tree;
use iced_file_tree::listing::{EntryKind, RawEntry};

fn entry(name: &str, kind: EntryKind) -> RawEntry {
    RawEntry { name: String::from(name), kind }
}

fn sample_scan() -> Vec<RawEntry> {
    vec![
        entry(".hidden_b", EntryKind::RegularFile),
        entry("Z.txt", EntryKind::RegularFile),
        entry("a_dir", EntryKind::Directory),
        entry("m.txt", EntryKind::RegularFile),
    ]
}

fn node_name(n: &Node) -> String {
    match n {
        Node::Dir(d) => d.name.clone(),
        Node::File(f) => f.name.clone(),
        Node::Error(e) => e.name.clone(),
    }
}

fn display_names(d: &Dir) -> Vec<String> {
    d.children_for_display(true).iter().map(node_name).collect()
}

fn root_dir(show_hidden: bool) -> Dir {
    let mut d = Dir::new_inner(String::from("/tmp/root"), false, false, show_hidden, true);
    d.populate(Some(sample_scan()));
    d
}

fn fresh_state(d: &Dir) -> VisualState {
    VisualState {
        open: false,
        hovered: false,
        last_click: None,
        key: NodeKey { kind: EntryKind::Directory, path: d.path.clone() },
        children: Vec::new(),
    }
}

#[test]
fn sort_order_hides_dot_entries_by_default() {
    let d = root_dir(false);
    assert_eq!(display_names(&d), vec!["a_dir", "m.txt", "Z.txt"]);
}

#[test]
fn sort_order_with_hidden_entries_shown() {
    let d = root_dir(true);
    assert_eq!(display_names(&d), vec!["a_dir", ".hidden_b", "m.txt", "Z.txt"]);
}

#[test]
fn closed_directory_presents_no_children() {
    let d = root_dir(false);
    assert!(d.children_for_display(false).is_empty());
}

#[test]
fn closed_directory_is_one_row_high() {
    let d = root_dir(false);
    let mut s = fresh_state(&d);
    d.diff(&mut s);
    assert_eq!(d.height(&s), LINE_HEIGHT);
}

#[test]
fn open_directory_height_counts_children() {
    let d = root_dir(false);
    let mut s = fresh_state(&d);
    s.open = true;
    d.diff(&mut s);
    assert_eq!(d.height(&s), 4 * LINE_HEIGHT);
}

#[test]
fn failed_scan_reads_as_empty() {
    let mut d = Dir::new_inner(String::from("/tmp/gone"), false, false, false, true);
    d.populate(None);
    assert!(d.children_for_display(true).is_empty());
    let mut s = fresh_state(&d);
    s.open = true;
    d.diff(&mut s);
    assert_eq!(d.height(&s), LINE_HEIGHT);
}

#[test]
fn layout_stacks_children_with_indent() {
    let d = root_dir(false);
    let mut s = fresh_state(&d);
    s.open = true;
    d.diff(&mut s);
    let l = d.layout(&s, 0, 0, 300);
    assert_eq!(l.height, 4 * LINE_HEIGHT);
    assert_eq!(l.width, 300);
    assert_eq!(l.children.len(), 3);
    for (i, c) in l.children.iter().enumerate() {
        assert_eq!(c.x, LINE_HEIGHT);
        assert_eq!(c.y, LINE_HEIGHT * (i as i64 + 1));
        assert_eq!(c.height, LINE_HEIGHT);
        assert_eq!(c.width, 300);
    }
}

#[test]
fn header_press_toggles_and_captures() {
    let d = root_dir(false);
    let mut s = fresh_state(&d);
    d.diff(&mut s);
    let o = d.update(
        &mut s,
        UiEvent::LeftPress,
        Some(CursorPos { x: 5, y: 5 }),
        0,
        0,
        0,
        300,
    );
    assert!(s.open);
    assert!(o.captured);
    assert!(o.relayout);
    assert!(o.redraw);
    assert!(o.messages.is_empty());
    assert!(o.scans.is_empty());
}

#[test]
fn opening_an_unscanned_directory_requests_one_scan() {
    let mut tree = file_tree(String::from("/tmp/root"), true).unwrap();
    let mut s = tree.state();
    tree.diff(&mut s);
    let o = tree.update(
        &mut s,
        UiEvent::LeftPress,
        Some(CursorPos { x: 5, y: 5 }),
        0,
        0,
        0,
        300,
    );
    assert!(s.open);
    assert_eq!(o.scans.len(), 1);
    assert!(o.scans[0].route.is_empty());
    assert_eq!(o.scans[0].path, "/tmp/root");
    tree.populate_at(&o.scans[0].route, Some(sample_scan()));
    tree.diff(&mut s);
    assert_eq!(tree.0.children_for_display(true).len(), 3);
}

#[test]
fn reopening_never_rescans() {
    let mut tree = file_tree(String::from("/tmp/root"), true).unwrap();
    let mut s = tree.state();
    tree.diff(&mut s);
    let cursor = Some(CursorPos { x: 5, y: 5 });
    let o1 = tree.update(&mut s, UiEvent::LeftPress, cursor, 0, 0, 0, 300);
    assert_eq!(o1.scans.len(), 1);
    tree.populate_at(&o1.scans[0].route, Some(sample_scan()));
    tree.diff(&mut s);
    let names_first: Vec<String> = display_names(&tree.0);
    // close
    let o2 = tree.update(&mut s, UiEvent::LeftPress, cursor, 10, 0, 0, 300);
    assert!(!s.open);
    assert!(o2.scans.is_empty());
    tree.diff(&mut s);
    // open again: the cache answers; no scan is requested
    let o3 = tree.update(&mut s, UiEvent::LeftPress, cursor, 20, 0, 0, 300);
    assert!(s.open);
    assert!(o3.scans.is_empty());
    tree.diff(&mut s);
    assert_eq!(display_names(&tree.0), names_first);
}

#[test]
fn nested_scan_request_routes_to_the_child() {
    let mut tree = file_tree(String::from("/tmp/root"), true).unwrap();
    let mut s = tree.state();
    tree.diff(&mut s);
    let cursor = Some(CursorPos { x: 5, y: 5 });
    let o = tree.update(&mut s, UiEvent::LeftPress, cursor, 0, 0, 0, 300);
    tree.populate_at(&o.scans[0].route, Some(sample_scan()));
    tree.diff(&mut s);
    // press the header of "a_dir", the first child row
    let o2 = tree.update(
        &mut s,
        UiEvent::LeftPress,
        Some(CursorPos { x: 30, y: LINE_HEIGHT + 5 }),
        10,
        0,
        0,
        300,
    );
    assert!(o2.captured);
    assert_eq!(o2.scans.len(), 1);
    assert_eq!(o2.scans[0].route, vec![0]);
    assert_eq!(o2.scans[0].path, "/tmp/root/a_dir");
    tree.populate_at(&o2.scans[0].route, Some(vec![entry("inner.txt", EntryKind::RegularFile)]));
    tree.diff(&mut s);
    assert_eq!(tree.layout(&s, 0, 0, 300).height, 5 * LINE_HEIGHT);
}

#[test]
fn file_press_fires_single_click() {
    let mut d = Dir::new_inner(String::from("/tmp/root"), true, false, false, true);
    d.populate(Some(sample_scan()));
    let mut s = fresh_state(&d);
    s.open = true;
    d.diff(&mut s);
    // "m.txt" is the second row below the header
    let o = d.update(
        &mut s,
        UiEvent::LeftPress,
        Some(CursorPos { x: 30, y: 2 * LINE_HEIGHT + 5 }),
        0,
        0,
        0,
        300,
    );
    assert!(o.captured);
    assert_eq!(o.messages.len(), 1);
    match &o.messages[0] {
        TreeMessage::SingleClick(p) => assert_eq!(p, "/tmp/root/m.txt"),
        other => panic!("unexpected message: {:?}", other),
    }
}

#[test]
fn press_outside_every_row_is_ignored() {
    let d = root_dir(false);
    let mut s = fresh_state(&d);
    s.open = true;
    d.diff(&mut s);
    let o = d.update(
        &mut s,
        UiEvent::LeftPress,
        Some(CursorPos { x: 30, y: 10 * LINE_HEIGHT }),
        0,
        0,
        0,
        300,
    );
    assert!(!o.captured);
    assert!(o.messages.is_empty());
    assert!(o.scans.is_empty());
}

#[test]
fn hover_change_requests_redraw_without_capture() {
    let d = root_dir(false);
    let mut s = fresh_state(&d);
    d.diff(&mut s);
    let o = d.update(&mut s, UiEvent::Other, Some(CursorPos { x: 5, y: 5 }), 0, 0, 0, 300);
    assert!(s.hovered);
    assert!(o.redraw);
    assert!(!o.captured);
    assert!(!o.relayout);
    let o2 = d.update(&mut s, UiEvent::Other, Some(CursorPos { x: 5, y: 5 }), 1, 0, 0, 300);
    assert!(!o2.redraw);
}

#[test]
fn reconciliation_drops_state_for_replaced_children() {
    // two trees at the same path; the entry "a" changes kind between them
    let mut tree_a = Dir::new_inner(String::from("/tmp/root"), false, false, false, true);
    tree_a.populate(Some(vec![entry("a", EntryKind::Directory)]));
    let mut tree_b = Dir::new_inner(String::from("/tmp/root"), false, false, false, true);
    tree_b.populate(Some(vec![entry("a", EntryKind::RegularFile)]));

    let mut s = fresh_state(&tree_a);
    s.open = true;
    tree_a.diff(&mut s);
    assert_eq!(s.children.len(), 1);
    s.children[0].open = true;

    // same tree again: the child keeps its state
    tree_a.diff(&mut s);
    assert!(s.children[0].open);

    // fresh tree at the same path, same position, different kind: dropped
    tree_b.diff(&mut s);
    assert_eq!(s.children.len(), 1);
    assert!(!s.children[0].open);
}

#[test]
fn reconciliation_drops_state_for_vanished_children() {
    let mut tree_a = Dir::new_inner(String::from("/tmp/root"), false, false, false, true);
    tree_a.populate(Some(vec![
        entry("a.txt", EntryKind::RegularFile),
        entry("b.txt", EntryKind::RegularFile),
    ]));
    let mut tree_b = Dir::new_inner(String::from("/tmp/root"), false, false, false, true);
    tree_b.populate(Some(vec![entry("a.txt", EntryKind::RegularFile)]));

    let mut s = fresh_state(&tree_a);
    s.open = true;
    tree_a.diff(&mut s);
    assert_eq!(s.children.len(), 2);
    tree_b.diff(&mut s);
    assert_eq!(s.children.len(), 1);
}

#[test]
fn collapsing_discards_child_states() {
    let d = root_dir(false);
    let mut s = fresh_state(&d);
    s.open = true;
    d.diff(&mut s);
    assert_eq!(s.children.len(), 3);
    s.open = false;
    d.diff(&mut s);
    assert!(s.children.is_empty());
}

#[test]
fn deep_open_state_survives_reconciliation() {
    let mut d = Dir::new_inner(String::from("/tmp/root"), false, false, false, true);
    d.populate(Some(vec![entry("sub", EntryKind::Directory)]));
    let mut s = fresh_state(&d);
    s.open = true;
    d.diff(&mut s);

    // open the child directory and populate it
    let o = d.update(
        &mut s,
        UiEvent::LeftPress,
        Some(CursorPos { x: 30, y: LINE_HEIGHT + 5 }),
        0,
        0,
        0,
        300,
    );
    assert_eq!(o.scans.len(), 1);
    let mut root = Node::Dir(d);
    iced_file_tree::dir::populate_node_at(
        &mut root,
        &o.scans[0].route,
        0,
        Some(vec![entry("deep.txt", EntryKind::RegularFile)]),
    );
    let d = match root {
        Node::Dir(d) => d,
        other => panic!("the root stayed a directory, got {:?}", other),
    };
    d.diff(&mut s);
    assert!(s.children[0].open);
    assert_eq!(s.children[0].children.len(), 1);

    // an unrelated pass keeps the nested open flag
    d.diff(&mut s);
    assert!(s.children[0].open);
    assert_eq!(d.height(&s), 3 * LINE_HEIGHT);
}

#[test]
fn nested_file_click_reports_its_full_path() {
    let mut d = Dir::new_inner(String::from("/tmp/root"), true, false, false, true);
    d.populate(Some(vec![
        entry("sub", EntryKind::Directory),
        entry("top.txt", EntryKind::RegularFile),
    ]));
    let mut s = fresh_state(&d);
    s.open = true;
    d.diff(&mut s);
    // open "sub"
    let o = d.update(
        &mut s,
        UiEvent::LeftPress,
        Some(CursorPos { x: 30, y: LINE_HEIGHT + 5 }),
        0,
        0,
        0,
        300,
    );
    let mut root = Node::Dir(d);
    iced_file_tree::dir::populate_node_at(
        &mut root,
        &o.scans[0].route,
        0,
        Some(vec![entry("deep.txt", EntryKind::RegularFile)]),
    );
    let d = match root {
        Node::Dir(d) => d,
        other => panic!("the root stayed a directory, got {:?}", other),
    };
    d.diff(&mut s);
    // rows: root header, sub header, deep.txt, top.txt
    let o2 = d.update(
        &mut s,
        UiEvent::LeftPress,
        Some(CursorPos { x: 50, y: 2 * LINE_HEIGHT + 5 }),
        500,
        0,
        0,
        300,
    );
    assert!(o2.captured);
    assert_eq!(o2.messages.len(), 1);
    match &o2.messages[0] {
        TreeMessage::SingleClick(p) => assert_eq!(p, "/tmp/root/sub/deep.txt"),
        other => panic!("unexpected message: {:?}", other),
    }
}

#[test]
fn populate_at_with_a_stale_route_changes_nothing() {
    let mut tree = file_tree(String::from("/tmp/root"), true).unwrap();
    tree.populate_at(&Vec::new(), Some(sample_scan()));
    let before = display_names(&tree.0);
    // the root is already populated: a second answer is ignored
    tree.populate_at(&Vec::new(), Some(vec![entry("other.txt", EntryKind::RegularFile)]));
    assert_eq!(display_names(&tree.0), before);
    // a route into a leaf reaches no directory and is ignored too
    tree.populate_at(&vec![1], Some(vec![entry("x", EntryKind::RegularFile)]));
    assert_eq!(display_names(&tree.0), before);
}

#[test]
fn open_empty_directory_is_a_bare_header() {
    let mut d = Dir::new_inner(String::from("/tmp/root"), false, false, false, true);
    d.populate(Some(Vec::new()));
    let mut s = fresh_state(&d);
    s.open = true;
    d.diff(&mut s);
    assert_eq!(d.height(&s), LINE_HEIGHT);
    assert!(d.children_for_display(true).is_empty());
}

#[test]
fn unreadable_root_yields_no_tree() {
    assert!(file_tree(String::from("/tmp/root"), false).is_none());
    assert!(file_tree(String::from("/tmp/root"), true).is_some());
}
