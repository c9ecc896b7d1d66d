//! Draw plans: colors, icons, order and viewport clipping.

use iced_file_tree::LINE_HEIGHT;
use iced_file_tree::dir::{Dir, NodeKey, VisualState};
use iced_file_tree::draw::{DrawCmd, IconKind, PaletteColor, PixelRect};
use iced_file_tree::err::ErrorFile;
use iced_file_tree::listing::{EntryKind, RawEntry};

fn entry(name: &str, kind: EntryKind) -> RawEntry {
    RawEntry { name: String::from(name), kind }
}

fn state_for(d: &Dir, open: bool) -> VisualState {
    let mut s = VisualState {
        open,
        hovered: false,
        last_click: None,
        key: NodeKey { kind: EntryKind::Directory, path: d.path.clone() },
        children: Vec::new(),
    };
    d.diff(&mut s);
    s
}

fn wide_viewport() -> PixelRect {
    PixelRect { x: 0, y: 0, width: 1000, height: 1000 }
}

fn labels(cmds: &[DrawCmd]) -> Vec<String> {
    cmds.iter()
        .filter_map(|c| match c {
            DrawCmd::Label { text, .. } => Some(text.clone()),
            _ => None,
        })
        .collect()
}

#[test]
fn closed_directory_draws_one_row() {
    let mut d = Dir::new_inner(String::from("/r/root"), false, false, false, true);
    d.populate(Some(vec![entry("a.txt", EntryKind::RegularFile)]));
    let s = state_for(&d, false);
    let cmds = d.draw(&s, 0, 0, 300, &wide_viewport());
    assert_eq!(cmds.len(), 3);
    match &cmds[0] {
        DrawCmd::Quad { rect, color } => {
            assert_eq!(rect.height, LINE_HEIGHT);
            assert_eq!(rect.width, 300);
            assert!(matches!(color, PaletteColor::PrimaryWeak));
        },
        other => panic!("expected the header quad, got {:?}", other),
    }
    match &cmds[1] {
        DrawCmd::Icon { icon, .. } => assert!(matches!(icon, IconKind::DirClosed)),
        other => panic!("expected the chevron icon, got {:?}", other),
    }
    assert_eq!(labels(&cmds), vec!["root"]);
}

#[test]
fn open_directory_draws_children_and_connector() {
    let mut d = Dir::new_inner(String::from("/r/root"), false, false, false, true);
    d.populate(Some(vec![
        entry("a.txt", EntryKind::RegularFile),
        entry("b.txt", EntryKind::RegularFile),
    ]));
    let s = state_for(&d, true);
    let cmds = d.draw(&s, 0, 0, 300, &wide_viewport());
    // header (3) + two file rows (3 each) + connector line
    assert_eq!(cmds.len(), 10);
    match &cmds[1] {
        DrawCmd::Icon { icon, .. } => assert!(matches!(icon, IconKind::DirOpen)),
        other => panic!("expected the chevron icon, got {:?}", other),
    }
    assert_eq!(labels(&cmds), vec!["root", "a.txt", "b.txt"]);
    match &cmds[9] {
        DrawCmd::Quad { rect, color } => {
            assert_eq!(rect.width, 2);
            assert_eq!(rect.x, 9);
            assert_eq!(rect.y, 30);
            assert_eq!(rect.height, 3 * LINE_HEIGHT - 40);
            assert!(matches!(color, PaletteColor::PrimaryWeak));
        },
        other => panic!("expected the connector line, got {:?}", other),
    }
}

#[test]
fn hovered_rows_use_the_highlight_color() {
    let mut d = Dir::new_inner(String::from("/r/root"), false, false, false, true);
    d.populate(Some(vec![]));
    let mut s = state_for(&d, false);
    s.hovered = true;
    let cmds = d.draw(&s, 0, 0, 300, &wide_viewport());
    match &cmds[0] {
        DrawCmd::Quad { color, .. } => assert!(matches!(color, PaletteColor::SecondaryWeak)),
        other => panic!("expected the header quad, got {:?}", other),
    }
}

#[test]
fn error_rows_draw_in_danger_colors() {
    let e = ErrorFile::new_inner(String::from("/r/dev0"));
    let s = VisualState {
        open: false,
        hovered: false,
        last_click: None,
        key: NodeKey { kind: EntryKind::Other, path: String::from("/r/dev0") },
        children: Vec::new(),
    };
    let cmds = e.draw(&s, 0, 0, 300, &wide_viewport());
    assert_eq!(cmds.len(), 3);
    match (&cmds[0], &cmds[1], &cmds[2]) {
        (
            DrawCmd::Quad { color: c0, .. },
            DrawCmd::Icon { icon, color: c1, .. },
            DrawCmd::Label { text, color: c2, .. },
        ) => {
            assert!(matches!(c0, PaletteColor::DangerWeak));
            assert!(matches!(icon, IconKind::Cross));
            assert!(matches!(c1, PaletteColor::DangerStrong));
            assert_eq!(text, "dev0");
            assert!(matches!(c2, PaletteColor::DangerStrong));
        },
        other => panic!("unexpected plan: {:?}", other),
    }
}

#[test]
fn rows_outside_the_viewport_are_skipped() {
    let mut d = Dir::new_inner(String::from("/r/root"), false, false, false, true);
    d.populate(Some(vec![
        entry("a.txt", EntryKind::RegularFile),
        entry("b.txt", EntryKind::RegularFile),
    ]));
    let s = state_for(&d, true);
    // the viewport covers only the header and the first child row
    let vp = PixelRect { x: 0, y: 0, width: 1000, height: 2 * LINE_HEIGHT };
    let cmds = d.draw(&s, 0, 0, 300, &vp);
    assert_eq!(labels(&cmds), vec!["root", "a.txt"]);
}

#[test]
fn tree_draw_clips_to_its_own_bounds() {
    let mut tree = iced_file_tree::file_tree(String::from("/r/root"), true).unwrap();
    let mut s = tree.state();
    tree.diff(&mut s);
    tree.populate_at(&Vec::new(), Some(vec![
        entry("a.txt", EntryKind::RegularFile),
        entry("b.txt", EntryKind::RegularFile),
    ]));
    s.open = true;
    tree.diff(&mut s);
    // the viewport reaches below the tree, but the tree clips to its own
    // bounds; only the header and first row fit the viewport's top edge
    let vp = PixelRect { x: 0, y: LINE_HEIGHT + 1, width: 1000, height: 2000 };
    let cmds = tree.draw(&s, 0, 0, 300, &vp);
    let texts: Vec<String> = cmds
        .iter()
        .filter_map(|c| match c {
            DrawCmd::Label { text, .. } => Some(text.clone()),
            _ => None,
        })
        .collect();
    assert_eq!(texts, vec!["root", "a.txt", "b.txt"]);
    // entirely outside: nothing at all
    let far = PixelRect { x: 0, y: 5000, width: 1000, height: 100 };
    assert!(tree.draw(&s, 0, 0, 300, &far).is_empty());
}

#[test]
fn a_tree_off_screen_draws_nothing() {
    let mut d = Dir::new_inner(String::from("/r/root"), false, false, false, true);
    d.populate(Some(vec![entry("a.txt", EntryKind::RegularFile)]));
    let s = state_for(&d, true);
    let vp = PixelRect { x: 0, y: 500, width: 1000, height: 100 };
    let cmds = d.draw(&s, 0, 0, 300, &vp);
    assert!(cmds.is_empty());
}
