//! Click classification and the file-row event machine.

use iced_file_tree::click::{CLICK_INTERVAL_MS, CLICK_RADIUS, ClickKind, ClickRecord, classify};
use iced_file_tree::dir::{NodeKey, VisualState};
use iced_file_tree::event::{CursorPos, TreeMessage, UiEvent};
use iced_file_tree::file::File;
use iced_file_tree::listing::EntryKind;

fn file_state(f: &File) -> VisualState {
    VisualState {
        open: false,
        hovered: false,
        last_click: None,
        key: NodeKey { kind: EntryKind::RegularFile, path: f.path.clone() },
        children: Vec::new(),
    }
}

fn press(f: &File, s: &mut VisualState, pos: (i64, i64), t: u64) -> Vec<TreeMessage> {
    let o = f.update(
        s,
        UiEvent::LeftPress,
        Some(CursorPos { x: pos.0, y: pos.1 }),
        t,
        0,
        0,
        300,
    );
    assert!(o.captured);
    o.messages
}

fn is_single(m: &TreeMessage) -> bool {
    matches!(m, TreeMessage::SingleClick(_))
}

fn is_double(m: &TreeMessage) -> bool {
    matches!(m, TreeMessage::DoubleClick(_))
}

#[test]
fn classify_follows_the_click_sequence() {
    let rec = |kind: ClickKind, t: u64| ClickRecord { kind, x: 4, y: 4, time_ms: t };
    assert!(matches!(classify(None, 4, 4, 0), ClickKind::Single));
    assert!(matches!(classify(Some(rec(ClickKind::Single, 0)), 4, 4, 100), ClickKind::Double));
    assert!(matches!(classify(Some(rec(ClickKind::Double, 100)), 4, 4, 200), ClickKind::Triple));
    assert!(matches!(classify(Some(rec(ClickKind::Triple, 200)), 4, 4, 300), ClickKind::Double));
    // a small drift within the click radius still continues the sequence
    assert!(matches!(
        classify(Some(rec(ClickKind::Single, 0)), 4 + CLICK_RADIUS, 4, 100),
        ClickKind::Double
    ));
    // too late, too far, or not strictly later: the sequence restarts
    assert!(matches!(
        classify(Some(rec(ClickKind::Single, 0)), 4, 4, CLICK_INTERVAL_MS + 1),
        ClickKind::Single
    ));
    assert!(matches!(
        classify(Some(rec(ClickKind::Single, 0)), 4 + CLICK_RADIUS + 1, 4, 100),
        ClickKind::Single
    ));
    assert!(matches!(classify(Some(rec(ClickKind::Single, 50)), 4, 4, 50), ClickKind::Single));
}

#[test]
fn fast_double_press_fires_single_twice_and_double_once() {
    let f = File::new_inner(String::from("/r/a.txt"), true, true, true);
    let mut s = file_state(&f);
    let m1 = press(&f, &mut s, (10, 10), 0);
    assert_eq!(m1.len(), 1);
    assert!(is_single(&m1[0]));
    let m2 = press(&f, &mut s, (10, 10), 120);
    assert_eq!(m2.len(), 2);
    assert!(is_single(&m2[0]));
    assert!(is_double(&m2[1]));
}

#[test]
fn slow_presses_fire_no_double() {
    let f = File::new_inner(String::from("/r/a.txt"), true, true, true);
    let mut s = file_state(&f);
    let m1 = press(&f, &mut s, (10, 10), 0);
    let m2 = press(&f, &mut s, (10, 10), CLICK_INTERVAL_MS + 1);
    assert_eq!(m1.len() + m2.len(), 2);
    assert!(m1.iter().chain(m2.iter()).all(is_single));
}

#[test]
fn moved_presses_fire_no_double() {
    let f = File::new_inner(String::from("/r/a.txt"), true, true, true);
    let mut s = file_state(&f);
    let m1 = press(&f, &mut s, (10, 10), 0);
    let m2 = press(&f, &mut s, (10 + CLICK_RADIUS + 1, 10), 100);
    assert_eq!(m1.len() + m2.len(), 2);
    assert!(m1.iter().chain(m2.iter()).all(is_single));
}

#[test]
fn small_jitter_still_doubles() {
    let f = File::new_inner(String::from("/r/a.txt"), true, true, true);
    let mut s = file_state(&f);
    press(&f, &mut s, (10, 10), 0);
    let m2 = press(&f, &mut s, (12, 9), 100);
    assert_eq!(m2.len(), 2);
    assert!(is_single(&m2[0]));
    assert!(is_double(&m2[1]));
}

#[test]
fn unconfigured_callbacks_emit_no_messages() {
    let f = File::new_inner(String::from("/r/a.txt"), false, false, true);
    let mut s = file_state(&f);
    let m = press(&f, &mut s, (10, 10), 0);
    assert!(m.is_empty());
    // the press is still recorded: the detector runs on every accepted
    // press, whatever callbacks are configured
    let rec = s.last_click.expect("the press is recorded");
    assert!(matches!(rec.kind, ClickKind::Single));
    assert_eq!((rec.x, rec.y, rec.time_ms), (10, 10, 0));
}

#[test]
fn double_click_message_carries_the_path() {
    let f = File::new_inner(String::from("/r/a.txt"), false, true, true);
    let mut s = file_state(&f);
    let m1 = press(&f, &mut s, (10, 10), 0);
    assert!(m1.is_empty());
    let m2 = press(&f, &mut s, (10, 10), 50);
    assert_eq!(m2.len(), 1);
    match &m2[0] {
        TreeMessage::DoubleClick(p) => assert_eq!(p, "/r/a.txt"),
        other => panic!("expected a double click, got {:?}", other),
    }
}

#[test]
fn third_fast_press_is_a_triple_not_a_double() {
    let f = File::new_inner(String::from("/r/a.txt"), false, true, true);
    let mut s = file_state(&f);
    press(&f, &mut s, (10, 10), 0);
    let m2 = press(&f, &mut s, (10, 10), 100);
    assert_eq!(m2.len(), 1);
    let m3 = press(&f, &mut s, (10, 10), 200);
    assert!(m3.is_empty());
    let m4 = press(&f, &mut s, (10, 10), 300);
    assert_eq!(m4.len(), 1);
    assert!(is_double(&m4[0]));
}

#[test]
fn press_outside_the_row_is_ignored() {
    let f = File::new_inner(String::from("/r/a.txt"), true, true, true);
    let mut s = file_state(&f);
    let o = f.update(
        &mut s,
        UiEvent::LeftPress,
        Some(CursorPos { x: 10, y: 40 }),
        0,
        0,
        0,
        300,
    );
    assert!(!o.captured);
    assert!(o.messages.is_empty());
    assert!(s.last_click.is_none());
}
