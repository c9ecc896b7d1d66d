//! File rows: leaf nodes that emit single- and double-click messages.

use vstd::prelude::*;
use crate::click::{ClickKind, ClickRecord, classify, classify_spec};
use crate::dir::{StateView, VisualState};
use crate::event::{CursorPos, MsgView, OutcomeView, TreeMessage, UiEvent, UpdateOutcome};
use crate::paths::{file_name_of, has_file_name, stem_of, file_name, file_stem};

verus! {

/// A file node. `single_click` and `double_click` record whether the tree
/// was given the corresponding callback; a press on the row only emits the
/// messages that were asked for.
#[derive(Debug)]
pub struct File {
    pub path: String,
    pub name: String,
    pub single_click: bool,
    pub double_click: bool,
}

/// Mathematical image of a [`File`].
pub struct FileView {
    pub path: Seq<char>,
    pub name: Seq<char>,
    pub single_click: bool,
    pub double_click: bool,
}

impl View for File {
    type V = FileView;

    open spec fn view(&self) -> FileView {
        FileView {
            path: self.path@,
            name: self.name@,
            single_click: self.single_click,
            double_click: self.double_click,
        }
    }
}

/// The display name a file with the given path gets.
pub open spec fn file_display_name(path: Seq<char>, show_extensions: bool) -> Seq<char> {
    if show_extensions {
        file_name_of(path)
    } else {
        stem_of(file_name_of(path))
    }
}

impl File {
    /// Builds a file node for `path`. The display name is the path's final
    /// component, without its extension when `show_extensions` is off.
    pub fn new_inner(path: String, single_click: bool, double_click: bool, show_extensions: bool) -> (r: Self)
        requires
            has_file_name(path@),
        ensures
            r@.path == path@,
            r@.name == file_display_name(path@, show_extensions),
            r@.single_click == single_click,
            r@.double_click == double_click,
    {
        let nm = file_name(path.as_str());
        let name = if show_extensions {
            nm
        } else {
            file_stem(nm.as_str())
        };
        File { path, name, single_click, double_click }
    }
}

/// Whether the cursor lies inside the single row at `(x, y)` of width `w`.
pub open spec fn in_row(cursor: Option<CursorPos>, x: int, y: int, w: int) -> bool {
    match cursor {
        Some(c) => x <= c.x < x + w && y <= c.y < y + crate::LINE_HEIGHT,
        None => false,
    }
}

/// Whether this pass accepts a press on the file row.
pub open spec fn file_pressed(ev: UiEvent, cursor: Option<CursorPos>, x: int, y: int, w: int) -> bool {
    ev == UiEvent::LeftPress && in_row(cursor, x, y, w)
}

/// The classification of an accepted press, from the row-local position and
/// the previous accepted press.
pub open spec fn file_click_kind(
    s: StateView,
    cursor: Option<CursorPos>,
    now_ms: u64,
    x: int,
    y: int,
) -> ClickKind {
    match cursor {
        Some(c) => classify_spec(s.last_click, c.x - x, c.y - y, now_ms as int),
        None => ClickKind::Single,
    }
}

/// The record an accepted press leaves behind: every accepted press is
/// recorded, whatever messages were asked for and whatever the detector
/// decided.
pub open spec fn file_new_last_click(
    f: FileView,
    s: StateView,
    ev: UiEvent,
    cursor: Option<CursorPos>,
    now_ms: u64,
    x: int,
    y: int,
    w: int,
) -> Option<ClickRecord> {
    if file_pressed(ev, cursor, x, y, w) {
        match cursor {
            Some(c) => Some(
                ClickRecord {
                    kind: file_click_kind(s, cursor, now_ms, x, y),
                    x: (c.x - x) as i64,
                    y: (c.y - y) as i64,
                    time_ms: now_ms,
                },
            ),
            None => s.last_click,
        }
    } else {
        s.last_click
    }
}

/// The messages an accepted press emits: the single-click message whenever
/// one was asked for, and additionally the double-click message when one was
/// asked for and the press is the second half of a double click.
pub open spec fn file_messages(
    f: FileView,
    s: StateView,
    ev: UiEvent,
    cursor: Option<CursorPos>,
    now_ms: u64,
    x: int,
    y: int,
    w: int,
) -> Seq<MsgView> {
    if file_pressed(ev, cursor, x, y, w) {
        let singles: Seq<MsgView> = if f.single_click {
            seq![MsgView::Single(f.path)]
        } else {
            Seq::empty()
        };
        let doubles: Seq<MsgView> = if f.double_click && file_click_kind(s, cursor, now_ms, x, y)
            == ClickKind::Double {
            seq![MsgView::Double(f.path)]
        } else {
            Seq::empty()
        };
        singles + doubles
    } else {
        Seq::empty()
    }
}

/// The state a file row is left in by one event pass.
pub open spec fn file_update_state(
    f: FileView,
    s: StateView,
    ev: UiEvent,
    cursor: Option<CursorPos>,
    now_ms: u64,
    x: int,
    y: int,
    w: int,
) -> StateView {
    StateView {
        hovered: in_row(cursor, x, y, w),
        last_click: file_new_last_click(f, s, ev, cursor, now_ms, x, y, w),
        ..s
    }
}

/// The outcome a file row reports from one event pass.
pub open spec fn file_update_outcome(
    f: FileView,
    s: StateView,
    ev: UiEvent,
    cursor: Option<CursorPos>,
    now_ms: u64,
    x: int,
    y: int,
    w: int,
) -> OutcomeView {
    OutcomeView {
        captured: file_pressed(ev, cursor, x, y, w),
        relayout: false,
        redraw: in_row(cursor, x, y, w) != s.hovered,
        messages: file_messages(f, s, ev, cursor, now_ms, x, y, w),
        scans: Seq::empty(),
    }
}

/// The second press lands within the click radius of the first on both
/// axes and within the click interval, strictly later.
pub open spec fn second_press_qualifies(c: CursorPos, c2: CursorPos, t1: u64, t2: u64) -> bool {
    &&& -crate::click::CLICK_RADIUS <= c2.x - c.x <= crate::click::CLICK_RADIUS
    &&& -crate::click::CLICK_RADIUS <= c2.y - c.y <= crate::click::CLICK_RADIUS
    &&& t1 < t2
    &&& t2 - t1 <= crate::click::CLICK_INTERVAL_MS
}

/// Double-click detection: with both callbacks configured and no press on
/// record, a left press on the row fires the single-click message alone;
/// a second press fires the single-click message again and fires the
/// double-click message exactly when it qualifies — within the click
/// radius and the click interval, strictly later — and otherwise the
/// second press also fires the single-click message alone.
pub proof fn lemma_double_click_detection(
    f: FileView,
    s0: StateView,
    c: CursorPos,
    c2: CursorPos,
    t1: u64,
    t2: u64,
    x: int,
    y: int,
    w: int,
)
    requires
        f.single_click,
        f.double_click,
        s0.last_click is None,
        0 <= w <= crate::COORD_LIMIT,
        in_row(Some(c), x, y, w),
        in_row(Some(c2), x, y, w),
    ensures
        file_messages(f, s0, UiEvent::LeftPress, Some(c), t1, x, y, w) == seq![
            MsgView::Single(f.path),
        ],
        second_press_qualifies(c, c2, t1, t2) ==> file_messages(
            f,
            file_update_state(f, s0, UiEvent::LeftPress, Some(c), t1, x, y, w),
            UiEvent::LeftPress,
            Some(c2),
            t2,
            x,
            y,
            w,
        ) == seq![MsgView::Single(f.path), MsgView::Double(f.path)],
        !second_press_qualifies(c, c2, t1, t2) ==> file_messages(
            f,
            file_update_state(f, s0, UiEvent::LeftPress, Some(c), t1, x, y, w),
            UiEvent::LeftPress,
            Some(c2),
            t2,
            x,
            y,
            w,
        ) == seq![MsgView::Single(f.path)],
{
    let single = seq![MsgView::Single(f.path)];
    assert(file_click_kind(s0, Some(c), t1, x, y) == ClickKind::Single);
    assert(file_messages(f, s0, UiEvent::LeftPress, Some(c), t1, x, y, w) =~= single);
    let s1 = file_update_state(f, s0, UiEvent::LeftPress, Some(c), t1, x, y, w);
    let rec = ClickRecord { kind: ClickKind::Single, x: (c.x - x) as i64, y: (c.y - y) as i64, time_ms: t1 };
    assert(s1.last_click == Some(rec));
    let kind2 = file_click_kind(s1, Some(c2), t2, x, y);
    if second_press_qualifies(c, c2, t1, t2) {
        assert(crate::click::consecutive(rec, c2.x - x, c2.y - y, t2 as int));
        assert(kind2 == ClickKind::Double);
        assert(file_messages(f, s1, UiEvent::LeftPress, Some(c2), t2, x, y, w) =~= seq![
            MsgView::Single(f.path),
            MsgView::Double(f.path),
        ]);
    } else {
        assert(!crate::click::consecutive(rec, c2.x - x, c2.y - y, t2 as int));
        assert(kind2 == ClickKind::Single);
        assert(file_messages(f, s1, UiEvent::LeftPress, Some(c2), t2, x, y, w) =~= single);
    }
}

impl File {
    /// Handles one event pass over this file's row at `(x, y)` with width
    /// `w`. A left press inside the row is captured; it emits the
    /// single-click message on every such press, the double-click message
    /// exactly when the press continues the previous one into a double
    /// click, and it records every accepted press in `last_click`,
    /// whatever callbacks are configured and whatever the detector
    /// decided. Hover follows the cursor.
    pub fn update(
        &self,
        s: &mut VisualState,
        ev: UiEvent,
        cursor: Option<CursorPos>,
        now_ms: u64,
        x: i64,
        y: i64,
        w: i64,
    ) -> (o: UpdateOutcome)
        requires
            0 <= w <= crate::COORD_LIMIT,
            -crate::COORD_LIMIT <= x <= crate::COORD_LIMIT,
            -crate::COORD_LIMIT <= y <= crate::COORD_LIMIT,
            cursor matches Some(c) ==> -crate::COORD_LIMIT <= c.x <= crate::COORD_LIMIT
                && -crate::COORD_LIMIT <= c.y <= crate::COORD_LIMIT,
        ensures
            final(s)@ == file_update_state(
                self@,
                old(s)@,
                ev,
                cursor,
                now_ms,
                x as int,
                y as int,
                w as int,
            ),
            o@ == file_update_outcome(
                self@,
                old(s)@,
                ev,
                cursor,
                now_ms,
                x as int,
                y as int,
                w as int,
            ),
    {
        let inside = match cursor {
            Some(c) => x <= c.x && c.x < x + w && y <= c.y && c.y < y + crate::LINE_HEIGHT,
            None => false,
        };
        let pressed = inside && matches!(ev, UiEvent::LeftPress);
        let redraw = inside != s.hovered;
        s.hovered = inside;
        let mut messages: Vec<TreeMessage> = Vec::new();
        if pressed {
            if self.single_click {
                messages.push(TreeMessage::SingleClick(self.path.clone()));
            }
            match cursor {
                Some(c) => {
                    let kind = classify(s.last_click, c.x - x, c.y - y, now_ms);
                    if self.double_click && matches!(kind, ClickKind::Double) {
                        messages.push(TreeMessage::DoubleClick(self.path.clone()));
                    }
                    s.last_click = Some(
                        ClickRecord { kind, x: c.x - x, y: c.y - y, time_ms: now_ms },
                    );
                },
                None => {},
            }
        }
        let o = UpdateOutcome {
            captured: pressed,
            relayout: false,
            redraw,
            messages,
            scans: Vec::new(),
        };
        proof {
            let xi = x as int;
            let yi = y as int;
            let wi = w as int;
            assert(inside == in_row(cursor, xi, yi, wi));
            assert(o@.scans =~= Seq::<crate::event::ScanView>::empty());
            assert(o@.messages =~= file_messages(
                self@,
                old(s)@,
                ev,
                cursor,
                now_ms,
                xi,
                yi,
                wi,
            ));
            assert(o@ == file_update_outcome(self@, old(s)@, ev, cursor, now_ms, xi, yi, wi));
            assert(final(s)@ == file_update_state(self@, old(s)@, ev, cursor, now_ms, xi, yi, wi));
        }
        o
    }
}

} // verus!

