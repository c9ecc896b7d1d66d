//! The tree's public handle: construction rooted at a path, the builder
//! options, and the host-facing passes (state, diff, layout, update, draw,
//! populate).

use vstd::prelude::*;
use crate::dir::{
    Dir, DirView, KeyView, LayoutNode, Node, NodeKey, NodeView, StateView, VisualState, aligned,
    dir_update_spec, fresh_state_view, layout_view, node_rows, populated_at, reconcile_spec,
    scan_entries,
};
use crate::draw::{
    CmdView, DrawCmd, PixelRect, RectView, cmds_view, intersects, node_draw_spec, rect_sane,
    rects_intersect,
};
use crate::event::{CursorPos, UiEvent, UpdateOutcome};
use crate::listing::{EntryKind, RawEntry};
use crate::paths::{file_name_of, has_file_name, file_name, valid_entry_name};

verus! {

/// A lazy, collapsible view of the directory hierarchy under a root path.
/// Directories expand and collapse on demand, files report single and
/// double clicks, and each directory is enumerated at most once.
#[derive(Debug)]
pub struct FileTree(pub Dir);

/// The configuration a fresh tree starts with: hidden entries off,
/// extensions on, no click messages.
pub open spec fn root_view(path: Seq<char>) -> DirView {
    DirView {
        path,
        name: file_name_of(path),
        children: Option::<Seq<NodeView>>::None,
        show_hidden: false,
        show_extensions: true,
        single_click: false,
        double_click: false,
    }
}

/// Creates a new [`FileTree`] with the root at the given path. `readable`
/// is the host's probe of whether the root can be enumerated at all; an
/// unreadable root yields no tree rather than a broken one.
pub fn file_tree(path: String, readable: bool) -> (r: Option<FileTree>)
    requires
        readable ==> has_file_name(path@),
    ensures
        r is Some <==> readable,
        r matches Some(t) ==> t.0@ == root_view(path@),
{
    FileTree::new(path, readable)
}

impl FileTree {
    /// Creates a new [`FileTree`] with the root at the given path; see
    /// [`file_tree`].
    pub fn new(path: String, readable: bool) -> (r: Option<Self>)
        requires
            readable ==> has_file_name(path@),
        ensures
            r is Some <==> readable,
            r matches Some(t) ==> t.0@ == root_view(path@),
    {
        if !readable {
            return None;
        }
        Some(FileTree(Dir::new_inner(path, false, false, false, true)))
    }

    /// Asks for a message on every single click on a file.
    pub fn on_single_click(self) -> (r: Self)
        ensures
            r.0@ == (DirView { single_click: true, ..self.0@ }),
    {
        let FileTree(d) = self;
        FileTree(Dir { single_click: true, ..d })
    }

    /// Asks for a message on every double click on a file.
    pub fn on_double_click(self) -> (r: Self)
        ensures
            r.0@ == (DirView { double_click: true, ..self.0@ }),
    {
        let FileTree(d) = self;
        FileTree(Dir { double_click: true, ..d })
    }

    /// Enables or disables showing hidden entries (disabled by default).
    pub fn hidden_files(self, show_hidden: bool) -> (r: Self)
        ensures
            r.0@ == (DirView { show_hidden, ..self.0@ }),
    {
        let FileTree(d) = self;
        FileTree(Dir { show_hidden, ..d })
    }

    /// Enables or disables showing file extensions (enabled by default).
    pub fn file_extensions(self, show_extensions: bool) -> (r: Self)
        ensures
            r.0@ == (DirView { show_extensions, ..self.0@ }),
    {
        let FileTree(d) = self;
        FileTree(Dir { show_extensions, ..d })
    }

    /// The visual state a freshly mounted tree starts with.
    pub fn state(&self) -> (r: VisualState)
        ensures
            r@ == fresh_state_view(
                KeyView { kind: EntryKind::Directory, path: self.0@.path },
            ),
    {
        let r = VisualState {
            open: false,
            hovered: false,
            last_click: None,
            key: NodeKey { kind: EntryKind::Directory, path: self.0.path.clone() },
            children: Vec::new(),
        };
        proof {
            assert(r@.children =~= Seq::<StateView>::empty());
        }
        r
    }

    /// Reconciles the state tree against the currently displayed children.
    pub fn diff(&self, s: &mut VisualState)
        ensures
            final(s)@ == reconcile_spec(NodeView::Dir(self.0@), old(s)@),
    {
        self.0.diff(s)
    }

    /// Computes the tree's geometry at `(x, y)` with width `w`.
    pub fn layout(&self, s: &VisualState, x: i64, y: i64, w: i64) -> (r: LayoutNode)
        requires
            aligned(NodeView::Dir(self.0@), s@),
            node_rows(NodeView::Dir(self.0@), s@) <= crate::MAX_ROWS,
            0 <= w <= crate::COORD_LIMIT,
            -crate::COORD_LIMIT <= x,
            -crate::COORD_LIMIT <= y,
            x + crate::LINE_HEIGHT * node_rows(NodeView::Dir(self.0@), s@) <= crate::COORD_LIMIT,
            y + crate::LINE_HEIGHT * node_rows(NodeView::Dir(self.0@), s@) <= crate::COORD_LIMIT,
        ensures
            r@ == layout_view(NodeView::Dir(self.0@), s@, x as int, y as int, w as int),
    {
        self.0.layout(s, x, y, w)
    }

    /// Handles one event pass over the tree.
    pub fn update(
        &self,
        s: &mut VisualState,
        ev: UiEvent,
        cursor: Option<CursorPos>,
        now_ms: u64,
        x: i64,
        y: i64,
        w: i64,
    ) -> (o: UpdateOutcome)
        requires
            aligned(NodeView::Dir(self.0@), old(s)@),
            node_rows(NodeView::Dir(self.0@), old(s)@) <= crate::MAX_ROWS,
            0 <= w <= crate::COORD_LIMIT,
            -crate::COORD_LIMIT <= x,
            -crate::COORD_LIMIT <= y,
            x + crate::LINE_HEIGHT * node_rows(NodeView::Dir(self.0@), old(s)@)
                <= crate::COORD_LIMIT,
            y + crate::LINE_HEIGHT * node_rows(NodeView::Dir(self.0@), old(s)@)
                <= crate::COORD_LIMIT,
            cursor matches Some(c) ==> -crate::COORD_LIMIT <= c.x <= crate::COORD_LIMIT
                && -crate::COORD_LIMIT <= c.y <= crate::COORD_LIMIT,
        ensures
            final(s)@ == dir_update_spec(
                self.0@,
                old(s)@,
                ev,
                cursor,
                now_ms,
                x as int,
                y as int,
                w as int,
            ).state,
            o@ == dir_update_spec(
                self.0@,
                old(s)@,
                ev,
                cursor,
                now_ms,
                x as int,
                y as int,
                w as int,
            ).out,
    {
        self.0.update(s, ev, cursor, now_ms, x, y, w)
    }

    /// Applies the scan answering the request with the given route.
    pub fn populate_at(&mut self, route: &Vec<usize>, scan: Option<Vec<RawEntry>>)
        requires
            forall|i: int|
                0 <= i < scan_entries(scan).len() ==> valid_entry_name(
                    #[trigger] scan_entries(scan)[i].name@,
                ),
        ensures
            populated_at(
                NodeView::Dir(old(self).0@),
                NodeView::Dir(final(self).0@),
                route@.map_values(|v: usize| v as int),
                scan_entries(scan),
            ),
    {
        self.0.populate_at(route, 0, scan);
        proof {
            assert(route@.map_values(|v: usize| v as int).skip(0) =~= route@.map_values(
                |v: usize| v as int,
            ));
        }
    }

    /// Draw plan of the whole tree, clipped to the intersection of its own
    /// bounds with the viewport; a tree entirely outside the viewport draws
    /// nothing.
    pub fn draw(&self, s: &VisualState, x: i64, y: i64, w: i64, viewport: &PixelRect) -> (r: Vec<
        DrawCmd,
    >)
        requires
            aligned(NodeView::Dir(self.0@), s@),
            node_rows(NodeView::Dir(self.0@), s@) <= crate::MAX_ROWS,
            0 <= w <= crate::COORD_LIMIT,
            -crate::COORD_LIMIT <= x,
            -crate::COORD_LIMIT <= y,
            x + crate::LINE_HEIGHT * node_rows(NodeView::Dir(self.0@), s@) <= crate::COORD_LIMIT,
            y + crate::LINE_HEIGHT * node_rows(NodeView::Dir(self.0@), s@) <= crate::COORD_LIMIT,
            rect_sane(viewport@),
        ensures
            cmds_view(r@) == tree_draw_spec(
                self.0@,
                s@,
                x as int,
                y as int,
                w as int,
                viewport@,
            ),
    {
        let h = self.0.height(s);
        let bounds = PixelRect { x, y, width: w, height: h };
        if !intersects(&bounds, viewport) {
            let r: Vec<DrawCmd> = Vec::new();
            proof {
                assert(cmds_view(r@) =~= Seq::<CmdView>::empty());
            }
            return r;
        }
        let bx2 = if x + w < viewport.x + viewport.width {
            x + w
        } else {
            viewport.x + viewport.width
        };
        let by2 = if y + h < viewport.y + viewport.height {
            y + h
        } else {
            viewport.y + viewport.height
        };
        let cxl = if x > viewport.x {
            x
        } else {
            viewport.x
        };
        let cyl = if y > viewport.y {
            y
        } else {
            viewport.y
        };
        let clip = PixelRect { x: cxl, y: cyl, width: bx2 - cxl, height: by2 - cyl };
        proof {
            assert(clip@ == clip_rect(bounds@, viewport@));
        }
        self.0.draw(s, x, y, w, &clip)
    }
}

/// The intersection of two overlapping rectangles.
pub open spec fn clip_rect(a: RectView, b: RectView) -> RectView {
    let x1 = if a.x > b.x {
        a.x
    } else {
        b.x
    };
    let y1 = if a.y > b.y {
        a.y
    } else {
        b.y
    };
    let x2 = if a.x + a.width < b.x + b.width {
        a.x + a.width
    } else {
        b.x + b.width
    };
    let y2 = if a.y + a.height < b.y + b.height {
        a.y + a.height
    } else {
        b.y + b.height
    };
    RectView { x: x1, y: y1, width: x2 - x1, height: y2 - y1 }
}

/// Draw plan of a whole tree under a viewport: nothing when the tree's
/// bounds miss the viewport, and otherwise the root directory's plan under
/// the clipped viewport.
pub open spec fn tree_draw_spec(
    d: DirView,
    s: StateView,
    x: int,
    y: int,
    w: int,
    vp: RectView,
) -> Seq<CmdView> {
    let bounds = RectView {
        x,
        y,
        width: w,
        height: crate::LINE_HEIGHT * node_rows(NodeView::Dir(d), s),
    };
    if rects_intersect(bounds, vp) {
        node_draw_spec(NodeView::Dir(d), s, x, y, w, clip_rect(bounds, vp))
    } else {
        Seq::empty()
    }
}

} // verus!
