//! Draw plans: each visible node contributes a background quad, an icon and
//! a label, in document order, with anything outside the viewport skipped.
//! The host renders the commands; the plan only decides what is drawn,
//! where, and in which palette color.

use vstd::prelude::*;
use crate::dir::{
    Dir, DirView, Node, NodeView, StateView, VisualState, aligned, children_aligned,
    children_rows, lemma_child_rows_le, lemma_children_aligned_at, lemma_children_rows_mono,
    lemma_nodes_view, lemma_states_view, node_rows, node_view, nodes_view, state_at, state_view,
    states_view,
};
use crate::err::ErrorFile;
use crate::file::File;

verus! {

/// A color slot of the host theme's palette.
#[derive(PartialEq, Eq, Structural, Clone, Copy, Debug)]
pub enum PaletteColor {
    PrimaryWeak,
    SecondaryWeak,
    SecondaryText,
    DangerWeak,
    DangerStrong,
}

/// The icons the tree draws.
#[derive(PartialEq, Eq, Structural, Clone, Copy, Debug)]
pub enum IconKind {
    DirOpen,
    DirClosed,
    Document,
    Cross,
}

/// An axis-aligned rectangle in pixels.
#[derive(PartialEq, Eq, Structural, Clone, Copy, Debug)]
pub struct PixelRect {
    pub x: i64,
    pub y: i64,
    pub width: i64,
    pub height: i64,
}

/// Mathematical image of a [`PixelRect`].
pub struct RectView {
    pub x: int,
    pub y: int,
    pub width: int,
    pub height: int,
}

impl View for PixelRect {
    type V = RectView;

    open spec fn view(&self) -> RectView {
        RectView {
            x: self.x as int,
            y: self.y as int,
            width: self.width as int,
            height: self.height as int,
        }
    }
}

/// Whether two rectangles overlap; rectangles with no area overlap nothing.
pub open spec fn rects_intersect(a: RectView, b: RectView) -> bool {
    &&& a.x < b.x + b.width
    &&& b.x < a.x + a.width
    &&& a.y < b.y + b.height
    &&& b.y < a.y + a.height
}

/// A rectangle whose coordinates the drawing arithmetic can handle.
pub open spec fn rect_sane(r: RectView) -> bool {
    &&& -crate::COORD_LIMIT <= r.x <= crate::COORD_LIMIT
    &&& -crate::COORD_LIMIT <= r.y <= crate::COORD_LIMIT
    &&& 0 <= r.width <= crate::COORD_LIMIT
    &&& 0 <= r.height <= 4 * crate::COORD_LIMIT
}

/// Returns whether two rectangles overlap.
pub fn intersects(a: &PixelRect, b: &PixelRect) -> (r: bool)
    requires
        rect_sane(a@),
        rect_sane(b@),
    ensures
        r == rects_intersect(a@, b@),
{
    a.x < b.x + b.width && b.x < a.x + a.width && a.y < b.y + b.height && b.y < a.y + a.height
}

/// One drawing command for the host. A label carries the rectangle the
/// text is clipped to: the bounds of the node it belongs to.
#[derive(Debug)]
pub enum DrawCmd {
    Quad { rect: PixelRect, color: PaletteColor },
    Icon { rect: PixelRect, icon: IconKind, color: PaletteColor },
    Label { x: i64, y: i64, text: String, color: PaletteColor, clip: PixelRect },
}

/// Mathematical image of a [`DrawCmd`].
pub enum CmdView {
    Quad { rect: RectView, color: PaletteColor },
    Icon { rect: RectView, icon: IconKind, color: PaletteColor },
    Label { x: int, y: int, text: Seq<char>, color: PaletteColor, clip: RectView },
}

/// Image of a drawing command.
pub open spec fn cmd_view(c: DrawCmd) -> CmdView {
    match c {
        DrawCmd::Quad { rect, color } => CmdView::Quad { rect: rect@, color },
        DrawCmd::Icon { rect, icon, color } => CmdView::Icon { rect: rect@, icon, color },
        DrawCmd::Label { x, y, text, color, clip } => CmdView::Label {
            x: x as int,
            y: y as int,
            text: text@,
            color,
            clip: clip@,
        },
    }
}

/// Image of a command list.
pub open spec fn cmds_view(cs: Seq<DrawCmd>) -> Seq<CmdView> {
    cs.map_values(|c: DrawCmd| cmd_view(c))
}

impl View for DrawCmd {
    type V = CmdView;

    open spec fn view(&self) -> CmdView {
        cmd_view(*self)
    }
}

/// The commands a node at `(x, y)` with width `w` contributes under the
/// viewport `vp`: nothing when its bounds miss the viewport; otherwise its
/// own row (background, icon, label) and, for an open populated directory
/// with children, the children's commands followed by the vertical
/// connector line.
pub open spec fn node_draw_spec(
    n: NodeView,
    s: StateView,
    x: int,
    y: int,
    w: int,
    vp: RectView,
) -> Seq<CmdView>
    decreases n, 1int,
{
    let h = crate::LINE_HEIGHT * node_rows(n, s);
    let bounds = RectView { x, y, width: w, height: h };
    if !rects_intersect(bounds, vp) {
        Seq::empty()
    } else {
        match n {
            NodeView::Dir(d) => seq![
                CmdView::Quad {
                    rect: RectView { x, y, width: w, height: crate::LINE_HEIGHT as int },
                    color: if s.hovered {
                        PaletteColor::SecondaryWeak
                    } else {
                        PaletteColor::PrimaryWeak
                    },
                },
                CmdView::Icon {
                    rect: RectView {
                        x: x - 2,
                        y: y - 2,
                        width: crate::LINE_HEIGHT + 4,
                        height: crate::LINE_HEIGHT + 4,
                    },
                    icon: if s.open {
                        IconKind::DirOpen
                    } else {
                        IconKind::DirClosed
                    },
                    color: PaletteColor::SecondaryText,
                },
                CmdView::Label {
                    x: x + crate::LINE_HEIGHT,
                    y: y - 1,
                    text: d.name,
                    color: PaletteColor::SecondaryText,
                    clip: bounds,
                },
            ] + dir_children_draw_spec(d, s, x, y, w, h, vp),
            NodeView::File(f) => seq![
                CmdView::Quad {
                    rect: bounds,
                    color: if s.hovered {
                        PaletteColor::SecondaryWeak
                    } else {
                        PaletteColor::PrimaryWeak
                    },
                },
                CmdView::Icon {
                    rect: RectView {
                        x,
                        y,
                        width: crate::LINE_HEIGHT as int,
                        height: crate::LINE_HEIGHT as int,
                    },
                    icon: IconKind::Document,
                    color: PaletteColor::SecondaryText,
                },
                CmdView::Label {
                    x: x + crate::LINE_HEIGHT,
                    y: y - 1,
                    text: f.name,
                    color: PaletteColor::SecondaryText,
                    clip: bounds,
                },
            ],
            NodeView::Error(e) => seq![
                CmdView::Quad { rect: bounds, color: PaletteColor::DangerWeak },
                CmdView::Icon {
                    rect: RectView {
                        x,
                        y,
                        width: crate::LINE_HEIGHT as int,
                        height: crate::LINE_HEIGHT as int,
                    },
                    icon: IconKind::Cross,
                    color: PaletteColor::DangerStrong,
                },
                CmdView::Label {
                    x: x + crate::LINE_HEIGHT,
                    y,
                    text: e.name,
                    color: PaletteColor::DangerStrong,
                    clip: bounds,
                },
            ],
        }
    }
}

/// The commands of an open populated directory's non-empty child list,
/// followed by the connector line.
pub open spec fn dir_children_draw_spec(
    d: DirView,
    s: StateView,
    x: int,
    y: int,
    w: int,
    h: int,
    vp: RectView,
) -> Seq<CmdView>
    decreases d, 0int,
{
    if s.open {
        match d.children {
            Some(cs) => {
                if cs.len() > 0 {
                    children_draw_spec(
                        cs,
                        s.children,
                        0,
                        x + crate::LINE_HEIGHT,
                        y + crate::LINE_HEIGHT,
                        w,
                        vp,
                    ) + seq![
                        CmdView::Quad {
                            rect: RectView { x: x + 9, y: y + 30, width: 2, height: h - 40 },
                            color: PaletteColor::PrimaryWeak,
                        },
                    ]
                } else {
                    Seq::empty()
                }
            },
            None => Seq::empty(),
        }
    } else {
        Seq::empty()
    }
}

impl File {
    /// Draw plan of one file row: background (hover-dependent), document
    /// icon, label.
    pub fn draw(&self, s: &VisualState, x: i64, y: i64, w: i64, viewport: &PixelRect) -> (r: Vec<
        DrawCmd,
    >)
        requires
            0 <= w <= crate::COORD_LIMIT,
            -crate::COORD_LIMIT <= x,
            -crate::COORD_LIMIT <= y,
            x + crate::LINE_HEIGHT <= crate::COORD_LIMIT,
            y + crate::LINE_HEIGHT <= crate::COORD_LIMIT,
            rect_sane(viewport@),
        ensures
            cmds_view(r@) == node_draw_spec(
                NodeView::File(self@),
                s@,
                x as int,
                y as int,
                w as int,
                viewport@,
            ),
    {
        let ghost nv = NodeView::File(self@);
        let bounds = PixelRect { x, y, width: w, height: crate::LINE_HEIGHT };
        let mut r: Vec<DrawCmd> = Vec::new();
        if !intersects(&bounds, viewport) {
            proof {
                assert(cmds_view(r@) =~= node_draw_spec(nv, s@, x as int, y as int, w as int,
                    viewport@));
            }
            return r;
        }
        r.push(
            DrawCmd::Quad {
                rect: bounds,
                color: if s.hovered {
                    PaletteColor::SecondaryWeak
                } else {
                    PaletteColor::PrimaryWeak
                },
            },
        );
        r.push(
            DrawCmd::Icon {
                rect: PixelRect { x, y, width: crate::LINE_HEIGHT, height: crate::LINE_HEIGHT },
                icon: IconKind::Document,
                color: PaletteColor::SecondaryText,
            },
        );
        r.push(
            DrawCmd::Label {
                x: x + crate::LINE_HEIGHT,
                y: y - 1,
                text: self.name.clone(),
                color: PaletteColor::SecondaryText,
                clip: bounds,
            },
        );
        proof {
            assert(cmds_view(r@) =~= node_draw_spec(nv, s@, x as int, y as int, w as int,
                viewport@));
        }
        r
    }
}

impl ErrorFile {
    /// Draw plan of one error row: danger background, cross icon, label.
    pub fn draw(&self, s: &VisualState, x: i64, y: i64, w: i64, viewport: &PixelRect) -> (r: Vec<
        DrawCmd,
    >)
        requires
            0 <= w <= crate::COORD_LIMIT,
            -crate::COORD_LIMIT <= x,
            -crate::COORD_LIMIT <= y,
            x + crate::LINE_HEIGHT <= crate::COORD_LIMIT,
            y + crate::LINE_HEIGHT <= crate::COORD_LIMIT,
            rect_sane(viewport@),
        ensures
            cmds_view(r@) == node_draw_spec(
                NodeView::Error(self@),
                s@,
                x as int,
                y as int,
                w as int,
                viewport@,
            ),
    {
        let ghost nv = NodeView::Error(self@);
        let bounds = PixelRect { x, y, width: w, height: crate::LINE_HEIGHT };
        let mut r: Vec<DrawCmd> = Vec::new();
        if !intersects(&bounds, viewport) {
            proof {
                assert(cmds_view(r@) =~= node_draw_spec(nv, s@, x as int, y as int, w as int,
                    viewport@));
            }
            return r;
        }
        r.push(DrawCmd::Quad { rect: bounds, color: PaletteColor::DangerWeak });
        r.push(
            DrawCmd::Icon {
                rect: PixelRect { x, y, width: crate::LINE_HEIGHT, height: crate::LINE_HEIGHT },
                icon: IconKind::Cross,
                color: PaletteColor::DangerStrong,
            },
        );
        r.push(
            DrawCmd::Label {
                x: x + crate::LINE_HEIGHT,
                y,
                text: self.name.clone(),
                color: PaletteColor::DangerStrong,
                clip: bounds,
            },
        );
        proof {
            assert(cmds_view(r@) =~= node_draw_spec(nv, s@, x as int, y as int, w as int,
                viewport@));
        }
        r
    }
}

/// Draw plan of `n` placed at `(x, y)` with width `w` under `viewport`.
pub fn node_draw(
    n: &Node,
    s: &VisualState,
    x: i64,
    y: i64,
    w: i64,
    viewport: &PixelRect,
) -> (r: Vec<DrawCmd>)
    requires
        aligned(n@, s@),
        node_rows(n@, s@) <= crate::MAX_ROWS,
        0 <= w <= crate::COORD_LIMIT,
        -crate::COORD_LIMIT <= x,
        -crate::COORD_LIMIT <= y,
        x + crate::LINE_HEIGHT * node_rows(n@, s@) <= crate::COORD_LIMIT,
        y + crate::LINE_HEIGHT * node_rows(n@, s@) <= crate::COORD_LIMIT,
        rect_sane(viewport@),
    ensures
        cmds_view(r@) == node_draw_spec(n@, s@, x as int, y as int, w as int, viewport@),
    decreases *n, 1int,
{
    match n {
        Node::Dir(d) => d.draw(s, x, y, w, viewport),
        Node::File(f) => f.draw(s, x, y, w, viewport),
        Node::Error(e) => e.draw(s, x, y, w, viewport),
    }
}

impl Dir {
    /// Draw plan of this directory: its header row and, when open with
    /// children, the children's plans and the connector line, everything
    /// outside the viewport skipped.
    pub fn draw(&self, s: &VisualState, x: i64, y: i64, w: i64, viewport: &PixelRect) -> (r: Vec<
        DrawCmd,
    >)
        requires
            aligned(NodeView::Dir(self@), s@),
            node_rows(NodeView::Dir(self@), s@) <= crate::MAX_ROWS,
            0 <= w <= crate::COORD_LIMIT,
            -crate::COORD_LIMIT <= x,
            -crate::COORD_LIMIT <= y,
            x + crate::LINE_HEIGHT * node_rows(NodeView::Dir(self@), s@) <= crate::COORD_LIMIT,
            y + crate::LINE_HEIGHT * node_rows(NodeView::Dir(self@), s@) <= crate::COORD_LIMIT,
            rect_sane(viewport@),
        ensures
            cmds_view(r@) == node_draw_spec(
                NodeView::Dir(self@),
                s@,
                x as int,
                y as int,
                w as int,
                viewport@,
            ),
        decreases *self, 0int,
    {
        let ghost nv = NodeView::Dir(self@);
        let ghost vpv = viewport@;
        let h = self.height(s);
        let bounds = PixelRect { x, y, width: w, height: h };
        let mut r: Vec<DrawCmd> = Vec::new();
        if !intersects(&bounds, viewport) {
            proof {
                assert(cmds_view(r@) =~= node_draw_spec(nv, s@, x as int, y as int, w as int,
                    vpv));
            }
            return r;
        }
        r.push(
            DrawCmd::Quad {
                rect: PixelRect { x, y, width: w, height: crate::LINE_HEIGHT },
                color: if s.hovered {
                    PaletteColor::SecondaryWeak
                } else {
                    PaletteColor::PrimaryWeak
                },
            },
        );
        r.push(
            DrawCmd::Icon {
                rect: PixelRect {
                    x: x - 2,
                    y: y - 2,
                    width: crate::LINE_HEIGHT + 4,
                    height: crate::LINE_HEIGHT + 4,
                },
                icon: if s.open {
                    IconKind::DirOpen
                } else {
                    IconKind::DirClosed
                },
                color: PaletteColor::SecondaryText,
            },
        );
        r.push(
            DrawCmd::Label {
                x: x + crate::LINE_HEIGHT,
                y: y - 1,
                text: self.name.clone(),
                color: PaletteColor::SecondaryText,
                clip: bounds,
            },
        );
        let ghost header = cmds_view(r@);
        let mut open_children: Option<&Vec<Node>> = None;
        if s.open {
            match &self.children {
                Some(cs) => {
                    open_children = Some(cs);
                },
                None => {},
            }
        }
        match open_children {
            None => {
                proof {
                    assert(dir_children_draw_spec(self@, s@, x as int, y as int, w as int,
                        h as int, vpv) =~= Seq::<CmdView>::empty());
                    assert(cmds_view(r@) =~= node_draw_spec(nv, s@, x as int, y as int, w as int,
                        vpv));
                }
                r
            },
            Some(cs) => {
                if cs.len() == 0 {
                    proof {
                        assert(dir_children_draw_spec(self@, s@, x as int, y as int, w as int,
                            h as int, vpv) =~= Seq::<CmdView>::empty());
                        assert(cmds_view(r@) =~= node_draw_spec(nv, s@, x as int, y as int,
                            w as int, vpv));
                    }
                    return r;
                }
                let ghost csv = nodes_view(cs@);
                let ghost ssv = states_view(s.children@);
                proof {
                    lemma_nodes_view(cs@);
                    lemma_states_view(s.children@);
                }
                let ghost full = children_draw_spec(
                    csv,
                    ssv,
                    0,
                    x + crate::LINE_HEIGHT,
                    y + crate::LINE_HEIGHT,
                    w as int,
                    vpv,
                );
                let cx = x + crate::LINE_HEIGHT;
                let mut cy = y + crate::LINE_HEIGHT;
                let mut i: usize = 0;
                while i < cs.len()
                    invariant
                        decreases_to!(*self => *cs),
                        i <= cs@.len(),
                        csv == nodes_view(cs@),
                        csv.len() == cs@.len(),
                        forall|j: int| 0 <= j < cs@.len() ==> csv[j] == node_view(cs@[j]),
                        ssv.len() == s.children@.len(),
                        forall|j: int| 0 <= j < ssv.len() ==> ssv[j] == state_view(s.children@[j]),
                        ssv.len() == csv.len(),
                        children_aligned(csv, ssv, 0),
                        children_rows(csv, ssv, 0) + 1 <= crate::MAX_ROWS,
                        cx == x + crate::LINE_HEIGHT,
                        -crate::COORD_LIMIT <= x,
                        -crate::COORD_LIMIT <= y,
                        0 <= w <= crate::COORD_LIMIT,
                        rect_sane(vpv),
                        vpv == viewport@,
                        x + crate::LINE_HEIGHT * (1 + children_rows(csv, ssv, 0))
                            <= crate::COORD_LIMIT,
                        y + crate::LINE_HEIGHT * (1 + children_rows(csv, ssv, 0))
                            <= crate::COORD_LIMIT,
                        cy == y + crate::LINE_HEIGHT + crate::LINE_HEIGHT * (children_rows(
                            csv,
                            ssv,
                            0,
                        ) - children_rows(csv, ssv, i as int)),
                        full == children_draw_spec(
                            csv,
                            ssv,
                            0,
                            x + crate::LINE_HEIGHT,
                            y + crate::LINE_HEIGHT,
                            w as int,
                            vpv,
                        ),
                        cmds_view(r@) + children_draw_spec(
                            csv,
                            ssv,
                            i as int,
                            cx as int,
                            cy as int,
                            w as int,
                            vpv,
                        ) =~= header + full,
                    decreases cs@.len() - i,
                {
                    let ghost rem = children_draw_spec(
                        csv,
                        ssv,
                        i as int,
                        cx as int,
                        cy as int,
                        w as int,
                        vpv,
                    );
                    proof {
                        assert(decreases_to!(*cs => cs@[i as int]));
                        lemma_children_aligned_at(csv, ssv, 0, i as int);
                        lemma_child_rows_le(csv, ssv, 0, i as int);
                        lemma_children_rows_mono(csv, ssv, 0, i as int);
                        assert(state_at(ssv, i as int) == ssv[i as int]);
                    }
                    let child = &cs[i];
                    let st = &s.children[i];
                    let hc = crate::dir::node_height(child, st);
                    let mut cc = node_draw(child, st, cx, cy, w, viewport);
                    let ghost cc_view = cmds_view(cc@);
                    let ghost r_before = cmds_view(r@);
                    r.append(&mut cc);
                    cy = cy + hc;
                    i += 1;
                    proof {
                        let rem2 = children_draw_spec(
                            csv,
                            ssv,
                            i as int,
                            cx as int,
                            cy as int,
                            w as int,
                            vpv,
                        );
                        assert(cmds_view(r@) =~= r_before + cc_view);
                        assert(rem =~= cc_view + rem2);
                        assert(cmds_view(r@) + rem2 =~= header + full);
                    }
                }
                let ghost r_after_children = cmds_view(r@);
                let line = DrawCmd::Quad {
                    rect: PixelRect { x: x + 9, y: y + 30, width: 2, height: h - 40 },
                    color: PaletteColor::PrimaryWeak,
                };
                let ghost line_view = cmd_view(line);
                r.push(line);
                proof {
                    assert(children_draw_spec(csv, ssv, i as int, cx as int, cy as int, w as int,
                        vpv) =~= Seq::<CmdView>::empty());
                    assert(r_after_children =~= header + full);
                    assert(cmds_view(r@) =~= r_after_children + seq![line_view]);
                    assert(line_view == (CmdView::Quad {
                        rect: RectView { x: x + 9, y: y + 30, width: 2, height: h - 40 },
                        color: PaletteColor::PrimaryWeak,
                    }));
                    assert(dir_children_draw_spec(self@, s@, x as int, y as int, w as int,
                        h as int, vpv) =~= full + seq![line_view]);
                    assert(node_draw_spec(nv, s@, x as int, y as int, w as int, vpv) =~= header
                        + dir_children_draw_spec(self@, s@, x as int, y as int, w as int, h as int,
                        vpv));
                    assert(cmds_view(r@) =~= node_draw_spec(nv, s@, x as int, y as int, w as int,
                        vpv));
                }
                r
            },
        }
    }
}

/// The commands of the children from position `i` on, stacked from `y`.
pub open spec fn children_draw_spec(
    cs: Seq<NodeView>,
    ss: Seq<StateView>,
    i: int,
    x: int,
    y: int,
    w: int,
    vp: RectView,
) -> Seq<CmdView>
    decreases cs, cs.len() - i,
{
    if i < 0 || i >= cs.len() {
        Seq::empty()
    } else {
        node_draw_spec(cs[i], state_at(ss, i), x, y, w, vp) + children_draw_spec(
            cs,
            ss,
            i + 1,
            x,
            y + crate::LINE_HEIGHT * node_rows(cs[i], state_at(ss, i)),
            w,
            vp,
        )
    }
}

} // verus!
