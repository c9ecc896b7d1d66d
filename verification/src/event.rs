//! Events in and outcomes out: the pointer events the tree reacts to, the
//! messages it emits for the application, and the signals and scan requests
//! it hands back to the host.

use vstd::prelude::*;

verus! {

/// The input events the tree distinguishes: a left-button press, and
/// everything else (which can still move the hover state).
#[derive(PartialEq, Eq, Structural, Clone, Copy, Debug)]
pub enum UiEvent {
    LeftPress,
    Other,
}

/// A cursor position in pixels, in the same coordinate space as the layout.
#[derive(PartialEq, Eq, Structural, Clone, Copy, Debug)]
pub struct CursorPos {
    pub x: i64,
    pub y: i64,
}

/// A message for the application: a click on the file at the given path.
#[derive(Debug)]
pub enum TreeMessage {
    SingleClick(String),
    DoubleClick(String),
}

/// Mathematical image of a [`TreeMessage`].
pub enum MsgView {
    Single(Seq<char>),
    Double(Seq<char>),
}

/// Image of a message.
pub open spec fn msg_view(m: TreeMessage) -> MsgView {
    match m {
        TreeMessage::SingleClick(p) => MsgView::Single(p@),
        TreeMessage::DoubleClick(p) => MsgView::Double(p@),
    }
}

/// Image of a message list.
pub open spec fn msgs_view(ms: Seq<TreeMessage>) -> Seq<MsgView> {
    ms.map_values(|m: TreeMessage| msg_view(m))
}

impl View for TreeMessage {
    type V = MsgView;

    open spec fn view(&self) -> MsgView {
        msg_view(*self)
    }
}

/// A request that the host scan one directory: `route` is the position of
/// the directory in the displayed tree (one child index per level), `path`
/// is its filesystem path. The entries of the scan go back in through
/// `populate_at` with the same route.
#[derive(Debug)]
pub struct ScanRequest {
    pub route: Vec<usize>,
    pub path: String,
}

/// Mathematical image of a [`ScanRequest`].
pub struct ScanView {
    pub route: Seq<int>,
    pub path: Seq<char>,
}

/// Image of a scan request.
pub open spec fn scan_view(r: ScanRequest) -> ScanView {
    ScanView { route: r.route@.map_values(|v: usize| v as int), path: r.path@ }
}

/// Image of a scan-request list.
pub open spec fn scans_view(rs: Seq<ScanRequest>) -> Seq<ScanView> {
    rs.map_values(|r: ScanRequest| scan_view(r))
}

impl View for ScanRequest {
    type V = ScanView;

    open spec fn view(&self) -> ScanView {
        scan_view(*self)
    }
}

/// Everything one event pass hands back to the host: whether the event was
/// captured, whether layout must be recomputed, whether a redraw is wanted,
/// the messages for the application, and the directories that need a scan.
#[derive(Debug)]
pub struct UpdateOutcome {
    pub captured: bool,
    pub relayout: bool,
    pub redraw: bool,
    pub messages: Vec<TreeMessage>,
    pub scans: Vec<ScanRequest>,
}

/// Mathematical image of an [`UpdateOutcome`].
pub struct OutcomeView {
    pub captured: bool,
    pub relayout: bool,
    pub redraw: bool,
    pub messages: Seq<MsgView>,
    pub scans: Seq<ScanView>,
}

impl View for UpdateOutcome {
    type V = OutcomeView;

    open spec fn view(&self) -> OutcomeView {
        OutcomeView {
            captured: self.captured,
            relayout: self.relayout,
            redraw: self.redraw,
            messages: msgs_view(self.messages@),
            scans: scans_view(self.scans@),
        }
    }
}

/// An outcome that reports nothing: not captured, no signals, no messages,
/// no scans.
pub open spec fn quiet_outcome() -> OutcomeView {
    OutcomeView {
        captured: false,
        relayout: false,
        redraw: false,
        messages: Seq::empty(),
        scans: Seq::empty(),
    }
}

/// Returns an outcome that reports nothing.
pub fn empty_outcome() -> (o: UpdateOutcome)
    ensures
        o@ == quiet_outcome(),
{
    let o = UpdateOutcome {
        captured: false,
        relayout: false,
        redraw: false,
        messages: Vec::new(),
        scans: Vec::new(),
    };
    proof {
        assert(o@.messages =~= Seq::<MsgView>::empty());
        assert(o@.scans =~= Seq::<ScanView>::empty());
    }
    o
}

} // verus!
