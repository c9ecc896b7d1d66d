//! Directory nodes: lazy, memoized child lists, and the tree of nodes they
//! form together with file and error rows.
//!
//! A directory enumerates its children at most once: the first time it is
//! needed while the directory is open, the host performs one scan and hands
//! the raw entries to [`Dir::populate`]. The resulting child list is sorted
//! into display order and then never replaced for the lifetime of the node;
//! a directory that could not be read is populated as empty.

use vstd::prelude::*;
use vstd::relations::sorted_by;
use crate::click::ClickRecord;
use crate::err::{ErrorFile, ErrorView};
use crate::event::{
    CursorPos, MsgView, OutcomeView, ScanRequest, ScanView, TreeMessage, UiEvent, UpdateOutcome,
    msgs_view, scan_view, scans_view, quiet_outcome,
};
use crate::file::{File, FileView, file_display_name, file_update_outcome, file_update_state};
use crate::listing::{EntryKind, RawEntry, entry_le, visible};
use crate::paths::{
    child_path, file_name_of, has_file_name, file_name, lemma_child_path_name, valid_entry_name,
};

verus! {

/// A directory node. `children` is the memoized child list: `None` before
/// the first scan, and afterwards the sorted display list, never replaced.
#[derive(Debug)]
pub struct Dir {
    pub path: String,
    pub name: String,
    pub children: Option<Vec<Node>>,
    pub show_hidden: bool,
    pub show_extensions: bool,
    pub single_click: bool,
    pub double_click: bool,
}

/// One node of the displayed hierarchy.
#[derive(Debug)]
pub enum Node {
    Dir(Dir),
    File(File),
    Error(ErrorFile),
}

/// Mathematical image of a [`Dir`].
pub struct DirView {
    pub path: Seq<char>,
    pub name: Seq<char>,
    pub children: Option<Seq<NodeView>>,
    pub show_hidden: bool,
    pub show_extensions: bool,
    pub single_click: bool,
    pub double_click: bool,
}

/// Mathematical image of a [`Node`].
pub enum NodeView {
    Dir(DirView),
    File(FileView),
    Error(ErrorView),
}

/// Image of a directory node.
pub open spec fn dir_view(d: Dir) -> DirView
    decreases d,
{
    DirView {
        path: d.path@,
        name: d.name@,
        children: match d.children {
            Some(cs) => Some(nodes_view(cs@)),
            None => None,
        },
        show_hidden: d.show_hidden,
        show_extensions: d.show_extensions,
        single_click: d.single_click,
        double_click: d.double_click,
    }
}

/// Image of a node.
pub open spec fn node_view(n: Node) -> NodeView
    decreases n,
{
    match n {
        Node::Dir(d) => NodeView::Dir(dir_view(d)),
        Node::File(f) => NodeView::File(f@),
        Node::Error(e) => NodeView::Error(e@),
    }
}

/// Image of a sequence of nodes.
pub open spec fn nodes_view(cs: Seq<Node>) -> Seq<NodeView>
    decreases cs,
{
    if cs.len() == 0 {
        Seq::empty()
    } else {
        seq![node_view(cs[0])] + nodes_view(cs.drop_first())
    }
}

pub proof fn lemma_nodes_view(cs: Seq<Node>)
    ensures
        nodes_view(cs).len() == cs.len(),
        forall|i: int| 0 <= i < cs.len() ==> nodes_view(cs)[i] == node_view(cs[i]),
    decreases cs,
{
    if cs.len() > 0 {
        lemma_nodes_view(cs.drop_first());
        assert(forall|i: int|
            1 <= i < cs.len() ==> nodes_view(cs)[i] == nodes_view(cs.drop_first())[i - 1]);
        assert(forall|i: int| 1 <= i < cs.len() ==> cs.drop_first()[i - 1] == cs[i]);
    }
}

impl View for Node {
    type V = NodeView;

    open spec fn view(&self) -> NodeView {
        node_view(*self)
    }
}

impl View for Dir {
    type V = DirView;

    open spec fn view(&self) -> DirView {
        dir_view(*self)
    }
}

/// The path of a node.
pub open spec fn node_path(n: NodeView) -> Seq<char> {
    match n {
        NodeView::Dir(d) => d.path,
        NodeView::File(f) => f.path,
        NodeView::Error(e) => e.path,
    }
}

/// The kind of a node, as it appears in a scan.
pub open spec fn node_kind(n: NodeView) -> EntryKind {
    match n {
        NodeView::Dir(_) => EntryKind::Directory,
        NodeView::File(_) => EntryKind::RegularFile,
        NodeView::Error(_) => EntryKind::Other,
    }
}

/// The children a directory presents: its memoized list when it is open and
/// populated, and nothing otherwise. Closed directories present no children
/// to the layout, event and draw passes.
pub open spec fn display_children(d: DirView, open: bool) -> Seq<NodeView> {
    if open {
        match d.children {
            Some(cs) => cs,
            None => Seq::empty(),
        }
    } else {
        Seq::empty()
    }
}

/// How one scanned entry turns into a child node of `d`: the child's path
/// extends the parent's, its configuration is inherited, its kind follows
/// the entry's kind, and a fresh directory child is unpopulated. An entry
/// that is neither a regular file nor a directory becomes an error row.
pub open spec fn matches_entry(n: NodeView, e: RawEntry, d: DirView) -> bool {
    &&& node_path(n) == d.path + seq!['/'] + e.name@
    &&& match e.kind {
        EntryKind::Directory => n matches NodeView::Dir(c) && {
            &&& c.name == e.name@
            &&& c.children is None
            &&& c.show_hidden == d.show_hidden
            &&& c.show_extensions == d.show_extensions
            &&& c.single_click == d.single_click
            &&& c.double_click == d.double_click
        },
        EntryKind::RegularFile => n matches NodeView::File(f) && {
            &&& f.name == file_display_name(d.path + seq!['/'] + e.name@, d.show_extensions)
            &&& f.single_click == d.single_click
            &&& f.double_click == d.double_click
        },
        EntryKind::Other => n matches NodeView::Error(er) && er.name == e.name@,
    }
}

/// The memoized child list `cs` is what one scan of `d` yields: the visible
/// entries of the scan, in display order, each turned into a node.
pub open spec fn built_from(cs: Seq<NodeView>, d: DirView, scan: Seq<RawEntry>) -> bool {
    exists|es: Seq<RawEntry>|
        {
            &&& es.to_multiset() == scan.filter(
                |e: RawEntry| visible(e, d.show_hidden),
            ).to_multiset()
            &&& sorted_by(es, |a: RawEntry, b: RawEntry| entry_le(a, b))
            &&& cs.len() == es.len()
            &&& forall|i: int| 0 <= i < cs.len() ==> #[trigger] matches_entry(cs[i], es[i], d)
        }
}

/// The entries of a scan, with a failed scan reading as empty.
pub open spec fn scan_entries(scan: Option<Vec<RawEntry>>) -> Seq<RawEntry> {
    match scan {
        Some(v) => v@,
        None => Seq::empty(),
    }
}

impl Dir {
    /// Builds an unpopulated directory node for `path`; its display name is
    /// the path's final component.
    pub fn new_inner(
        path: String,
        single_click: bool,
        double_click: bool,
        show_hidden: bool,
        show_extensions: bool,
    ) -> (r: Self)
        requires
            has_file_name(path@),
        ensures
            r@.path == path@,
            r@.name == file_name_of(path@),
            r@.children is None,
            r@.show_hidden == show_hidden,
            r@.show_extensions == show_extensions,
            r@.single_click == single_click,
            r@.double_click == double_click,
    {
        let name = file_name(path.as_str());
        Dir {
            path,
            name,
            children: None,
            show_hidden,
            show_extensions,
            single_click,
            double_click,
        }
    }

    /// Installs the memoized child list from the one scan of this
    /// directory. A failed scan (`None`) populates the directory as empty;
    /// either way the directory counts as populated from here on and is
    /// never scanned again.
    pub fn populate(&mut self, scan: Option<Vec<RawEntry>>)
        requires
            old(self)@.children is None,
            forall|i: int|
                0 <= i < scan_entries(scan).len() ==> valid_entry_name(
                    #[trigger] scan_entries(scan)[i].name@,
                ),
        ensures
            final(self)@.path == old(self)@.path,
            final(self)@.name == old(self)@.name,
            final(self)@.show_hidden == old(self)@.show_hidden,
            final(self)@.show_extensions == old(self)@.show_extensions,
            final(self)@.single_click == old(self)@.single_click,
            final(self)@.double_click == old(self)@.double_click,
            final(self)@.children matches Some(cs) && built_from(
                cs,
                old(self)@,
                scan_entries(scan),
            ),
    {
        let ghost scan_seq = scan_entries(scan);
        let entries = match scan {
            Some(v) => v,
            None => Vec::new(),
        };
        let ghost dv = self@;
        let kept = crate::listing::filter_visible(entries, self.show_hidden);
        proof {
            broadcast use Seq::lemma_filter_contains_rev;
            broadcast use vstd::seq_lib::group_to_multiset_ensures;

            assert forall|i: int| 0 <= i < kept@.len() implies valid_entry_name(
                #[trigger] kept@[i].name@,
            ) by {
                assert(kept@.contains(kept@[i]));
                assert(scan_seq.contains(kept@[i]));
            }
        }
        let ghost kept_seq = kept@;
        let sorted = crate::listing::sort_entries(kept);
        proof {
            broadcast use vstd::seq_lib::group_to_multiset_ensures;

            assert forall|i: int| 0 <= i < sorted@.len() implies valid_entry_name(
                #[trigger] sorted@[i].name@,
            ) by {
                assert(sorted@.contains(sorted@[i]));
                assert(sorted@.to_multiset().count(sorted@[i]) > 0);
                assert(kept_seq.to_multiset().count(sorted@[i]) > 0);
                assert(kept_seq.contains(sorted@[i]));
            }
        }
        let ghost es = sorted@;
        let nodes = materialize(sorted, &*self);
        proof {
            lemma_nodes_view(nodes@);
        }
        self.children = Some(nodes);
        proof {
            let cs = nodes_view(nodes@);
            assert((|e: RawEntry| visible(e, self.show_hidden)) =~= (|e: RawEntry| visible(
                e,
                dv.show_hidden,
            )));
            assert(es.to_multiset() == scan_seq.filter(
                |e: RawEntry| visible(e, dv.show_hidden),
            ).to_multiset());
            assert(forall|i: int|
                0 <= i < cs.len() ==> #[trigger] matches_entry(cs[i], es[i], dv));
            assert(built_from(cs, dv, scan_seq));
        }
    }

    /// Returns the children this directory presents for the given open
    /// state: a copy of the memoized list when open and populated, and an
    /// empty list otherwise.
    pub fn children_for_display(&self, is_open: bool) -> (r: Vec<Node>)
        ensures
            nodes_view(r@) == display_children(self@, is_open),
    {
        if is_open {
            match &self.children {
                Some(cs) => {
                    let r = duplicate_nodes(cs);
                    proof {
                        assert(nodes_view(r@) == nodes_view(cs@));
                    }
                    r
                },
                None => Vec::new(),
            }
        } else {
            Vec::new()
        }
    }
}

/// Turns sorted, visible scan entries into child nodes of the directory
/// `d`, inheriting its configuration.
fn materialize(entries: Vec<RawEntry>, d: &Dir) -> (r: Vec<Node>)
    requires
        forall|i: int| 0 <= i < entries@.len() ==> valid_entry_name(#[trigger] entries@[i].name@),
    ensures
        r@.len() == entries@.len(),
        forall|i: int|
            0 <= i < r@.len() ==> #[trigger] matches_entry(node_view(r@[i]), entries@[i], d@),
{
    let ghost orig = entries@;
    let ghost dv = d@;
    let mut rest = entries;
    let mut r: Vec<Node> = Vec::new();
    while rest.len() > 0
        invariant
            orig =~= orig.subrange(0, orig.len() - rest.len()) + rest@,
            r@.len() == orig.len() - rest.len(),
            forall|i: int|
                0 <= i < r@.len() ==> #[trigger] matches_entry(node_view(r@[i]), orig[i], dv),
            forall|i: int| 0 <= i < orig.len() ==> valid_entry_name(#[trigger] orig[i].name@),
            dv == d@,
        decreases rest.len(),
    {
        let ghost k = orig.len() - rest.len();
        let e = rest.remove(0);
        proof {
            assert(orig[k] == e);
            lemma_child_path_name(d.path@, e.name@);
        }
        let p = child_path(d.path.as_str(), e.name.as_str());
        let node = match e.kind {
            EntryKind::Directory => Node::Dir(
                Dir::new_inner(p, d.single_click, d.double_click, d.show_hidden,
                    d.show_extensions),
            ),
            EntryKind::RegularFile => Node::File(
                File::new_inner(p, d.single_click, d.double_click, d.show_extensions),
            ),
            EntryKind::Other => Node::Error(ErrorFile::new_inner(p)),
        };
        r.push(node);
        proof {
            assert(matches_entry(node_view(r@[k]), orig[k], dv));
            assert(orig =~= orig.subrange(0, k + 1) + rest@);
        }
    }
    r
}

/// The identity a visual state is keyed by: the kind and path of the node
/// it belongs to. State is reused across passes only for a child that sits
/// at the same position and has the same key.
#[derive(Debug)]
pub struct NodeKey {
    pub kind: EntryKind,
    pub path: String,
}

/// Mathematical image of a [`NodeKey`].
pub struct KeyView {
    pub kind: EntryKind,
    pub path: Seq<char>,
}

impl View for NodeKey {
    type V = KeyView;

    open spec fn view(&self) -> KeyView {
        KeyView { kind: self.kind, path: self.path@ }
    }
}

/// Per-mounted-node visual state: the open flag of a directory, the hover
/// flag, the last accepted click of a file row, and the states of the
/// currently displayed children. It is ephemeral and lives beside the tree,
/// not in it.
#[derive(Debug)]
pub struct VisualState {
    pub open: bool,
    pub hovered: bool,
    pub last_click: Option<ClickRecord>,
    pub key: NodeKey,
    pub children: Vec<VisualState>,
}

/// Mathematical image of a [`VisualState`].
pub struct StateView {
    pub open: bool,
    pub hovered: bool,
    pub last_click: Option<ClickRecord>,
    pub key: KeyView,
    pub children: Seq<StateView>,
}

/// Image of a visual state.
pub open spec fn state_view(s: VisualState) -> StateView
    decreases s,
{
    StateView {
        open: s.open,
        hovered: s.hovered,
        last_click: s.last_click,
        key: s.key@,
        children: states_view(s.children@),
    }
}

/// Image of a sequence of visual states.
pub open spec fn states_view(ss: Seq<VisualState>) -> Seq<StateView>
    decreases ss,
{
    if ss.len() == 0 {
        Seq::empty()
    } else {
        seq![state_view(ss[0])] + states_view(ss.drop_first())
    }
}

pub proof fn lemma_states_view(ss: Seq<VisualState>)
    ensures
        states_view(ss).len() == ss.len(),
        forall|i: int| 0 <= i < ss.len() ==> states_view(ss)[i] == state_view(ss[i]),
    decreases ss,
{
    if ss.len() > 0 {
        lemma_states_view(ss.drop_first());
        assert(forall|i: int|
            1 <= i < ss.len() ==> states_view(ss)[i] == states_view(ss.drop_first())[i - 1]);
        assert(forall|i: int| 1 <= i < ss.len() ==> ss.drop_first()[i - 1] == ss[i]);
    }
}

impl View for VisualState {
    type V = StateView;

    open spec fn view(&self) -> StateView {
        state_view(*self)
    }
}

/// The key of a node.
pub open spec fn key_of(n: NodeView) -> KeyView {
    KeyView { kind: node_kind(n), path: node_path(n) }
}

/// The state a node starts with: closed, not hovered, never clicked.
pub open spec fn fresh_state_view(k: KeyView) -> StateView {
    StateView { open: false, hovered: false, last_click: None, key: k, children: Seq::empty() }
}

/// Returns the key of a node.
pub fn key_for(n: &Node) -> (r: NodeKey)
    ensures
        r@ == key_of(n@),
{
    match n {
        Node::Dir(d) => NodeKey { kind: EntryKind::Directory, path: d.path.clone() },
        Node::File(f) => NodeKey { kind: EntryKind::RegularFile, path: f.path.clone() },
        Node::Error(e) => NodeKey { kind: EntryKind::Other, path: e.path.clone() },
    }
}

impl VisualState {
    /// The default state for a freshly mounted node.
    pub fn new_for(n: &Node) -> (r: VisualState)
        ensures
            r@ == fresh_state_view(key_of(n@)),
    {
        let r = VisualState {
            open: false,
            hovered: false,
            last_click: None,
            key: key_for(n),
            children: Vec::new(),
        };
        proof {
            assert(r@.children =~= Seq::<StateView>::empty());
        }
        r
    }
}

/// The state tree `s` lines up with the node tree `n`: wherever a directory
/// is open and populated, there is one child state per displayed child,
/// recursively. The layout and event passes require this; reconciliation
/// establishes it.
pub open spec fn aligned(n: NodeView, s: StateView) -> bool
    decreases n, 0int,
{
    match n {
        NodeView::Dir(d) => match d.children {
            Some(cs) => s.open ==> {
                &&& s.children.len() == cs.len()
                &&& children_aligned(cs, s.children, 0)
            },
            None => true,
        },
        NodeView::File(_) => true,
        NodeView::Error(_) => true,
    }
}

pub open spec fn children_aligned(cs: Seq<NodeView>, ss: Seq<StateView>, i: int) -> bool
    decreases cs, cs.len() - i,
{
    if i < 0 || i >= cs.len() {
        true
    } else {
        (i < ss.len() && aligned(cs[i], ss[i])) && children_aligned(cs, ss, i + 1)
    }
}

pub proof fn lemma_children_aligned_at(cs: Seq<NodeView>, ss: Seq<StateView>, i: int, j: int)
    requires
        children_aligned(cs, ss, i),
        i <= j < cs.len(),
        0 <= i,
    ensures
        j < ss.len(),
        aligned(cs[j], ss[j]),
    decreases j - i,
{
    if i < j {
        lemma_children_aligned_at(cs, ss, i + 1, j);
    }
}

/// What reconciliation leaves in place of `s` for the node `n`: the node's
/// own state is kept; the child states are rebuilt against the currently
/// displayed children, reusing the old state at each position exactly when
/// its key matches that child, and starting fresh otherwise.
pub open spec fn reconcile_spec(n: NodeView, s: StateView) -> StateView
    decreases n, 1int,
{
    match n {
        NodeView::Dir(d) => {
            if s.open {
                match d.children {
                    Some(cs) => StateView { children: reconcile_children(cs, s.children, 0), ..s },
                    None => StateView { children: Seq::empty(), ..s },
                }
            } else {
                StateView { children: Seq::empty(), ..s }
            }
        },
        NodeView::File(_) => StateView { children: Seq::empty(), ..s },
        NodeView::Error(_) => StateView { children: Seq::empty(), ..s },
    }
}

pub open spec fn reconcile_children(cs: Seq<NodeView>, old: Seq<StateView>, i: int) -> Seq<
    StateView,
>
    decreases cs, cs.len() - i,
{
    if i < 0 || i >= cs.len() {
        Seq::empty()
    } else {
        let prev = if i < old.len() && old[i].key == key_of(cs[i]) {
            old[i]
        } else {
            fresh_state_view(key_of(cs[i]))
        };
        seq![reconcile_spec(cs[i], prev)] + reconcile_children(cs, old, i + 1)
    }
}

pub proof fn lemma_reconcile_children_len(cs: Seq<NodeView>, old: Seq<StateView>, i: int)
    requires
        0 <= i <= cs.len(),
    ensures
        reconcile_children(cs, old, i).len() == cs.len() - i,
    decreases cs.len() - i,
{
    if i < cs.len() {
        lemma_reconcile_children_len(cs, old, i + 1);
    }
}

/// All children from position `i` on are aligned pointwise.
pub proof fn lemma_children_aligned_pointwise(cs: Seq<NodeView>, ss: Seq<StateView>, i: int)
    requires
        0 <= i <= cs.len(),
        ss.len() == cs.len(),
        forall|j: int| i <= j < cs.len() ==> aligned(#[trigger] cs[j], ss[j]),
    ensures
        children_aligned(cs, ss, i),
    decreases cs.len() - i,
{
    if i < cs.len() {
        lemma_children_aligned_pointwise(cs, ss, i + 1);
    }
}

/// Reconciliation aligns the state tree with the node tree.
pub proof fn lemma_reconcile_aligned(n: NodeView, s: StateView)
    ensures
        aligned(n, reconcile_spec(n, s)),
    decreases n, 2int,
{
    match n {
        NodeView::Dir(d) => {
            if s.open {
                match d.children {
                    Some(cs) => {
                        let ss = reconcile_children(cs, s.children, 0);
                        lemma_reconcile_children_len(cs, s.children, 0);
                        assert forall|j: int| 0 <= j < cs.len() implies aligned(
                            #[trigger] cs[j],
                            ss[j],
                        ) by {
                            lemma_reconcile_children_index(cs, s.children, 0, j);
                            let prev = if j < s.children.len() && s.children[j].key == key_of(
                                cs[j],
                            ) {
                                s.children[j]
                            } else {
                                fresh_state_view(key_of(cs[j]))
                            };
                            lemma_reconcile_aligned(cs[j], prev);
                        }
                        lemma_children_aligned_pointwise(cs, ss, 0);
                    },
                    None => {},
                }
            }
        },
        NodeView::File(_) => {},
        NodeView::Error(_) => {},
    }
}

/// Reconciles the state tree `s` against the node tree `n`.
pub fn reconcile(n: &Node, s: &mut VisualState)
    ensures
        final(s)@ == reconcile_spec(n@, old(s)@),
    decreases *n, 1int,
{
    match n {
        Node::Dir(d) => d.diff(s),
        _ => {
            s.children = Vec::new();
            proof {
                assert(final(s)@.children =~= Seq::<StateView>::empty());
                assert(final(s)@ == reconcile_spec(n@, old(s)@));
            }
        },
    }
}

impl Dir {
    /// Reconciles the previously tracked child states against this
    /// directory's currently displayed children, so that state is kept for
    /// children that persist at their position and dropped otherwise. Runs
    /// before layout, which reads each child's open flag.
    pub fn diff(&self, s: &mut VisualState)
        ensures
            final(s)@ == reconcile_spec(NodeView::Dir(self@), old(s)@),
        decreases *self, 0int,
    {
        let ghost nv = NodeView::Dir(self@);
        if !s.open {
            s.children = Vec::new();
            proof {
                assert(final(s)@.children =~= Seq::<StateView>::empty());
                assert(final(s)@ == reconcile_spec(nv, old(s)@));
            }
            return ;
        }
        match &self.children {
                Some(cs) => {
                    let ghost csv = nodes_view(cs@);
                    let ghost old_states = states_view(s.children@);
                    proof {
                        lemma_nodes_view(cs@);
                        lemma_states_view(s.children@);
                        lemma_reconcile_children_len(csv, old_states, 0);
                    }
                    let mut old_children: Vec<VisualState> = Vec::new();
                    core::mem::swap(&mut old_children, &mut s.children);
                    let mut new_children: Vec<VisualState> = Vec::new();
                    let mut i: usize = 0;
                    while i < cs.len()
                        invariant
                            decreases_to!(*self => *cs),
                            i <= cs@.len(),
                            csv.len() == cs@.len(),
                            forall|j: int| 0 <= j < cs@.len() ==> csv[j] == node_view(cs@[j]),
                            old_states.len() >= i ==> old_children@.len() == old_states.len() - i,
                            old_states.len() < i ==> old_children@.len() == 0,
                            forall|j: int|
                                0 <= j < old_children@.len() ==> state_view(
                                    #[trigger] old_children@[j],
                                ) == old_states[j + i],
                            new_children@.len() == i,
                            forall|j: int|
                                0 <= j < i ==> state_view(#[trigger] new_children@[j])
                                    == reconcile_children(csv, old_states, 0)[j],
                            reconcile_children(csv, old_states, 0).len() == csv.len(),
                        decreases cs@.len() - i,
                    {
                        proof {
                            assert(decreases_to!(*cs => cs@[i as int]));
                            lemma_reconcile_children_index(csv, old_states, 0, i as int);
                        }
                        let child = &cs[i];
                        let mut st = if old_children.len() > 0 {
                            let cand = old_children.remove(0);
                            if key_matches(&cand, child) {
                                cand
                            } else {
                                VisualState::new_for(child)
                            }
                        } else {
                            VisualState::new_for(child)
                        };
                        reconcile(child, &mut st);
                        new_children.push(st);
                        i += 1;
                    }
                    s.children = new_children;
                    proof {
                        lemma_states_view(s.children@);
                        assert(states_view(s.children@) =~= reconcile_children(
                            csv,
                            old_states,
                            0,
                        ));
                        assert(final(s)@ == reconcile_spec(nv, old(s)@));
                    }
                },
                None => {
                    s.children = Vec::new();
                    proof {
                        assert(final(s)@.children =~= Seq::<StateView>::empty());
                        assert(final(s)@ == reconcile_spec(nv, old(s)@));
                    }
                },
        }
    }
}

/// One position of `reconcile_children`, unfolded.
pub proof fn lemma_reconcile_children_index(
    cs: Seq<NodeView>,
    old: Seq<StateView>,
    i: int,
    j: int,
)
    requires
        0 <= i <= j < cs.len(),
    ensures
        reconcile_children(cs, old, i)[j - i] == reconcile_spec(
            cs[j],
            if j < old.len() && old[j].key == key_of(cs[j]) {
                old[j]
            } else {
                fresh_state_view(key_of(cs[j]))
            },
        ),
    decreases j - i,
{
    lemma_reconcile_children_len(cs, old, i + 1);
    if i < j {
        lemma_reconcile_children_index(cs, old, i + 1, j);
    }
}

/// Whether the state's key matches the node.
pub fn key_matches(s: &VisualState, n: &Node) -> (r: bool)
    ensures
        r == (s@.key == key_of(n@)),
{
    let same_kind = match (&s.key.kind, n) {
        (EntryKind::Directory, Node::Dir(_)) => true,
        (EntryKind::RegularFile, Node::File(_)) => true,
        (EntryKind::Other, Node::Error(_)) => true,
        _ => false,
    };
    if !same_kind {
        proof {
            assert(s@.key.kind != key_of(n@).kind);
        }
        return false;
    }
    let same_path = match n {
        Node::Dir(d) => s.key.path == d.path,
        Node::File(f) => s.key.path == f.path,
        Node::Error(e) => s.key.path == e.path,
    };
    proof {
        if same_path && same_kind {
            assert(s@.key =~= key_of(n@));
        }
    }
    same_path
}

/// The state used for a child position that has no recorded state; layout
/// treats it as closed.
pub open spec fn state_at(ss: Seq<StateView>, i: int) -> StateView {
    if 0 <= i < ss.len() {
        ss[i]
    } else {
        fresh_state_view(arbitrary())
    }
}

/// Number of rows a node occupies: one for its own row, plus, for an open
/// populated directory, the rows of its children. Contents never affect a
/// closed directory, which always occupies exactly one row.
pub open spec fn node_rows(n: NodeView, s: StateView) -> nat
    decreases n, 0int,
{
    match n {
        NodeView::Dir(d) => {
            if s.open {
                match d.children {
                    Some(cs) => (1 + children_rows(cs, s.children, 0)) as nat,
                    None => 1,
                }
            } else {
                1
            }
        },
        NodeView::File(_) => 1,
        NodeView::Error(_) => 1,
    }
}

/// Total rows of the children from position `i` on.
pub open spec fn children_rows(cs: Seq<NodeView>, ss: Seq<StateView>, i: int) -> nat
    decreases cs, cs.len() - i,
{
    if i < 0 || i >= cs.len() {
        0
    } else {
        (node_rows(cs[i], state_at(ss, i)) + children_rows(cs, ss, i + 1)) as nat
    }
}

/// Later suffixes of the child list never have more rows.
pub proof fn lemma_children_rows_mono(cs: Seq<NodeView>, ss: Seq<StateView>, i: int, j: int)
    requires
        0 <= i <= j <= cs.len(),
    ensures
        children_rows(cs, ss, j) <= children_rows(cs, ss, i),
    decreases j - i,
{
    if i < j {
        lemma_children_rows_mono(cs, ss, i + 1, j);
    }
}

/// Each child's rows are part of the suffix total.
pub proof fn lemma_child_rows_le(cs: Seq<NodeView>, ss: Seq<StateView>, i: int, j: int)
    requires
        0 <= i <= j < cs.len(),
    ensures
        node_rows(cs[j], state_at(ss, j)) <= children_rows(cs, ss, i),
{
    lemma_children_rows_mono(cs, ss, i, j);
}

/// A closed directory reports exactly one row, independent of its contents.
pub proof fn lemma_closed_dir_one_row(d: DirView, s: StateView)
    requires
        !s.open,
    ensures
        node_rows(NodeView::Dir(d), s) == 1,
{
}

/// Returns the pixel height of a node: one row of `LINE_HEIGHT` pixels for
/// its own row plus the heights of its displayed children.
pub fn node_height(n: &Node, s: &VisualState) -> (h: i64)
    requires
        aligned(n@, s@),
        node_rows(n@, s@) <= crate::MAX_ROWS,
    ensures
        h == crate::LINE_HEIGHT * node_rows(n@, s@),
    decreases *n, 1int,
{
    match n {
        Node::Dir(d) => d.height(s),
        Node::File(_) => crate::LINE_HEIGHT,
        Node::Error(_) => crate::LINE_HEIGHT,
    }
}

impl Dir {
    /// Returns the pixel height of this directory: one row when closed, one
    /// row plus the heights of its children when open.
    pub fn height(&self, s: &VisualState) -> (h: i64)
        requires
            aligned(NodeView::Dir(self@), s@),
            node_rows(NodeView::Dir(self@), s@) <= crate::MAX_ROWS,
        ensures
            h == crate::LINE_HEIGHT * node_rows(NodeView::Dir(self@), s@),
        decreases *self, 0int,
    {
        if !s.open {
            return crate::LINE_HEIGHT;
        }
        match &self.children {
            Some(cs) => {
                let ghost csv = nodes_view(cs@);
                let ghost ssv = states_view(s.children@);
                proof {
                    lemma_nodes_view(cs@);
                    lemma_states_view(s.children@);
                }
                let mut h: i64 = crate::LINE_HEIGHT;
                let mut i: usize = 0;
                while i < cs.len()
                    invariant
                        decreases_to!(*self => *cs),
                        i <= cs@.len(),
                        csv == nodes_view(cs@),
                        csv.len() == cs@.len(),
                        forall|j: int| 0 <= j < cs@.len() ==> csv[j] == node_view(cs@[j]),
                        ssv.len() == s.children@.len(),
                        forall|j: int| 0 <= j < ssv.len() ==> ssv[j] == state_view(s.children@[j]),
                        ssv.len() == csv.len(),
                        children_aligned(csv, ssv, 0),
                        children_rows(csv, ssv, 0) + 1 <= crate::MAX_ROWS,
                        h == crate::LINE_HEIGHT * (1 + children_rows(csv, ssv, 0) - children_rows(
                            csv,
                            ssv,
                            i as int,
                        )),
                    decreases cs@.len() - i,
                {
                    proof {
                        assert(decreases_to!(*cs => cs@[i as int]));
                        lemma_children_aligned_at(csv, ssv, 0, i as int);
                        lemma_child_rows_le(csv, ssv, 0, i as int);
                        lemma_children_rows_mono(csv, ssv, 0, i as int);
                    }
                    let hc = node_height(&cs[i], &s.children[i]);
                    h = h + hc;
                    i += 1;
                }
                h
            },
            None => crate::LINE_HEIGHT,
        }
    }
}

/// Computed geometry of one node: its bounds in pixels and the geometry of
/// its displayed children. A node fills the width it is offered; children
/// are indented by one row height and stacked top to bottom with no gap.
#[derive(Debug)]
pub struct LayoutNode {
    pub x: i64,
    pub y: i64,
    pub width: i64,
    pub height: i64,
    pub children: Vec<LayoutNode>,
}

/// Mathematical image of a [`LayoutNode`].
pub struct LayoutView {
    pub x: int,
    pub y: int,
    pub width: int,
    pub height: int,
    pub children: Seq<LayoutView>,
}

/// Image of a layout node.
pub open spec fn layout_node_view(l: LayoutNode) -> LayoutView
    decreases l,
{
    LayoutView {
        x: l.x as int,
        y: l.y as int,
        width: l.width as int,
        height: l.height as int,
        children: layouts_view(l.children@),
    }
}

/// Image of a sequence of layout nodes.
pub open spec fn layouts_view(ls: Seq<LayoutNode>) -> Seq<LayoutView>
    decreases ls,
{
    if ls.len() == 0 {
        Seq::empty()
    } else {
        seq![layout_node_view(ls[0])] + layouts_view(ls.drop_first())
    }
}

pub proof fn lemma_layouts_view(ls: Seq<LayoutNode>)
    ensures
        layouts_view(ls).len() == ls.len(),
        forall|i: int| 0 <= i < ls.len() ==> layouts_view(ls)[i] == layout_node_view(ls[i]),
    decreases ls,
{
    if ls.len() > 0 {
        lemma_layouts_view(ls.drop_first());
        assert(forall|i: int|
            1 <= i < ls.len() ==> layouts_view(ls)[i] == layouts_view(ls.drop_first())[i - 1]);
        assert(forall|i: int| 1 <= i < ls.len() ==> ls.drop_first()[i - 1] == ls[i]);
    }
}

impl View for LayoutNode {
    type V = LayoutView;

    open spec fn view(&self) -> LayoutView {
        layout_node_view(*self)
    }
}

/// The geometry of a node placed at `(x, y)` with width `w`: its height is
/// `LINE_HEIGHT` rows, and an open directory's children start one row down
/// and one row in.
pub open spec fn layout_view(n: NodeView, s: StateView, x: int, y: int, w: int) -> LayoutView
    decreases n, 0int,
{
    LayoutView {
        x,
        y,
        width: w,
        height: crate::LINE_HEIGHT * node_rows(n, s),
        children: match n {
            NodeView::Dir(d) => {
                if s.open {
                    match d.children {
                        Some(cs) => child_layouts(
                            cs,
                            s.children,
                            0,
                            x + crate::LINE_HEIGHT,
                            y + crate::LINE_HEIGHT,
                            w,
                        ),
                        None => Seq::empty(),
                    }
                } else {
                    Seq::empty()
                }
            },
            NodeView::File(_) => Seq::empty(),
            NodeView::Error(_) => Seq::empty(),
        },
    }
}

/// Geometry of the children from position `i` on, stacked from `y` down.
pub open spec fn child_layouts(
    cs: Seq<NodeView>,
    ss: Seq<StateView>,
    i: int,
    x: int,
    y: int,
    w: int,
) -> Seq<LayoutView>
    decreases cs, cs.len() - i,
{
    if i < 0 || i >= cs.len() {
        Seq::empty()
    } else {
        seq![layout_view(cs[i], state_at(ss, i), x, y, w)] + child_layouts(
            cs,
            ss,
            i + 1,
            x,
            y + crate::LINE_HEIGHT * node_rows(cs[i], state_at(ss, i)),
            w,
        )
    }
}

/// Computes the geometry of `n` and its visible descendants at `(x, y)`
/// with width `w`.
pub fn node_layout(n: &Node, s: &VisualState, x: i64, y: i64, w: i64) -> (r: LayoutNode)
    requires
        aligned(n@, s@),
        node_rows(n@, s@) <= crate::MAX_ROWS,
        0 <= w <= crate::COORD_LIMIT,
        -crate::COORD_LIMIT <= x,
        -crate::COORD_LIMIT <= y,
        x + crate::LINE_HEIGHT * node_rows(n@, s@) <= crate::COORD_LIMIT,
        y + crate::LINE_HEIGHT * node_rows(n@, s@) <= crate::COORD_LIMIT,
    ensures
        r@ == layout_view(n@, s@, x as int, y as int, w as int),
    decreases *n, 1int,
{
    match n {
        Node::Dir(d) => d.layout(s, x, y, w),
        Node::File(_) => {
            let r = LayoutNode { x, y, width: w, height: crate::LINE_HEIGHT, children: Vec::new() };
            proof {
                assert(r@.children =~= Seq::<LayoutView>::empty());
                assert(layout_view(n@, s@, x as int, y as int, w as int).children
                    =~= Seq::<LayoutView>::empty());
                assert(r@ == layout_view(n@, s@, x as int, y as int, w as int));
            }
            r
        },
        Node::Error(_) => {
            let r = LayoutNode { x, y, width: w, height: crate::LINE_HEIGHT, children: Vec::new() };
            proof {
                assert(r@.children =~= Seq::<LayoutView>::empty());
                assert(layout_view(n@, s@, x as int, y as int, w as int).children
                    =~= Seq::<LayoutView>::empty());
                assert(r@ == layout_view(n@, s@, x as int, y as int, w as int));
            }
            r
        },
    }
}

impl Dir {
    /// Computes the geometry of this directory and its visible descendants
    /// at `(x, y)` with width `w`. Closed, it is a single row; open, its
    /// children stack below its header row, indented one row height.
    pub fn layout(&self, s: &VisualState, x: i64, y: i64, w: i64) -> (r: LayoutNode)
        requires
            aligned(NodeView::Dir(self@), s@),
            node_rows(NodeView::Dir(self@), s@) <= crate::MAX_ROWS,
            0 <= w <= crate::COORD_LIMIT,
            -crate::COORD_LIMIT <= x,
            -crate::COORD_LIMIT <= y,
            x + crate::LINE_HEIGHT * node_rows(NodeView::Dir(self@), s@) <= crate::COORD_LIMIT,
            y + crate::LINE_HEIGHT * node_rows(NodeView::Dir(self@), s@) <= crate::COORD_LIMIT,
        ensures
            r@ == layout_view(NodeView::Dir(self@), s@, x as int, y as int, w as int),
        decreases *self, 0int,
    {
        let ghost nv = NodeView::Dir(self@);
        let h = self.height(s);
        let mut open_children: Option<&Vec<Node>> = None;
        if s.open {
            match &self.children {
                Some(cs) => {
                    open_children = Some(cs);
                },
                None => {},
            }
        }
        match open_children {
            Some(cs) => {
            let ghost csv = nodes_view(cs@);
            let ghost ssv = states_view(s.children@);
            proof {
                lemma_nodes_view(cs@);
                lemma_states_view(s.children@);
            }
            let cx = x + crate::LINE_HEIGHT;
            let mut cy = y + crate::LINE_HEIGHT;
            let mut built: Vec<LayoutNode> = Vec::new();
            let mut i: usize = 0;
            while i < cs.len()
                invariant
                    decreases_to!(*self => *cs),
                    i <= cs@.len(),
                    csv == nodes_view(cs@),
                    csv.len() == cs@.len(),
                    forall|j: int| 0 <= j < cs@.len() ==> csv[j] == node_view(cs@[j]),
                    ssv.len() == s.children@.len(),
                    forall|j: int| 0 <= j < ssv.len() ==> ssv[j] == state_view(s.children@[j]),
                    ssv.len() == csv.len(),
                    children_aligned(csv, ssv, 0),
                    children_rows(csv, ssv, 0) + 1 <= crate::MAX_ROWS,
                    cx == x + crate::LINE_HEIGHT,
                    -crate::COORD_LIMIT <= x,
                    -crate::COORD_LIMIT <= y,
                    0 <= w <= crate::COORD_LIMIT,
                    x + crate::LINE_HEIGHT * (1 + children_rows(csv, ssv, 0))
                        <= crate::COORD_LIMIT,
                    y + crate::LINE_HEIGHT * (1 + children_rows(csv, ssv, 0))
                        <= crate::COORD_LIMIT,
                    cy == y + crate::LINE_HEIGHT + crate::LINE_HEIGHT * (children_rows(
                        csv,
                        ssv,
                        0,
                    ) - children_rows(csv, ssv, i as int)),
                    layouts_view(built@) + child_layouts(
                        csv,
                        ssv,
                        i as int,
                        cx as int,
                        cy as int,
                        w as int,
                    ) =~= child_layouts(
                        csv,
                        ssv,
                        0,
                        x + crate::LINE_HEIGHT,
                        y + crate::LINE_HEIGHT,
                        w as int,
                    ),
                    built@.len() == i,
                decreases cs@.len() - i,
            {
                proof {
                    assert(decreases_to!(*cs => cs@[i as int]));
                    lemma_children_aligned_at(csv, ssv, 0, i as int);
                    lemma_child_rows_le(csv, ssv, 0, i as int);
                    lemma_children_rows_mono(csv, ssv, 0, i as int);
                }
                let child_layout = node_layout(&cs[i], &s.children[i], cx, cy, w);
                let hc = child_layout.height;
                proof {
                    assert(hc == crate::LINE_HEIGHT * node_rows(csv[i as int], ssv[i as int]));
                    lemma_layouts_view(built@);
                    lemma_layouts_view(built@.push(child_layout));
                }
                built.push(child_layout);
                cy = cy + hc;
                i += 1;
                proof {
                    assert(layouts_view(built@) =~= layouts_view(built@.subrange(0, i - 1))
                        + seq![layout_node_view(built@[i - 1])]) by {
                        lemma_layouts_view(built@);
                        lemma_layouts_view(built@.subrange(0, i - 1));
                    }
                    assert(built@.subrange(0, i - 1) =~= built@.drop_last());
                }
            }
            let r = LayoutNode { x, y, width: w, height: h, children: built };
            proof {
                assert(child_layouts(csv, ssv, i as int, cx as int, cy as int, w as int)
                    =~= Seq::<LayoutView>::empty());
                assert(layouts_view(built@) =~= layout_view(
                    nv,
                    s@,
                    x as int,
                    y as int,
                    w as int,
                ).children);
                assert(r@ == layout_view(nv, s@, x as int, y as int, w as int));
            }
            r
        },
        None => {
            let r = LayoutNode { x, y, width: w, height: h, children: Vec::new() };
            proof {
                assert(r@.children =~= Seq::<LayoutView>::empty());
                assert(layout_view(nv, s@, x as int, y as int, w as int).children
                    =~= Seq::<LayoutView>::empty());
                assert(r@ == layout_view(nv, s@, x as int, y as int, w as int));
            }
            r
        },
    }
    }
}

/// The node reached from `n` by following the child indices in `route`.
pub open spec fn node_at(n: NodeView, route: Seq<int>) -> Option<NodeView>
    decreases route.len(),
{
    if route.len() == 0 {
        Some(n)
    } else {
        match n {
            NodeView::Dir(d) => match d.children {
                Some(cs) => if 0 <= route[0] < cs.len() {
                    node_at(cs[route[0]], route.drop_first())
                } else {
                    None
                },
                None => None,
            },
            _ => None,
        }
    }
}

/// How applying one scan at `route` rewrites the tree: everything off the
/// route is untouched; at the route's end, an unpopulated directory gains
/// the child list the scan yields. A route that does not reach an
/// unpopulated directory changes nothing.
pub open spec fn populated_at(n0: NodeView, n1: NodeView, route: Seq<int>, scan: Seq<RawEntry>) -> bool
    decreases route.len(),
{
    if route.len() == 0 {
        match n0 {
            NodeView::Dir(d0) => {
                if d0.children is None {
                    n1 matches NodeView::Dir(d1) && {
                        &&& d1.path == d0.path
                        &&& d1.name == d0.name
                        &&& d1.show_hidden == d0.show_hidden
                        &&& d1.show_extensions == d0.show_extensions
                        &&& d1.single_click == d0.single_click
                        &&& d1.double_click == d0.double_click
                        &&& d1.children matches Some(cs) && built_from(cs, d0, scan)
                    }
                } else {
                    n1 == n0
                }
            },
            _ => n1 == n0,
        }
    } else {
        match n0 {
            NodeView::Dir(d0) => match d0.children {
                Some(cs0) => {
                    if 0 <= route[0] < cs0.len() {
                        n1 matches NodeView::Dir(d1) && {
                            &&& d1.path == d0.path
                            &&& d1.name == d0.name
                            &&& d1.show_hidden == d0.show_hidden
                            &&& d1.show_extensions == d0.show_extensions
                            &&& d1.single_click == d0.single_click
                            &&& d1.double_click == d0.double_click
                            &&& d1.children matches Some(cs1) && {
                                &&& cs1.len() == cs0.len()
                                &&& forall|j: int|
                                    0 <= j < cs0.len() && j != route[0] ==> cs1[j] == #[trigger] cs0[j]
                                &&& populated_at(cs0[route[0]], cs1[route[0]], route.drop_first(), scan)
                            }
                        }
                    } else {
                        n1 == n0
                    }
                },
                None => n1 == n0,
            },
            _ => n1 == n0,
        }
    }
}

/// Applies the scan for the request whose route (from `depth` on) leads
/// into `n`.
pub fn populate_node_at(
    n: &mut Node,
    route: &Vec<usize>,
    depth: usize,
    scan: Option<Vec<RawEntry>>,
)
    requires
        depth <= route@.len(),
        forall|i: int|
            0 <= i < scan_entries(scan).len() ==> valid_entry_name(
                #[trigger] scan_entries(scan)[i].name@,
            ),
    ensures
        populated_at(
            old(n)@,
            final(n)@,
            route@.map_values(|v: usize| v as int).skip(depth as int),
            scan_entries(scan),
        ),
    decreases route@.len() - depth, 1int,
{
    let ghost rt = route@.map_values(|v: usize| v as int).skip(depth as int);
    match n {
        Node::Dir(d) => {
            d.populate_at(route, depth, scan);
        },
        _ => {
            proof {
                assert(populated_at(old(n)@, final(n)@, rt, scan_entries(scan)));
            }
        },
    }
}

impl Dir {
    /// Applies the scan for the request whose route (from `depth` on) leads
    /// into this directory. An empty remainder populates this directory; a
    /// non-empty one descends into the addressed child.
    pub fn populate_at(&mut self, route: &Vec<usize>, depth: usize, scan: Option<Vec<RawEntry>>)
        requires
            depth <= route@.len(),
            forall|i: int|
                0 <= i < scan_entries(scan).len() ==> valid_entry_name(
                    #[trigger] scan_entries(scan)[i].name@,
                ),
        ensures
            populated_at(
                NodeView::Dir(old(self)@),
                NodeView::Dir(final(self)@),
                route@.map_values(|v: usize| v as int).skip(depth as int),
                scan_entries(scan),
            ),
        decreases route@.len() - depth, 0int,
    {
        let ghost d0 = self@;
        let ghost rt = route@.map_values(|v: usize| v as int).skip(depth as int);
        if depth == route.len() {
            proof {
                assert(rt.len() == 0);
            }
            let unpopulated = match &self.children {
                None => true,
                Some(_) => false,
            };
            if unpopulated {
                self.populate(scan);
            }
            return ;
        }
        proof {
            assert(rt.len() > 0);
            assert(rt[0] == route@[depth as int]);
        }
        let idx = route[depth];
        let mut kids: Option<Vec<Node>> = None;
        core::mem::swap(&mut kids, &mut self.children);
        match kids {
            Some(mut cs) => {
                let ghost cs0 = nodes_view(cs@);
                proof {
                    lemma_nodes_view(cs@);
                }
                if idx < cs.len() {
                    let mut taken = Node::Error(
                        ErrorFile { path: String::new(), name: String::new() },
                    );
                    cs.set_and_swap(idx, &mut taken);
                    populate_node_at(&mut taken, route, depth + 1, scan);
                    cs.set_and_swap(idx, &mut taken);
                    proof {
                        lemma_nodes_view(cs@);
                        let cs1 = nodes_view(cs@);
                        assert(cs1.len() == cs0.len());
                        assert(forall|j: int|
                            0 <= j < cs0.len() && j != idx ==> cs1[j] == #[trigger] cs0[j]);
                        assert(populated_at(cs0[idx as int], cs1[idx as int], rt.drop_first(),
                            scan_entries(scan))) by {
                            assert(rt.drop_first() =~= route@.map_values(|v: usize| v as int).skip(
                                depth + 1,
                            ));
                        }
                    }
                    self.children = Some(cs);
                    proof {
                        assert(populated_at(NodeView::Dir(d0), NodeView::Dir(self@), rt,
                            scan_entries(scan)));
                    }
                } else {
                    self.children = Some(cs);
                    proof {
                        assert(self@ == d0);
                    }
                }
            },
            None => {
                self.children = None;
                proof {
                    assert(self@ == d0);
                }
            },
        }
    }
}

/// One node's step through an event pass: the state it leaves behind and
/// the outcome it reports.
pub struct StepResult {
    pub state: StateView,
    pub out: OutcomeView,
}

/// The combined step of a child list.
pub struct ChildrenStep {
    pub states: Seq<StateView>,
    pub captured: bool,
    pub relayout: bool,
    pub redraw: bool,
    pub messages: Seq<MsgView>,
    pub scans: Seq<ScanView>,
}

/// Whether the cursor lies inside the header row of a node whose bounds
/// start at `(x, y)` with total height `h` and width `w`.
pub open spec fn header_hit(cursor: Option<CursorPos>, x: int, y: int, h: int, w: int) -> bool {
    match cursor {
        Some(c) => x <= c.x < x + w && y <= c.y < y + h && c.y - y <= crate::LINE_HEIGHT,
        None => false,
    }
}

/// How a directory steps through one event pass. A left press on its header
/// row toggles it, captures the event, asks for a new layout, and — when
/// the toggle opens a directory that was never scanned — asks the host for
/// one scan. Otherwise, an open directory offers the event to each
/// displayed child in order and merges what they report; hover follows the
/// header row and asks for a redraw when it changes.
pub open spec fn dir_update_spec(
    d: DirView,
    s: StateView,
    ev: UiEvent,
    cursor: Option<CursorPos>,
    now_ms: u64,
    x: int,
    y: int,
    w: int,
) -> StepResult
    decreases d, 1int,
{
    let h = crate::LINE_HEIGHT * node_rows(NodeView::Dir(d), s);
    let hit = header_hit(cursor, x, y, h, w);
    if hit && ev == UiEvent::LeftPress {
        let now_open = !s.open;
        StepResult {
            state: StateView { open: now_open, hovered: true, ..s },
            out: OutcomeView {
                captured: true,
                relayout: true,
                redraw: true,
                messages: Seq::empty(),
                scans: if now_open && d.children is None {
                    seq![ScanView { route: Seq::empty(), path: d.path }]
                } else {
                    Seq::empty()
                },
            },
        }
    } else if s.open && d.children is Some {
        let c = children_update_spec(
            match d.children {
                Some(cs) => cs,
                None => Seq::empty(),
            },
            s.children,
            0,
            ev,
            cursor,
            now_ms,
            x + crate::LINE_HEIGHT,
            y + crate::LINE_HEIGHT,
            w,
        );
        StepResult {
            state: StateView { hovered: hit, children: c.states, ..s },
            out: OutcomeView {
                captured: c.captured,
                relayout: c.relayout,
                redraw: (hit != s.hovered) || c.redraw,
                messages: c.messages,
                scans: c.scans,
            },
        }
    } else {
        StepResult {
            state: StateView { hovered: hit, ..s },
            out: OutcomeView {
                captured: false,
                relayout: false,
                redraw: hit != s.hovered,
                messages: Seq::empty(),
                scans: Seq::empty(),
            },
        }
    }
}

/// How a node steps through one event pass.
pub open spec fn node_update_spec(
    n: NodeView,
    s: StateView,
    ev: UiEvent,
    cursor: Option<CursorPos>,
    now_ms: u64,
    x: int,
    y: int,
    w: int,
) -> StepResult
    decreases n, 2int,
{
    match n {
        NodeView::Dir(d) => dir_update_spec(d, s, ev, cursor, now_ms, x, y, w),
        NodeView::File(f) => StepResult {
            state: file_update_state(f, s, ev, cursor, now_ms, x, y, w),
            out: file_update_outcome(f, s, ev, cursor, now_ms, x, y, w),
        },
        NodeView::Error(_) => StepResult { state: s, out: quiet_outcome() },
    }
}

/// How the children from position `i` on step through one event pass,
/// stacked from `y` down: each child in turn, outcomes merged in order, and
/// each scan request's route extended by the child's position.
pub open spec fn children_update_spec(
    cs: Seq<NodeView>,
    ss: Seq<StateView>,
    i: int,
    ev: UiEvent,
    cursor: Option<CursorPos>,
    now_ms: u64,
    x: int,
    y: int,
    w: int,
) -> ChildrenStep
    decreases cs, cs.len() - i,
{
    if i < 0 || i >= cs.len() {
        ChildrenStep {
            states: Seq::empty(),
            captured: false,
            relayout: false,
            redraw: false,
            messages: Seq::empty(),
            scans: Seq::empty(),
        }
    } else {
        let r0 = node_update_spec(cs[i], state_at(ss, i), ev, cursor, now_ms, x, y, w);
        let rest = children_update_spec(
            cs,
            ss,
            i + 1,
            ev,
            cursor,
            now_ms,
            x,
            y + crate::LINE_HEIGHT * node_rows(cs[i], state_at(ss, i)),
            w,
        );
        ChildrenStep {
            states: seq![r0.state] + rest.states,
            captured: r0.out.captured || rest.captured,
            relayout: r0.out.relayout || rest.relayout,
            redraw: r0.out.redraw || rest.redraw,
            messages: r0.out.messages + rest.messages,
            scans: r0.out.scans.map_values(
                |sv: ScanView| ScanView { route: seq![i] + sv.route, path: sv.path },
            ) + rest.scans,
        }
    }
}

/// The scan request `sv` addresses, within `n`, a directory that has never
/// been scanned, and carries that directory's path.
pub open spec fn scan_targets_unscanned(n: NodeView, sv: ScanView) -> bool {
    node_at(n, sv.route) matches Some(nn) && nn matches NodeView::Dir(dd) && {
        &&& dd.children is None
        &&& sv.path == dd.path
    }
}

/// Every scan request an event pass emits addresses a directory that has
/// never been scanned. A directory that already holds its memoized child
/// list is never asked for again: enumeration happens at most once per
/// node.
pub proof fn lemma_scans_target_unscanned(
    n: NodeView,
    s: StateView,
    ev: UiEvent,
    cursor: Option<CursorPos>,
    now_ms: u64,
    x: int,
    y: int,
    w: int,
)
    ensures
        forall|j: int|
            0 <= j < node_update_spec(n, s, ev, cursor, now_ms, x, y, w).out.scans.len()
                ==> scan_targets_unscanned(
                n,
                #[trigger] node_update_spec(n, s, ev, cursor, now_ms, x, y, w).out.scans[j],
            ),
    decreases n, 2int,
{
    match n {
        NodeView::Dir(d) => {
            let step = dir_update_spec(d, s, ev, cursor, now_ms, x, y, w);
            let h = crate::LINE_HEIGHT * node_rows(n, s);
            let hit = header_hit(cursor, x, y, h, w);
            if hit && ev == UiEvent::LeftPress {
                if !s.open && d.children is None {
                    assert forall|j: int| 0 <= j < step.out.scans.len() implies
                        scan_targets_unscanned(n, step.out.scans[j]) by {
                        assert(step.out.scans[j] == (ScanView {
                            route: Seq::empty(),
                            path: d.path,
                        }));
                        assert(node_at(n, Seq::empty()) == Some(n));
                    }
                }
            } else if s.open && d.children is Some {
                let cs = match d.children {
                    Some(cs) => cs,
                    None => Seq::empty(),
                };
                lemma_children_scans_target_unscanned(
                    cs,
                    s.children,
                    0,
                    ev,
                    cursor,
                    now_ms,
                    x + crate::LINE_HEIGHT,
                    y + crate::LINE_HEIGHT,
                    w,
                );
                let cstep = children_update_spec(
                    cs,
                    s.children,
                    0,
                    ev,
                    cursor,
                    now_ms,
                    x + crate::LINE_HEIGHT,
                    y + crate::LINE_HEIGHT,
                    w,
                );
                assert(step.out.scans == cstep.scans);
                assert forall|j: int| 0 <= j < step.out.scans.len() implies
                    scan_targets_unscanned(n, step.out.scans[j]) by {
                    let sv = cstep.scans[j];
                    assert(step.out.scans[j] == sv);
                    let k = sv.route[0];
                    let tail = ScanView { route: sv.route.drop_first(), path: sv.path };
                    assert(0 <= k < cs.len() && sv.route.len() > 0 && scan_targets_unscanned(
                        cs[k],
                        tail,
                    ));
                    assert(node_at(n, sv.route) == node_at(cs[k], sv.route.drop_first()));
                }
            }
        },
        NodeView::File(_) => {},
        NodeView::Error(_) => {},
    }
}

/// Every scan request the children from position `i` on emit has a route
/// that first picks one of those children and, within it, addresses a
/// directory that has never been scanned.
pub proof fn lemma_children_scans_target_unscanned(
    cs: Seq<NodeView>,
    ss: Seq<StateView>,
    i: int,
    ev: UiEvent,
    cursor: Option<CursorPos>,
    now_ms: u64,
    x: int,
    y: int,
    w: int,
)
    ensures
        forall|j: int|
            0 <= j < children_update_spec(cs, ss, i, ev, cursor, now_ms, x, y, w).scans.len()
                ==> {
                let sv = #[trigger] children_update_spec(
                    cs,
                    ss,
                    i,
                    ev,
                    cursor,
                    now_ms,
                    x,
                    y,
                    w,
                ).scans[j];
                &&& sv.route.len() > 0
                &&& i <= sv.route[0] < cs.len()
                &&& scan_targets_unscanned(
                    cs[sv.route[0]],
                    ScanView { route: sv.route.drop_first(), path: sv.path },
                )
            },
    decreases cs, cs.len() - i,
{
    if 0 <= i < cs.len() {
        let r0 = node_update_spec(cs[i], state_at(ss, i), ev, cursor, now_ms, x, y, w);
        lemma_scans_target_unscanned(cs[i], state_at(ss, i), ev, cursor, now_ms, x, y, w);
        lemma_children_scans_target_unscanned(
            cs,
            ss,
            i + 1,
            ev,
            cursor,
            now_ms,
            x,
            y + crate::LINE_HEIGHT * node_rows(cs[i], state_at(ss, i)),
            w,
        );
        let step = children_update_spec(cs, ss, i, ev, cursor, now_ms, x, y, w);
        let own = r0.out.scans.map_values(
            |sv: ScanView| ScanView { route: seq![i] + sv.route, path: sv.path },
        );
        assert forall|j: int| 0 <= j < step.scans.len() implies {
            let sv = #[trigger] step.scans[j];
            &&& sv.route.len() > 0
            &&& i <= sv.route[0] < cs.len()
            &&& scan_targets_unscanned(
                cs[sv.route[0]],
                ScanView { route: sv.route.drop_first(), path: sv.path },
            )
        } by {
            if j < own.len() {
                let sv = step.scans[j];
                let orig = r0.out.scans[j];
                assert(sv == (ScanView { route: seq![i] + orig.route, path: orig.path }));
                assert(sv.route[0] == i);
                assert(sv.route.drop_first() =~= orig.route);
                assert(scan_targets_unscanned(cs[i], orig));
                assert((ScanView { route: sv.route.drop_first(), path: sv.path }) == orig);
            } else {
                let rest = children_update_spec(
                    cs,
                    ss,
                    i + 1,
                    ev,
                    cursor,
                    now_ms,
                    x,
                    y + crate::LINE_HEIGHT * node_rows(cs[i], state_at(ss, i)),
                    w,
                );
                assert(step.scans[j] == rest.scans[j - own.len()]);
            }
        }
    }
}

/// A directory that already holds its memoized child list never appears in
/// the scan requests of any later event pass: enumeration is at most once
/// per node in its lifetime.
pub proof fn lemma_populated_never_rescanned(
    n: NodeView,
    s: StateView,
    ev: UiEvent,
    cursor: Option<CursorPos>,
    now_ms: u64,
    x: int,
    y: int,
    w: int,
    rt: Seq<int>,
    dd: DirView,
)
    requires
        node_at(n, rt) == Some(NodeView::Dir(dd)),
        dd.children is Some,
    ensures
        forall|j: int|
            0 <= j < node_update_spec(n, s, ev, cursor, now_ms, x, y, w).out.scans.len()
                ==> (#[trigger] node_update_spec(
                n,
                s,
                ev,
                cursor,
                now_ms,
                x,
                y,
                w,
            ).out.scans[j]).route != rt,
{
    lemma_scans_target_unscanned(n, s, ev, cursor, now_ms, x, y, w);
}

/// Cache reuse under toggling: pressing the header of an open, populated
/// directory closes it, pressing the header again opens it, the second
/// opening asks for no scan, and the directory then displays the identical
/// memoized child list it displayed before — the cache is reused, never
/// re-derived.
pub proof fn lemma_reopen_shows_same_children(
    d: DirView,
    s: StateView,
    cursor1: Option<CursorPos>,
    now1: u64,
    cursor2: Option<CursorPos>,
    now2: u64,
    x: int,
    y: int,
    w: int,
)
    requires
        s.open,
        d.children is Some,
        header_hit(cursor1, x, y, crate::LINE_HEIGHT * node_rows(NodeView::Dir(d), s), w),
        header_hit(cursor2, x, y, crate::LINE_HEIGHT as int, w),
    ensures
        !dir_update_spec(d, s, UiEvent::LeftPress, cursor1, now1, x, y, w).state.open,
        dir_update_spec(
            d,
            dir_update_spec(d, s, UiEvent::LeftPress, cursor1, now1, x, y, w).state,
            UiEvent::LeftPress,
            cursor2,
            now2,
            x,
            y,
            w,
        ).state.open,
        dir_update_spec(
            d,
            dir_update_spec(d, s, UiEvent::LeftPress, cursor1, now1, x, y, w).state,
            UiEvent::LeftPress,
            cursor2,
            now2,
            x,
            y,
            w,
        ).out.scans == Seq::<ScanView>::empty(),
        display_children(
            d,
            dir_update_spec(
                d,
                dir_update_spec(d, s, UiEvent::LeftPress, cursor1, now1, x, y, w).state,
                UiEvent::LeftPress,
                cursor2,
                now2,
                x,
                y,
                w,
            ).state.open,
        ) == display_children(d, s.open),
{
    let s1 = dir_update_spec(d, s, UiEvent::LeftPress, cursor1, now1, x, y, w).state;
    assert(!s1.open);
    assert(node_rows(NodeView::Dir(d), s1) == 1);
    let step2 = dir_update_spec(d, s1, UiEvent::LeftPress, cursor2, now2, x, y, w);
    assert(step2.state.open);
    assert(step2.out.scans =~= Seq::<ScanView>::empty());
}

/// Position-based state identity in reconciliation: the state at each
/// position afterwards belongs to the child now at that position — the old
/// state at that position survives exactly when its key (kind and path)
/// matches the child, and a child whose key differs starts over with fresh
/// state. Nothing is kept for a child that is no longer displayed.
pub proof fn lemma_reconcile_position_identity(cs: Seq<NodeView>, old: Seq<StateView>, j: int)
    requires
        0 <= j < cs.len(),
    ensures
        reconcile_children(cs, old, 0)[j] == reconcile_spec(
            cs[j],
            if j < old.len() && old[j].key == key_of(cs[j]) {
                old[j]
            } else {
                fresh_state_view(key_of(cs[j]))
            },
        ),
        !(j < old.len() && old[j].key == key_of(cs[j])) ==> {
            &&& !reconcile_children(cs, old, 0)[j].open
            &&& !reconcile_children(cs, old, 0)[j].hovered
            &&& reconcile_children(cs, old, 0)[j].last_click is None
            &&& reconcile_children(cs, old, 0)[j].key == key_of(cs[j])
        },
{
    lemma_reconcile_children_index(cs, old, 0, j);
}

/// An error row is inert under events: it never captures, never emits a
/// message, never asks for a scan, and its state never changes.
pub proof fn lemma_error_row_inert(
    e: ErrorView,
    s: StateView,
    ev: UiEvent,
    cursor: Option<CursorPos>,
    now_ms: u64,
    x: int,
    y: int,
    w: int,
)
    ensures
        node_update_spec(NodeView::Error(e), s, ev, cursor, now_ms, x, y, w).state == s,
        node_update_spec(NodeView::Error(e), s, ev, cursor, now_ms, x, y, w).out
            == quiet_outcome(),
{
}

/// In a child list built from one scan, the error rows are exactly the
/// entries that were neither regular files nor directories: position by
/// position, a node is an error row exactly when its entry's kind was
/// `Other`.
pub proof fn lemma_other_entries_become_error_rows(
    cs: Seq<NodeView>,
    es: Seq<RawEntry>,
    d: DirView,
)
    requires
        cs.len() == es.len(),
        forall|i: int| 0 <= i < cs.len() ==> #[trigger] matches_entry(cs[i], es[i], d),
    ensures
        forall|i: int|
            0 <= i < cs.len() ==> ((#[trigger] cs[i]) is Error <==> es[i].kind
                == EntryKind::Other),
{
    assert forall|i: int| 0 <= i < cs.len() implies ((#[trigger] cs[i]) is Error <==> es[i].kind
        == EntryKind::Other) by {
        assert(matches_entry(cs[i], es[i], d));
    }
}

/// A child list built from one scan holds exactly one error row for each
/// visible entry that was neither a regular file nor a directory.
pub proof fn lemma_one_error_row_per_other_entry(
    cs: Seq<NodeView>,
    d: DirView,
    scan: Seq<RawEntry>,
)
    requires
        built_from(cs, d, scan),
    ensures
        cs.filter(|n: NodeView| n is Error).len() == scan.filter(
            |e: RawEntry| visible(e, d.show_hidden),
        ).filter(|e: RawEntry| e.kind == EntryKind::Other).len(),
{
    let es = choose|es: Seq<RawEntry>|
        {
            &&& es.to_multiset() == scan.filter(
                |e: RawEntry| visible(e, d.show_hidden),
            ).to_multiset()
            &&& sorted_by(es, |a: RawEntry, b: RawEntry| entry_le(a, b))
            &&& cs.len() == es.len()
            &&& forall|i: int| 0 <= i < cs.len() ==> #[trigger] matches_entry(cs[i], es[i], d)
        };
    lemma_other_entries_become_error_rows(cs, es, d);
    crate::listing::lemma_filter_len_pointwise(
        cs,
        es,
        |n: NodeView| n is Error,
        |e: RawEntry| e.kind == EntryKind::Other,
    );
    crate::listing::lemma_multiset_eq_filter_len(
        es,
        scan.filter(|e: RawEntry| visible(e, d.show_hidden)),
        |e: RawEntry| e.kind == EntryKind::Other,
    );
}

/// Handles one event pass over `n` placed at `(x, y)` with width `w`.
pub fn node_update(
    n: &Node,
    s: &mut VisualState,
    ev: UiEvent,
    cursor: Option<CursorPos>,
    now_ms: u64,
    x: i64,
    y: i64,
    w: i64,
) -> (o: UpdateOutcome)
    requires
        aligned(n@, old(s)@),
        node_rows(n@, old(s)@) <= crate::MAX_ROWS,
        0 <= w <= crate::COORD_LIMIT,
        -crate::COORD_LIMIT <= x,
        -crate::COORD_LIMIT <= y,
        x + crate::LINE_HEIGHT * node_rows(n@, old(s)@) <= crate::COORD_LIMIT,
        y + crate::LINE_HEIGHT * node_rows(n@, old(s)@) <= crate::COORD_LIMIT,
        cursor matches Some(c) ==> -crate::COORD_LIMIT <= c.x <= crate::COORD_LIMIT
            && -crate::COORD_LIMIT <= c.y <= crate::COORD_LIMIT,
    ensures
        final(s)@ == node_update_spec(
            n@,
            old(s)@,
            ev,
            cursor,
            now_ms,
            x as int,
            y as int,
            w as int,
        ).state,
        o@ == node_update_spec(n@, old(s)@, ev, cursor, now_ms, x as int, y as int, w as int).out,
    decreases *n, 1int,
{
    match n {
        Node::Dir(d) => d.update(s, ev, cursor, now_ms, x, y, w),
        Node::File(f) => f.update(s, ev, cursor, now_ms, x, y, w),
        Node::Error(e) => e.update(s),
    }
}

impl Dir {
    /// Handles one event pass over this directory placed at `(x, y)` with
    /// width `w`: toggle on a header press, otherwise forward to the
    /// displayed children.
    pub fn update(
        &self,
        s: &mut VisualState,
        ev: UiEvent,
        cursor: Option<CursorPos>,
        now_ms: u64,
        x: i64,
        y: i64,
        w: i64,
    ) -> (o: UpdateOutcome)
        requires
            aligned(NodeView::Dir(self@), old(s)@),
            node_rows(NodeView::Dir(self@), old(s)@) <= crate::MAX_ROWS,
            0 <= w <= crate::COORD_LIMIT,
            -crate::COORD_LIMIT <= x,
            -crate::COORD_LIMIT <= y,
            x + crate::LINE_HEIGHT * node_rows(NodeView::Dir(self@), old(s)@)
                <= crate::COORD_LIMIT,
            y + crate::LINE_HEIGHT * node_rows(NodeView::Dir(self@), old(s)@)
                <= crate::COORD_LIMIT,
            cursor matches Some(c) ==> -crate::COORD_LIMIT <= c.x <= crate::COORD_LIMIT
                && -crate::COORD_LIMIT <= c.y <= crate::COORD_LIMIT,
        ensures
            final(s)@ == dir_update_spec(
                self@,
                old(s)@,
                ev,
                cursor,
                now_ms,
                x as int,
                y as int,
                w as int,
            ).state,
            o@ == dir_update_spec(
                self@,
                old(s)@,
                ev,
                cursor,
                now_ms,
                x as int,
                y as int,
                w as int,
            ).out,
        decreases *self, 0int,
    {
        let ghost dv = self@;
        let ghost s0 = s@;
        let ghost spec_step = dir_update_spec(
            dv,
            s0,
            ev,
            cursor,
            now_ms,
            x as int,
            y as int,
            w as int,
        );
        let h = self.height(s);
        let hit = match cursor {
            Some(c) => x <= c.x && c.x < x + w && y <= c.y && c.y < y + h && c.y - y
                <= crate::LINE_HEIGHT,
            None => false,
        };
        proof {
            assert(hit == header_hit(cursor, x as int, y as int, h as int, w as int));
        }
        let hover_changed = hit != s.hovered;
        if hit && matches!(ev, UiEvent::LeftPress) {
            s.open = !s.open;
            s.hovered = true;
            let mut scans: Vec<ScanRequest> = Vec::new();
            let needs_scan = s.open && matches!(&self.children, Option::<Vec<Node>>::None);
            if needs_scan {
                scans.push(ScanRequest { route: Vec::new(), path: self.path.clone() });
            }
            let o = UpdateOutcome {
                captured: true,
                relayout: true,
                redraw: true,
                messages: Vec::new(),
                scans,
            };
            proof {
                assert(o@.messages =~= Seq::<MsgView>::empty());
                if needs_scan {
                    assert(o@.scans[0].route =~= Seq::<int>::empty());
                    assert(o@.scans =~= seq![
                        ScanView { route: Seq::empty(), path: dv.path },
                    ]);
                } else {
                    assert(o@.scans =~= Seq::<ScanView>::empty());
                }
                assert(o@ == spec_step.out);
                assert(final(s)@ == spec_step.state);
            }
            return o;
        }
        let mut open_children: Option<&Vec<Node>> = None;
        if s.open {
            match &self.children {
                Some(cs) => {
                    open_children = Some(cs);
                },
                None => {},
            }
        }
        match open_children {
            None => {
                s.hovered = hit;
                let o = UpdateOutcome {
                    captured: false,
                    relayout: false,
                    redraw: hover_changed,
                    messages: Vec::new(),
                    scans: Vec::new(),
                };
                proof {
                    assert(o@.messages =~= Seq::<MsgView>::empty());
                    assert(o@.scans =~= Seq::<ScanView>::empty());
                    assert(o@ == spec_step.out);
                    assert(final(s)@ == spec_step.state);
                }
                o
            },
            Some(cs) => {
                s.hovered = hit;
                let ghost csv = nodes_view(cs@);
                let ghost ssv = states_view(s.children@);
                proof {
                    lemma_nodes_view(cs@);
                    lemma_states_view(s.children@);
                }
                let ghost full = children_update_spec(
                    csv,
                    ssv,
                    0,
                    ev,
                    cursor,
                    now_ms,
                    x + crate::LINE_HEIGHT,
                    y + crate::LINE_HEIGHT,
                    w as int,
                );
                let cx = x + crate::LINE_HEIGHT;
                let mut cy = y + crate::LINE_HEIGHT;
                let mut old_children: Vec<VisualState> = Vec::new();
                core::mem::swap(&mut old_children, &mut s.children);
                let mut new_children: Vec<VisualState> = Vec::new();
                let mut captured = false;
                let mut relayout = false;
                let mut redraw_children = false;
                let mut messages: Vec<TreeMessage> = Vec::new();
                let mut scans: Vec<ScanRequest> = Vec::new();
                let mut i: usize = 0;
                proof {
                    assert(msgs_view(messages@) =~= Seq::<MsgView>::empty());
                    assert(scans_view(scans@) =~= Seq::<ScanView>::empty());
                    assert(states_view(new_children@) =~= Seq::<StateView>::empty());
                }
                while i < cs.len()
                    invariant
                        decreases_to!(*self => *cs),
                        i <= cs@.len(),
                        csv == nodes_view(cs@),
                        csv.len() == cs@.len(),
                        forall|j: int| 0 <= j < cs@.len() ==> csv[j] == node_view(cs@[j]),
                        ssv.len() == csv.len(),
                        old_children@.len() == csv.len() - i,
                        forall|j: int|
                            0 <= j < old_children@.len() ==> state_view(
                                #[trigger] old_children@[j],
                            ) == ssv[j + i],
                        children_aligned(csv, ssv, 0),
                        children_rows(csv, ssv, 0) + 1 <= crate::MAX_ROWS,
                        cx == x + crate::LINE_HEIGHT,
                        -crate::COORD_LIMIT <= x,
                        -crate::COORD_LIMIT <= y,
                        0 <= w <= crate::COORD_LIMIT,
                        x + crate::LINE_HEIGHT * (1 + children_rows(csv, ssv, 0))
                            <= crate::COORD_LIMIT,
                        y + crate::LINE_HEIGHT * (1 + children_rows(csv, ssv, 0))
                            <= crate::COORD_LIMIT,
                        cursor matches Some(c) ==> -crate::COORD_LIMIT <= c.x
                            <= crate::COORD_LIMIT && -crate::COORD_LIMIT <= c.y
                            <= crate::COORD_LIMIT,
                        cy == y + crate::LINE_HEIGHT + crate::LINE_HEIGHT * (children_rows(
                            csv,
                            ssv,
                            0,
                        ) - children_rows(csv, ssv, i as int)),
                        full == children_update_spec(
                            csv,
                            ssv,
                            0,
                            ev,
                            cursor,
                            now_ms,
                            x + crate::LINE_HEIGHT,
                            y + crate::LINE_HEIGHT,
                            w as int,
                        ),
                        new_children@.len() == i,
                        full.states =~= states_view(new_children@) + children_update_spec(
                            csv,
                            ssv,
                            i as int,
                            ev,
                            cursor,
                            now_ms,
                            cx as int,
                            cy as int,
                            w as int,
                        ).states,
                        full.messages =~= msgs_view(messages@) + children_update_spec(
                            csv,
                            ssv,
                            i as int,
                            ev,
                            cursor,
                            now_ms,
                            cx as int,
                            cy as int,
                            w as int,
                        ).messages,
                        full.scans =~= scans_view(scans@) + children_update_spec(
                            csv,
                            ssv,
                            i as int,
                            ev,
                            cursor,
                            now_ms,
                            cx as int,
                            cy as int,
                            w as int,
                        ).scans,
                        full.captured == (captured || children_update_spec(
                            csv,
                            ssv,
                            i as int,
                            ev,
                            cursor,
                            now_ms,
                            cx as int,
                            cy as int,
                            w as int,
                        ).captured),
                        full.relayout == (relayout || children_update_spec(
                            csv,
                            ssv,
                            i as int,
                            ev,
                            cursor,
                            now_ms,
                            cx as int,
                            cy as int,
                            w as int,
                        ).relayout),
                        full.redraw == (redraw_children || children_update_spec(
                            csv,
                            ssv,
                            i as int,
                            ev,
                            cursor,
                            now_ms,
                            cx as int,
                            cy as int,
                            w as int,
                        ).redraw),
                    decreases cs@.len() - i,
                {
                    let ghost rem = children_update_spec(
                        csv,
                        ssv,
                        i as int,
                        ev,
                        cursor,
                        now_ms,
                        cx as int,
                        cy as int,
                        w as int,
                    );
                    proof {
                        assert(decreases_to!(*cs => cs@[i as int]));
                        lemma_children_aligned_at(csv, ssv, 0, i as int);
                        lemma_child_rows_le(csv, ssv, 0, i as int);
                        lemma_children_rows_mono(csv, ssv, 0, i as int);
                        assert(state_at(ssv, i as int) == ssv[i as int]);
                    }
                    let child = &cs[i];
                    let mut st = old_children.remove(0);
                    let hc = node_height(child, &st);
                    let ghost r0 = node_update_spec(
                        csv[i as int],
                        ssv[i as int],
                        ev,
                        cursor,
                        now_ms,
                        cx as int,
                        cy as int,
                        w as int,
                    );
                    let mut co = node_update(child, &mut st, ev, cursor, now_ms, cx, cy, w);
                    let ghost co_view = co@;
                    proof {
                        assert(st@ == r0.state);
                        assert(co_view == r0.out);
                        lemma_states_view(new_children@);
                        lemma_states_view(new_children@.push(st));
                    }
                    new_children.push(st);
                    captured = captured || co.captured;
                    relayout = relayout || co.relayout;
                    redraw_children = redraw_children || co.redraw;
                    let ghost msgs_before = messages@;
                    messages.append(&mut co.messages);
                    proof {
                        assert(msgs_view(messages@) =~= msgs_view(msgs_before) + co_view.messages);
                    }
                    let ghost target = r0.out.scans.map_values(
                        |sv: ScanView| ScanView { route: seq![i as int] + sv.route, path: sv.path },
                    );
                    let ghost scans_base = scans_view(scans@);
                    let ghost mut k: int = 0;
                    proof {
                        assert(target =~= r0.out.scans.map_values(
                            |sv: ScanView| ScanView {
                                route: seq![i as int] + sv.route,
                                path: sv.path,
                            },
                        ));
                    }
                    while co.scans.len() > 0
                        invariant
                            k + co.scans@.len() == co_view.scans.len(),
                            target.len() == co_view.scans.len(),
                            forall|j: int|
                                0 <= j < co.scans@.len() ==> scan_view(#[trigger] co.scans@[j])
                                    == co_view.scans[j + k],
                            forall|j: int|
                                0 <= j < target.len() ==> target[j] == (ScanView {
                                    route: seq![i as int] + co_view.scans[j].route,
                                    path: co_view.scans[j].path,
                                }),
                            0 <= k,
                            scans_view(scans@) =~= scans_base + target.subrange(0, k),
                        decreases co.scans@.len(),
                    {
                        let mut sr = co.scans.remove(0);
                        proof {
                            assert(scan_view(sr) == co_view.scans[k]);
                        }
                        sr.route.insert(0, i);
                        proof {
                            assert(sr@.route =~= seq![i as int] + co_view.scans[k].route);
                            assert(sr@ == target[k]);
                            assert(scans_view(scans@.push(sr)) =~= scans_view(scans@) + seq![
                                sr@,
                            ]);
                            assert(scans_base + target.subrange(0, k + 1) =~= (scans_base
                                + target.subrange(0, k)) + seq![target[k]]);
                        }
                        scans.push(sr);
                        proof {
                            k = k + 1;
                        }
                    }
                    proof {
                        assert(target.subrange(0, target.len() as int) =~= target);
                        assert(scans_view(scans@) =~= scans_base + target);
                    }
                    cy = cy + hc;
                    i += 1;
                    proof {
                        let rem2 = children_update_spec(
                            csv,
                            ssv,
                            i as int,
                            ev,
                            cursor,
                            now_ms,
                            cx as int,
                            cy as int,
                            w as int,
                        );
                        assert(rem.states =~= seq![r0.state] + rem2.states);
                        assert(rem.messages =~= r0.out.messages + rem2.messages);
                        assert(rem.scans =~= target + rem2.scans);
                        assert(full.states =~= states_view(new_children@) + rem2.states);
                        assert(full.messages =~= msgs_view(messages@) + rem2.messages);
                        assert(full.scans =~= scans_view(scans@) + rem2.scans);
                    }
                }
                s.children = new_children;
                let o = UpdateOutcome {
                    captured,
                    relayout,
                    redraw: hover_changed || redraw_children,
                    messages,
                    scans,
                };
                proof {
                    let rem_end = children_update_spec(
                        csv,
                        ssv,
                        i as int,
                        ev,
                        cursor,
                        now_ms,
                        cx as int,
                        cy as int,
                        w as int,
                    );
                    assert(rem_end.states =~= Seq::<StateView>::empty());
                    assert(rem_end.messages =~= Seq::<MsgView>::empty());
                    assert(rem_end.scans =~= Seq::<ScanView>::empty());
                    assert(full.states =~= states_view(s.children@));
                    assert(final(s)@.children == full.states);
                    assert(final(s)@ == spec_step.state);
                    assert(o@.messages =~= full.messages);
                    assert(o@.scans =~= full.scans);
                    assert(o@ == spec_step.out);
                }
                o
            },
        }
    }
}

/// Deep copy of a node; the copy has the same image as the original.
pub fn duplicate_node(n: &Node) -> (r: Node)
    ensures
        r@ == n@,
    decreases *n,
{
    match n {
        Node::Dir(d) => {
            let children = match &d.children {
                Some(cs) => Some(duplicate_nodes(cs)),
                None => None,
            };
            Node::Dir(
                Dir {
                    path: d.path.clone(),
                    name: d.name.clone(),
                    children,
                    show_hidden: d.show_hidden,
                    show_extensions: d.show_extensions,
                    single_click: d.single_click,
                    double_click: d.double_click,
                },
            )
        },
        Node::File(f) => Node::File(
            File {
                path: f.path.clone(),
                name: f.name.clone(),
                single_click: f.single_click,
                double_click: f.double_click,
            },
        ),
        Node::Error(e) => Node::Error(ErrorFile { path: e.path.clone(), name: e.name.clone() }),
    }
}

/// Deep copy of a node list; the copy has the same image as the original.
pub fn duplicate_nodes(cs: &Vec<Node>) -> (r: Vec<Node>)
    ensures
        nodes_view(r@) == nodes_view(cs@),
    decreases *cs,
{
    let mut r: Vec<Node> = Vec::new();
    let mut i: usize = 0;
    while i < cs.len()
        invariant
            i <= cs@.len(),
            r@.len() == i,
            forall|j: int| 0 <= j < i ==> node_view(#[trigger] r@[j]) == node_view(cs@[j]),
        decreases cs@.len() - i,
    {
        proof {
            assert(decreases_to!(*cs => cs@[i as int]));
        }
        r.push(duplicate_node(&cs[i]));
        i += 1;
    }
    proof {
        lemma_nodes_view(r@);
        lemma_nodes_view(cs@);
        assert(nodes_view(r@) =~= nodes_view(cs@));
    }
    r
}

} // verus!
