//! Handle-only layout persistence.
//!
//! The workspace persists a *handle* of its layout: the split-tree shape,
//! each tab stack's panel handles (kind plus the panel's own snapshot),
//! dock visibility and focus — never a panel's content. On relaunch the
//! [`PanelRegistry`] rebuilds each panel from its handle.
//!
//! This module converts between a live [`Workspace`] and a
//! [`LayoutSnapshot`]; encoding the snapshot and file IO belong to the
//! application.

use crate::shared::design::ThemeMode;
use crate::workspace::workspace_dock::{Dock, DockVisibility, Docks};
use crate::workspace::workspace_location::{DockSide, Pane, PanelLocation};
use crate::workspace::workspace_pane_grid::{Configuration, Node, PaneGrid, SplitAxis};
use crate::workspace::workspace_pane_state::{PaneState, PaneView};
use crate::workspace::workspace_panel::{HandleData, HandleView, Panel, PanelKind};
use crate::workspace::workspace_registry::PanelRegistry;
use crate::workspace::workspace_state::{at_rest, DockView, Workspace, WorkspaceView, DEFAULT_WINDOW_HEIGHT_BITS, DEFAULT_WINDOW_WIDTH_BITS};
use crate::workspace::workspace_drag::SizeBits;
use crate::workspace::workspace_stores::{AppStores, StoresModel};
use vstd::prelude::*;

verus! {

/// A panel reduced to its rehydration handle.
#[derive(Debug, Clone, PartialEq)]
pub struct PanelHandle {
    pub kind: PanelKind,
    pub snapshot: HandleData,
}

impl PanelHandle {
    pub open spec fn view(&self) -> (PanelKind, HandleView) {
        (self.kind, self.snapshot.view())
    }
}

/// A tab-stack snapshot: the panel handles in order and the active index.
#[derive(Debug, Clone, PartialEq)]
pub struct PaneSnapshot {
    pub tabs: Vec<PanelHandle>,
    pub active: usize,
}

/// The plain value of a tab-stack snapshot.
pub struct PaneSnapView {
    pub tabs: Seq<(PanelKind, HandleView)>,
    pub active: usize,
}

impl PaneSnapshot {
    pub open spec fn view(&self) -> PaneSnapView {
        PaneSnapView { tabs: self.tabs@.map_values(|h: PanelHandle| h.view()), active: self.active }
    }
}

/// The center tree: a split or a leaf carrying its tab stack. The ratio is
/// carried as its single precision bit pattern.
#[derive(Debug, PartialEq)]
pub enum CenterNode {
    Split { axis: SplitAxis, ratio_bits: u32, a: Box<CenterNode>, b: Box<CenterNode> },
    Pane(PaneSnapshot),
}

/// The plain value of a center tree snapshot.
pub enum CenterView {
    Split { axis: SplitAxis, ratio_bits: u32, a: Box<CenterView>, b: Box<CenterView> },
    Pane(PaneSnapView),
}

impl Clone for CenterNode {
    fn clone(&self) -> (r: Self)
        decreases self,
    {
        match self {
            CenterNode::Split { axis, ratio_bits, a, b } => {
                let ca = (**a).clone();
                let cb = (**b).clone();
                CenterNode::Split { axis: *axis, ratio_bits: *ratio_bits, a: Box::new(ca), b: Box::new(cb) }
            },
            CenterNode::Pane(p) => CenterNode::Pane(p.clone()),
        }
    }
}

impl CenterNode {
    pub open spec fn view(&self) -> CenterView
        decreases self,
    {
        match self {
            CenterNode::Split { axis, ratio_bits, a, b } => CenterView::Split {
                axis: *axis,
                ratio_bits: *ratio_bits,
                a: Box::new(a.view()),
                b: Box::new(b.view()),
            },
            CenterNode::Pane(p) => CenterView::Pane(p.view()),
        }
    }
}

/// One dock's persisted state.
#[derive(Debug, Clone, PartialEq)]
pub struct DockSnapshot {
    pub tabs: PaneSnapshot,
    pub visibility: DockVisibility,
    /// The bit pattern of the dock's single precision extent.
    pub extent_bits: u32,
}

pub struct DockSnapView {
    pub tabs: PaneSnapView,
    pub visibility: DockVisibility,
    pub extent_bits: u32,
}

impl DockSnapshot {
    pub open spec fn view(&self) -> DockSnapView {
        DockSnapView { tabs: self.tabs.view(), visibility: self.visibility, extent_bits: self.extent_bits }
    }
}

/// The persisted focus: a center pane by its leaf ordinal (depth first,
/// `a` before `b`), since pane ids are not stable across a rebuild; a dock
/// by its side.
#[derive(Debug, Clone, Copy, PartialEq, Eq, Structural)]
pub enum FocusSnapshot {
    Center(usize),
    Dock(DockSide),
}

/// The full persisted layout handle.
#[derive(Debug, Clone, PartialEq)]
pub struct LayoutSnapshot {
    pub center: CenterNode,
    pub left: DockSnapshot,
    pub right: DockSnapshot,
    pub bottom: DockSnapshot,
    pub focus: FocusSnapshot,
}

pub struct LayoutView {
    pub center: CenterView,
    pub left: DockSnapView,
    pub right: DockSnapView,
    pub bottom: DockSnapView,
    pub focus: FocusSnapshot,
}

impl LayoutSnapshot {
    pub open spec fn view(&self) -> LayoutView {
        LayoutView {
            center: self.center.view(),
            left: self.left.view(),
            right: self.right.view(),
            bottom: self.bottom.view(),
            focus: self.focus,
        }
    }
}

// ---- capture ------------------------------------------------------------------

/// The handles of the durable panels of `tabs`, in order.
pub open spec fn durable_handles<P: Panel>(tabs: Seq<P>, s: StoresModel) -> Seq<(PanelKind, HandleView)>
    decreases tabs.len(),
{
    if tabs.len() == 0 {
        Seq::empty()
    } else {
        let rest = durable_handles(tabs.drop_last(), s);
        match tabs.last().snapshot_spec(s) {
            Some(h) => rest.push((tabs.last().kind_spec(), h)),
            None => rest,
        }
    }
}

/// The captured active index: the focused tab's position among the
/// durable tabs; when the focused tab is not durable, the durable tab
/// before it (or the first); clamped to the durable tabs, zero when there
/// are none.
pub open spec fn captured_active<P: Panel>(pv: PaneView<P>, s: StoresModel) -> usize {
    let end: int = if pv.active < pv.tabs.len() { pv.active as int } else { pv.tabs.len() as int };
    let before = durable_handles(pv.tabs.take(end), s).len();
    let raw: int = if pv.active < pv.tabs.len() && pv.tabs[pv.active as int].snapshot_spec(s) is None {
        if before > 0 { before - 1 } else { 0 }
    } else {
        before as int
    };
    let n = durable_handles(pv.tabs, s).len();
    if n == 0 {
        0
    } else if raw < n {
        raw as usize
    } else {
        (n - 1) as usize
    }
}

/// A tab stack captured: its durable handles and the captured active index.
pub open spec fn captured_pane<P: Panel>(pv: PaneView<P>, s: StoresModel) -> PaneSnapView {
    PaneSnapView { tabs: durable_handles(pv.tabs, s), active: captured_active(pv, s) }
}

/// A subtree captured.
pub open spec fn captured_node<P: Panel>(n: Node, panes: Map<Pane, PaneView<P>>, s: StoresModel) -> CenterView
    decreases n,
{
    match n {
        Node::Split { axis, ratio_bits, a, b } => CenterView::Split {
            axis,
            ratio_bits,
            a: Box::new(captured_node(*a, panes, s)),
            b: Box::new(captured_node(*b, panes, s)),
        },
        Node::Pane(p) => CenterView::Pane(captured_pane(panes[p], s)),
    }
}

/// The ordinal of `p` among the leaves; zero when it is not a leaf.
pub open spec fn leaf_ordinal(leaves: Seq<Pane>, p: Pane) -> usize {
    if leaves.contains(p) {
        (choose|i: int| 0 <= i < leaves.len() && leaves[i] == p) as usize
    } else {
        0
    }
}

/// A workspace captured over `s`.
pub open spec fn captured<P: Panel>(v: WorkspaceView<P>, s: StoresModel) -> LayoutView {
    LayoutView {
        center: captured_node(v.grid.layout, v.grid.panes, s),
        left: DockSnapView { tabs: captured_pane(v.left.tabs, s), visibility: v.left.visibility, extent_bits: v.left.extent_bits },
        right: DockSnapView { tabs: captured_pane(v.right.tabs, s), visibility: v.right.visibility, extent_bits: v.right.extent_bits },
        bottom: DockSnapView { tabs: captured_pane(v.bottom.tabs, s), visibility: v.bottom.visibility, extent_bits: v.bottom.extent_bits },
        focus: match v.focused {
            PanelLocation::Center(p) => FocusSnapshot::Center(leaf_ordinal(v.grid.layout.leaves(), p)),
            PanelLocation::Dock(side) => FocusSnapshot::Dock(side),
        },
    }
}

/// A snapshot records each dock's own visibility and extent: the left,
/// right and bottom entries come from the left, right and bottom docks.
pub proof fn law_capture_keeps_docks<P: Panel>(v: WorkspaceView<P>, s: StoresModel)
    ensures
        captured(v, s).left.visibility == v.left.visibility,
        captured(v, s).right.visibility == v.right.visibility,
        captured(v, s).bottom.visibility == v.bottom.visibility,
        captured(v, s).left.extent_bits == v.left.extent_bits,
        captured(v, s).right.extent_bits == v.right.extent_bits,
        captured(v, s).bottom.extent_bits == v.bottom.extent_bits,
{
}

/// Capture a tab stack.
pub fn capture_pane<P: Panel>(pane_state: &PaneState<P>, stores: &AppStores) -> (r: PaneSnapshot)
    ensures
        r.view() == captured_pane(pane_state@, stores.model()),
{
    let ghost s = stores.model();
    let ghost tabs = pane_state.tabs@;
    let n = pane_state.tabs.len();
    let active = pane_state.active;
    let mut out: Vec<PanelHandle> = Vec::new();
    let mut new_active: usize = 0;
    let mut i: usize = 0;
    while i < n
        invariant
            n == tabs.len(),
            tabs == pane_state.tabs@,
            active == pane_state.active,
            s == stores.model(),
            i <= n,
            out@.map_values(|h: PanelHandle| h.view()) == durable_handles(tabs.take(i as int), s),
            new_active <= i,
            i <= active ==> new_active == durable_handles(tabs.take(i as int), s).len(),
            i > active ==> new_active == (if tabs[active as int].snapshot_spec(s) is None {
                let before = durable_handles(tabs.take(active as int), s).len();
                if before > 0 { before - 1 } else { 0 }
            } else {
                durable_handles(tabs.take(active as int), s).len() as int
            }),
        decreases n - i,
    {
        let panel = &pane_state.tabs[i];
        let snap = panel.snapshot(stores);
        proof {
            assert(tabs.take(i + 1).drop_last() =~= tabs.take(i as int));
            assert(tabs.take(i + 1).last() == tabs[i as int]);
        }
        match snap {
            Some(h) => {
                if i < active {
                    new_active = new_active + 1;
                }
                let kind = panel.kind();
                let ghost before = out@;
                out.push(PanelHandle { kind, snapshot: h });
                proof {
                    assert(out@.map_values(|h: PanelHandle| h.view()) =~= before.map_values(|h: PanelHandle| h.view()).push((kind, h.view())));
                }
            },
            None => {
                if i == active {
                    new_active = if new_active > 0 { new_active - 1 } else { 0 };
                }
            },
        }
        i = i + 1;
    }
    proof {
        assert(tabs.take(n as int) =~= tabs);
    }
    let len = out.len();
    if len == 0 {
        new_active = 0;
    } else if new_active > len - 1 {
        new_active = len - 1;
    }
    let r = PaneSnapshot { tabs: out, active: new_active };
    proof {
        let end: int = if active < tabs.len() { active as int } else { tabs.len() as int };
        if active >= n {
            assert(tabs.take(end) =~= tabs);
        }
    }
    r
}


/// Capture a subtree whose leaves all have state in `panes`.
fn capture_node<P: Panel>(node: &Node, panes: &PaneGrid<PaneState<P>>, stores: &AppStores) -> (r: CenterNode)
    requires
        panes.wf(),
        forall|q: Pane| #[trigger] node.leaves().contains(q) ==> panes.model().panes.contains_key(q),
    ensures
        r.view() == captured_node(*node, panes.model().panes.map_values(|ps: PaneState<P>| ps@), stores.model()),
    decreases node,
{
    match node {
        Node::Split { axis, ratio_bits, a, b } => {
            proof {
                crate::workspace::workspace_pane_grid::lemma_concat_contains(a.leaves(), b.leaves());
                assert(node.leaves() == a.leaves() + b.leaves());
                assert forall|q: Pane| #[trigger] a.leaves().contains(q) implies panes.model().panes.contains_key(q) by {
                    assert(node.leaves().contains(q));
                }
                assert forall|q: Pane| #[trigger] b.leaves().contains(q) implies panes.model().panes.contains_key(q) by {
                    assert(node.leaves().contains(q));
                }
            }
            let ca = capture_node(a, panes, stores);
            let cb = capture_node(b, panes, stores);
            CenterNode::Split { axis: *axis, ratio_bits: *ratio_bits, a: Box::new(ca), b: Box::new(cb) }
        },
        Node::Pane(p) => {
            proof {
                assert(node.leaves()[0] == *p);
                assert(node.leaves().contains(*p));
            }
            match panes.get(*p) {
                Some(ps) => CenterNode::Pane(capture_pane(ps, stores)),
                None => {
                    proof {
                        assert(false);
                    }
                    CenterNode::Pane(PaneSnapshot { tabs: Vec::new(), active: 0 })
                },
            }
        },
    }
}

/// Append the leaves of `node`, depth first, `a` before `b`.
fn collect_leaves(node: &Node, out: &mut Vec<Pane>)
    ensures
        final(out)@ == old(out)@ + node.leaves(),
    decreases node,
{
    match node {
        Node::Split { a, b, .. } => {
            collect_leaves(a, out);
            collect_leaves(b, out);
            proof {
                assert(out@ =~= old(out)@ + (a.leaves() + b.leaves()));
            }
        },
        Node::Pane(p) => {
            out.push(*p);
            proof {
                assert(out@ =~= old(out)@ + seq![*p]);
            }
        },
    }
}

/// The ordinal of `p` among duplicate-free `leaves`, zero when absent.
fn ordinal_of(leaves: &Vec<Pane>, p: Pane) -> (r: usize)
    requires
        leaves@.no_duplicates(),
    ensures
        r == leaf_ordinal(leaves@, p),
{
    let n = leaves.len();
    let mut i: usize = 0;
    while i < n
        invariant
            n == leaves@.len(),
            leaves@.no_duplicates(),
            i <= n,
            forall|j: int| 0 <= j < i ==> leaves@[j] != p,
        decreases n - i,
    {
        if leaves[i] == p {
            proof {
                assert(leaves@.contains(p));
                let j = choose|j: int| 0 <= j < leaves@.len() && leaves@[j] == p;
                assert(j == i);
            }
            return i;
        }
        i = i + 1;
    }
    proof {
        if leaves@.contains(p) {
            let j = choose|j: int| 0 <= j < leaves@.len() && leaves@[j] == p;
        }
    }
    0
}

/// Capture the workspace's layout as a handle-only snapshot; each panel's
/// handle reads from `stores`.
pub fn capture<P: Panel>(workspace: &Workspace<P>, stores: &AppStores) -> (r: LayoutSnapshot)
    requires
        workspace.wf(),
    ensures
        r.view() == captured(workspace@, stores.model()),
        r.left.visibility == workspace@.left.visibility,
        r.right.visibility == workspace@.right.visibility,
        r.bottom.visibility == workspace@.bottom.visibility,
        r.left.extent_bits == workspace@.left.extent_bits,
        r.right.extent_bits == workspace@.right.extent_bits,
        r.bottom.extent_bits == workspace@.bottom.extent_bits,
{
    proof {
        workspace.lemma_view_parts();
        law_capture_keeps_docks(workspace@, stores.model());
    }
    let layout = workspace.panes.layout();
    let center = capture_node(layout, &workspace.panes, stores);
    let mut leaves: Vec<Pane> = Vec::new();
    collect_leaves(layout, &mut leaves);
    proof {
        assert(leaves@ =~= layout.leaves());
    }
    let focus = match workspace.focused {
        PanelLocation::Center(pane) => FocusSnapshot::Center(ordinal_of(&leaves, pane)),
        PanelLocation::Dock(side) => FocusSnapshot::Dock(side),
    };
    LayoutSnapshot {
        center,
        left: DockSnapshot {
            tabs: capture_pane(&workspace.docks.left.tabs, stores),
            visibility: workspace.docks.left.visibility,
            extent_bits: workspace.docks.left.extent_bits,
        },
        right: DockSnapshot {
            tabs: capture_pane(&workspace.docks.right.tabs, stores),
            visibility: workspace.docks.right.visibility,
            extent_bits: workspace.docks.right.extent_bits,
        },
        bottom: DockSnapshot {
            tabs: capture_pane(&workspace.docks.bottom.tabs, stores),
            visibility: workspace.docks.bottom.visibility,
            extent_bits: workspace.docks.bottom.extent_bits,
        },
        focus,
    }
}


// ---- restore ------------------------------------------------------------------

/// The handles whose kind is registered, in order.
pub open spec fn registered_handles(hs: Seq<(PanelKind, HandleView)>, reg: Set<PanelKind>) -> Seq<(PanelKind, HandleView)>
    decreases hs.len(),
{
    if hs.len() == 0 {
        Seq::empty()
    } else {
        let rest = registered_handles(hs.drop_last(), reg);
        if reg.contains(hs.last().0) {
            rest.push(hs.last())
        } else {
            rest
        }
    }
}

/// `panels` were rehydrated from `hs` in order, the stores passing through
/// `trace`.
pub open spec fn rehydrated<P: Panel>(hs: Seq<(PanelKind, HandleView)>, trace: Seq<StoresModel>, panels: Seq<P>) -> bool {
    &&& panels.len() == hs.len()
    &&& trace.len() == hs.len() + 1
    &&& forall|i: int|
        0 <= i < hs.len() ==> P::rehydrate_post(hs[i].0, hs[i].1, trace[i], #[trigger] panels[i], trace[i + 1])
}

/// A tab stack restored from `snap` over stores `s`, leaving `t`: the
/// registered handles rebuilt in order (the others dropped), the active
/// index clamped to the surviving tabs (zero when none survive).
pub open spec fn pane_restored<P: Panel>(snap: PaneSnapView, reg: Set<PanelKind>, s: StoresModel, pv: PaneView<P>, t: StoresModel) -> bool {
    let hs = registered_handles(snap.tabs, reg);
    &&& exists|trace: Seq<StoresModel>| #[trigger] rehydrated(hs, trace, pv.tabs) && trace[0] == s && trace.last() == t
    &&& pv.active == clamped_active(snap.active, hs.len())
}

/// An active index clamped to `n` tabs: kept when in range, the last tab
/// otherwise, zero when there are none.
pub open spec fn clamped_active(active: usize, n: nat) -> usize {
    if active < n {
        active
    } else if n > 0 {
        (n - 1) as usize
    } else {
        0
    }
}

/// Rebuild a tab stack through the registry.
pub fn restore_pane<P: Panel>(snapshot: &PaneSnapshot, registry: &PanelRegistry, stores: &mut AppStores) -> (r: PaneState<P>)
    requires
        old(stores).wf(),
        P::room(old(stores).model(), snapshot.tabs@.len() as nat),
    ensures
        final(stores).wf(),
        r.wf(),
        pane_restored(snapshot.view(), registry.registered(), old(stores).model(), r@, final(stores).model()),
        forall|n: nat|
            P::room(old(stores).model(), (n + snapshot.tabs@.len()) as nat) ==> #[trigger] P::room(final(stores).model(), n),
{
    let ghost reg = registry.registered();
    let ghost s0 = stores.model();
    let ghost hs_all = snapshot.view().tabs;
    let n = snapshot.tabs.len();
    let mut tabs: Vec<P> = Vec::new();
    let ghost mut trace: Seq<StoresModel> = seq![s0];
    let mut i: usize = 0;
    while i < n
        invariant
            n == snapshot.tabs@.len(),
            hs_all == snapshot.view().tabs,
            reg == registry.registered(),
            i <= n,
            stores.wf(),
            P::room(stores.model(), (n - i) as nat),
            forall|m: nat| P::room(s0, (m + n) as nat) ==> #[trigger] P::room(stores.model(), (m + (n - i)) as nat),
            rehydrated(registered_handles(hs_all.take(i as int), reg), trace, tabs@),
            trace[0] == s0,
            trace.last() == stores.model(),
        decreases n - i,
    {
        let handle = &snapshot.tabs[i];
        let ghost sm = stores.model();
        let ghost old_tabs = tabs@;
        let ghost old_trace = trace;
        proof {
            P::lemma_room_mono(sm, (n - i) as nat, 1);
            assert(hs_all.take(i + 1).drop_last() =~= hs_all.take(i as int));
            assert(hs_all.take(i + 1).last() == hs_all[i as int]);
            assert(hs_all[i as int] == handle.view());
        }
        let built = registry.build::<P>(handle.kind, &handle.snapshot, stores);
        match built {
            Some(panel) => {
                tabs.push(panel);
                proof {
                    trace = trace.push(stores.model());
                    let hs = registered_handles(hs_all.take(i + 1), reg);
                    let hs0 = registered_handles(hs_all.take(i as int), reg);
                    assert(hs == hs0.push(hs_all[i as int]));
                    assert forall|k: int| 0 <= k < hs.len() implies P::rehydrate_post(hs[k].0, hs[k].1, trace[k], #[trigger] tabs@[k], trace[k + 1]) by {
                        if k < hs0.len() {
                            assert(tabs@[k] == old_tabs[k]);
                            assert(trace[k] == old_trace[k]);
                            assert(trace[k + 1] == old_trace[k + 1]);
                        }
                    }
                    assert forall|m: nat| P::room(s0, (m + n) as nat) implies #[trigger] P::room(stores.model(), (m + (n - i - 1)) as nat) by {
                        assert(P::room(sm, (m + (n - i)) as nat));
                        assert((m + (n - i - 1)) + 1 == m + (n - i));
                    }
                    assert(P::room(sm, ((n - i - 1) as nat) + 1));
                }
            },
            None => {
                proof {
                    let hs = registered_handles(hs_all.take(i + 1), reg);
                    let hs0 = registered_handles(hs_all.take(i as int), reg);
                    assert(hs == hs0);
                    assert forall|m: nat| P::room(s0, (m + n) as nat) implies #[trigger] P::room(stores.model(), (m + (n - i - 1)) as nat) by {
                        assert(P::room(sm, (m + (n - i)) as nat));
                        P::lemma_room_mono(sm, (m + (n - i)) as nat, (m + (n - i - 1)) as nat);
                    }
                    P::lemma_room_mono(sm, (n - i) as nat, (n - i - 1) as nat);
                }
            },
        }
        i = i + 1;
    }
    proof {
        assert(hs_all.take(n as int) =~= hs_all);
    }
    let mut ps = PaneState::new(tabs);
    if snapshot.active < ps.tabs.len() {
        ps.active = snapshot.active;
    } else if ps.tabs.len() > 0 {
        ps.active = ps.tabs.len() - 1;
    }
    proof {
        let hs = registered_handles(hs_all, reg);
        assert(rehydrated(hs, trace, ps@.tabs) && trace[0] == s0 && trace.last() == stores.model());
        assert forall|m: nat| P::room(s0, (m + snapshot.tabs@.len()) as nat) implies #[trigger] P::room(stores.model(), m) by {
            assert(P::room(stores.model(), (m + (n - n)) as nat));
        }
    }
    ps
}


/// The leaf tab stacks of a center snapshot, depth first.
pub open spec fn center_leaves(cv: CenterView) -> Seq<PaneSnapView>
    decreases cv,
{
    match cv {
        CenterView::Split { a, b, .. } => center_leaves(*a) + center_leaves(*b),
        CenterView::Pane(p) => seq![p],
    }
}

/// Number of nodes of a center snapshot.
pub open spec fn center_size(cv: CenterView) -> nat
    decreases cv,
{
    match cv {
        CenterView::Split { a, b, .. } => center_size(*a) + center_size(*b) + 1,
        CenterView::Pane(_) => 1,
    }
}

/// Number of panel handles in a center snapshot.
pub open spec fn center_tab_count(cv: CenterView) -> nat
    decreases cv,
{
    match cv {
        CenterView::Split { a, b, .. } => center_tab_count(*a) + center_tab_count(*b),
        CenterView::Pane(p) => p.tabs.len(),
    }
}

/// The split tree a center snapshot rebuilds when ids start at `next`:
/// leaves get ids depth first, each split the id after its children;
/// also the next free id.
pub open spec fn center_built(cv: CenterView, next: int) -> (Node, int)
    decreases cv,
{
    match cv {
        CenterView::Split { axis, ratio_bits, a, b } => {
            let (na, next_a) = center_built(*a, next);
            let (nb, next_b) = center_built(*b, next_a);
            (Node::Split { axis, ratio_bits, a: Box::new(na), b: Box::new(nb) }, next_b + 1)
        },
        CenterView::Pane(_) => (Node::Pane(Pane(next as usize)), next + 1),
    }
}

/// A configuration has the shape of a center snapshot.
pub open spec fn config_matches<P>(c: Configuration<PaneState<P>>, cv: CenterView) -> bool
    decreases cv,
{
    match cv {
        CenterView::Split { axis, ratio_bits, a, b } => match c {
            Configuration::Split { axis: x, ratio_bits: r, a: ca, b: cb } => x == axis && r == ratio_bits
                && config_matches(*ca, *a) && config_matches(*cb, *b),
            Configuration::Pane(_) => false,
        },
        CenterView::Pane(_) => c is Pane,
    }
}

/// Tab stacks `pvs` restored from `snaps` in order, the stores passing
/// through `trace`.
pub open spec fn restored_chain<P: Panel>(snaps: Seq<PaneSnapView>, reg: Set<PanelKind>, trace: Seq<StoresModel>, pvs: Seq<PaneView<P>>) -> bool {
    &&& pvs.len() == snaps.len()
    &&& trace.len() == snaps.len() + 1
    &&& forall|i: int| 0 <= i < snaps.len() ==> pane_restored(#[trigger] snaps[i], reg, trace[i], pvs[i], trace[i + 1])
}

/// The views of a configuration's leaf states.
pub open spec fn config_views<P>(c: Configuration<PaneState<P>>) -> Seq<PaneView<P>> {
    c.states().map_values(|ps: PaneState<P>| ps@)
}

proof fn lemma_config_matches<P>(c: Configuration<PaneState<P>>, cv: CenterView, next: int)
    requires
        config_matches(c, cv),
    ensures
        c.built(next).0 == center_built(cv, next).0,
        c.built(next).2 == center_built(cv, next).1,
        c.size() == center_size(cv),
        c.states().len() == center_leaves(cv).len(),
    decreases cv,
{
    match cv {
        CenterView::Split { axis, ratio_bits, a, b } => match c {
            Configuration::Split { a: ca, b: cb, .. } => {
                lemma_config_matches(*ca, *a, next);
                lemma_config_matches(*cb, *b, ca.built(next).2);
            },
            Configuration::Pane(_) => {},
        },
        CenterView::Pane(_) => {},
    }
}

proof fn lemma_chain_concat<P: Panel>(
    sa: Seq<PaneSnapView>,
    sb: Seq<PaneSnapView>,
    reg: Set<PanelKind>,
    ta: Seq<StoresModel>,
    tb: Seq<StoresModel>,
    pa: Seq<PaneView<P>>,
    pb: Seq<PaneView<P>>,
)
    requires
        restored_chain(sa, reg, ta, pa),
        restored_chain(sb, reg, tb, pb),
        ta.last() == tb[0],
    ensures
        restored_chain(sa + sb, reg, ta + tb.drop_first(), pa + pb),
        (ta + tb.drop_first())[0] == ta[0],
        (ta + tb.drop_first()).last() == tb.last(),
{
    let s = sa + sb;
    let t = ta + tb.drop_first();
    let p = pa + pb;
    assert forall|i: int| 0 <= i < s.len() implies pane_restored(#[trigger] s[i], reg, t[i], p[i], t[i + 1]) by {
        if i < sa.len() {
            assert(s[i] == sa[i] && p[i] == pa[i] && t[i] == ta[i]);
            if i + 1 < ta.len() {
                assert(t[i + 1] == ta[i + 1]);
            }
        } else {
            let j = i - sa.len();
            assert(s[i] == sb[j] && p[i] == pb[j]);
            assert(t[i + 1] == tb[j + 1]);
            if j == 0 {
                assert(t[i] == ta.last());
            } else {
                assert(t[i] == tb[j]);
            }
        }
    }
}

/// Rebuild a center subtree as a configuration.
fn restore_config<P: Panel>(node: &CenterNode, registry: &PanelRegistry, stores: &mut AppStores) -> (r: Configuration<PaneState<P>>)
    requires
        old(stores).wf(),
        P::room(old(stores).model(), center_tab_count(node.view())),
    ensures
        final(stores).wf(),
        config_matches(r, node.view()),
        forall|i: int| 0 <= i < r.states().len() ==> (#[trigger] r.states()[i]).wf(),
        exists|trace: Seq<StoresModel>| #[trigger] restored_chain(center_leaves(node.view()), registry.registered(), trace, config_views(r))
            && trace[0] == old(stores).model() && trace.last() == final(stores).model(),
        forall|m: nat|
            P::room(old(stores).model(), (m + center_tab_count(node.view())) as nat) ==> #[trigger] P::room(final(stores).model(), m),
    decreases node,
{
    let ghost s0 = stores.model();
    let ghost reg = registry.registered();
    match node {
        CenterNode::Split { axis, ratio_bits, a, b } => {
            proof {
                P::lemma_room_mono(s0, center_tab_count(node.view()), center_tab_count(a.view()));
            }
            let ca = restore_config(a, registry, stores);
            let ghost s1 = stores.model();
            proof {
                assert(P::room(s0, (center_tab_count(b.view()) + center_tab_count(a.view())) as nat));
                assert(P::room(s1, center_tab_count(b.view())));
            }
            let cb = restore_config(b, registry, stores);
            let r = Configuration::Split { axis: *axis, ratio_bits: *ratio_bits, a: Box::new(ca), b: Box::new(cb) };
            proof {
                let ta = choose|trace: Seq<StoresModel>| #[trigger] restored_chain(center_leaves(a.view()), reg, trace, config_views(ca))
                    && trace[0] == s0 && trace.last() == s1;
                let tb = choose|trace: Seq<StoresModel>| #[trigger] restored_chain(center_leaves(b.view()), reg, trace, config_views(cb))
                    && trace[0] == s1 && trace.last() == stores.model();
                lemma_chain_concat(center_leaves(a.view()), center_leaves(b.view()), reg, ta, tb, config_views(ca), config_views(cb));
                assert(config_views(r) =~= config_views(ca) + config_views(cb));
                assert(restored_chain(center_leaves(node.view()), reg, ta + tb.drop_first(), config_views(r)));
                assert forall|i: int| 0 <= i < r.states().len() implies (#[trigger] r.states()[i]).wf() by {
                    if i < ca.states().len() {
                        assert(r.states()[i] == ca.states()[i]);
                    } else {
                        assert(r.states()[i] == cb.states()[i - ca.states().len()]);
                    }
                }
                assert forall|m: nat| P::room(s0, (m + center_tab_count(node.view())) as nat) implies #[trigger] P::room(stores.model(), m) by {
                    assert(P::room(s0, ((m + center_tab_count(b.view())) + center_tab_count(a.view())) as nat));
                    assert(P::room(s1, (m + center_tab_count(b.view())) as nat));
                }
            }
            r
        },
        CenterNode::Pane(snapshot) => {
            let ps = restore_pane(snapshot, registry, stores);
            let r = Configuration::Pane(ps);
            proof {
                let tr = seq![s0, stores.model()];
                assert(config_views(r) =~= seq![ps@]);
                assert(center_leaves(node.view()) =~= seq![snapshot.view()]);
                assert(restored_chain(center_leaves(node.view()), reg, tr, config_views(r)));
                assert(r.states() =~= seq![ps]);
            }
            r
        },
    }
}


/// The tab-stack snapshots of a layout in restore order: the center
/// leaves depth first, then the left, right and bottom docks.
pub open spec fn layout_snaps(lv: LayoutView) -> Seq<PaneSnapView> {
    center_leaves(lv.center) + dock_snaps(lv)
}

/// Number of panel handles in a layout.
pub open spec fn layout_tab_count(lv: LayoutView) -> nat {
    center_tab_count(lv.center) + lv.left.tabs.tabs.len() + lv.right.tabs.tabs.len() + lv.bottom.tabs.tabs.len()
}

/// A workspace `w` restored from `lv` over stores `s`, leaving `t`: the
/// split tree rebuilt with fresh ids (leaves depth first, each split the
/// id after its children), every tab stack restored through the registry
/// in order, docks with their persisted visibility and extents,
/// and focus on the dock, or on the center leaf at the persisted ordinal
/// (the first leaf when the ordinal is out of range).
pub open spec fn layout_restored<P: Panel>(lv: LayoutView, reg: Set<PanelKind>, s: StoresModel, w: WorkspaceView<P>, t: StoresModel) -> bool {
    let n = center_leaves(lv.center).len();
    let layout = center_built(lv.center, 0).0;
    let ids = layout.leaves();
    exists|trace: Seq<StoresModel>, pvs: Seq<PaneView<P>>| {
        &&& #[trigger] restored_chain(layout_snaps(lv), reg, trace, pvs)
        &&& trace[0] == s
        &&& trace.last() == t
        &&& w.grid.layout == layout
        &&& w.grid.last_id == center_built(lv.center, 0).1
        &&& ids.len() == n
        &&& (forall|p: Pane| #[trigger] w.grid.panes.contains_key(p) <==> ids.contains(p))
        &&& (forall|i: int| 0 <= i < n ==> w.grid.panes[#[trigger] ids[i]] == pvs[i])
        &&& w.left == (DockView { tabs: pvs[n as int], visibility: lv.left.visibility, extent_bits: lv.left.extent_bits })
        &&& w.right == (DockView { tabs: pvs[n + 1int], visibility: lv.right.visibility, extent_bits: lv.right.extent_bits })
        &&& w.bottom == (DockView { tabs: pvs[n + 2int], visibility: lv.bottom.visibility, extent_bits: lv.bottom.extent_bits })
        &&& w.focused == (match lv.focus {
            FocusSnapshot::Center(o) => PanelLocation::Center(if o < n { ids[o as int] } else { ids[0] }),
            FocusSnapshot::Dock(side) => PanelLocation::Dock(side),
        })
    }
}

/// Restoring a captured layout gives every dock back its own visibility
/// and extent: a dock that was hidden comes back hidden, an open one open,
/// a collapsed one collapsed; a focused dock has focus again.
pub proof fn law_restore_keeps_docks<P: Panel>(
    v: WorkspaceView<P>,
    s: StoresModel,
    reg: Set<PanelKind>,
    s0: StoresModel,
    w: WorkspaceView<P>,
    t: StoresModel,
)
    requires
        layout_restored(captured(v, s), reg, s0, w, t),
    ensures
        forall|side: DockSide| #[trigger] w.dock(side).visibility == v.dock(side).visibility,
        forall|side: DockSide| #[trigger] w.dock(side).extent_bits == v.dock(side).extent_bits,
        v.focused is Dock ==> w.focused == v.focused,
{
    law_capture_keeps_docks(v, s);
    let lv = captured(v, s);
    let n = center_leaves(lv.center).len();
    let layout = center_built(lv.center, 0).0;
    let ids = layout.leaves();
    let (trace, pvs) = choose|trace: Seq<StoresModel>, pvs: Seq<PaneView<P>>| {
        &&& #[trigger] restored_chain(layout_snaps(lv), reg, trace, pvs)
        &&& trace[0] == s0
        &&& trace.last() == t
        &&& w.grid.layout == layout
        &&& w.grid.last_id == center_built(lv.center, 0).1
        &&& ids.len() == n
        &&& (forall|p: Pane| #[trigger] w.grid.panes.contains_key(p) <==> ids.contains(p))
        &&& (forall|i: int| 0 <= i < n ==> w.grid.panes[#[trigger] ids[i]] == pvs[i])
        &&& w.left == (DockView { tabs: pvs[n as int], visibility: lv.left.visibility, extent_bits: lv.left.extent_bits })
        &&& w.right == (DockView { tabs: pvs[n + 1int], visibility: lv.right.visibility, extent_bits: lv.right.extent_bits })
        &&& w.bottom == (DockView { tabs: pvs[n + 2int], visibility: lv.bottom.visibility, extent_bits: lv.bottom.extent_bits })
        &&& w.focused == (match lv.focus {
            FocusSnapshot::Center(o) => PanelLocation::Center(if o < n { ids[o as int] } else { ids[0] }),
            FocusSnapshot::Dock(side) => PanelLocation::Dock(side),
        })
    };
    assert forall|side: DockSide| #[trigger] w.dock(side).visibility == v.dock(side).visibility by {
        match side {
            DockSide::Left => {},
            DockSide::Right => {},
            DockSide::Bottom => {},
        }
    }
    assert forall|side: DockSide| #[trigger] w.dock(side).extent_bits == v.dock(side).extent_bits by {
        match side {
            DockSide::Left => {},
            DockSide::Right => {},
            DockSide::Bottom => {},
        }
    }
}

proof fn lemma_center_leaves_nonempty(cv: CenterView)
    ensures
        center_leaves(cv).len() >= 1,
    decreases cv,
{
    match cv {
        CenterView::Split { a, b, .. } => {
            lemma_center_leaves_nonempty(*a);
        },
        CenterView::Pane(_) => {},
    }
}

/// The center of a snapshot rebuilt as a split tree.
fn restore_grid<P: Panel>(center: &CenterNode, registry: &PanelRegistry, stores: &mut AppStores) -> (g: PaneGrid<PaneState<P>>)
    requires
        old(stores).wf(),
        P::room(old(stores).model(), center_tab_count(center.view())),
        center_size(center.view()) <= usize::MAX,
    ensures
        final(stores).wf(),
        g.wf(),
        forall|p: Pane| #[trigger] g.model().panes.contains_key(p) ==> g.model().panes[p].wf(),
        g.model().layout == center_built(center.view(), 0).0,
        g.model().last_id == center_built(center.view(), 0).1,
        g.order() == center_built(center.view(), 0).0.leaves(),
        center_built(center.view(), 0).0.leaves().len() == center_leaves(center.view()).len(),
        center_leaves(center.view()).len() >= 1,
        forall|p: Pane| #[trigger] g.model().panes.contains_key(p) <==> center_built(center.view(), 0).0.leaves().contains(p),
        exists|trace: Seq<StoresModel>, pvs: Seq<PaneView<P>>| {
            &&& #[trigger] restored_chain(center_leaves(center.view()), registry.registered(), trace, pvs)
            &&& trace[0] == old(stores).model()
            &&& trace.last() == final(stores).model()
            &&& forall|i: int| 0 <= i < pvs.len() ==> g.model().panes[#[trigger] center_built(center.view(), 0).0.leaves()[i]]@ == pvs[i]
        },
        forall|m: nat|
            P::room(old(stores).model(), (m + center_tab_count(center.view())) as nat) ==> #[trigger] P::room(final(stores).model(), m),
{
    let ghost cv = center.view();
    let ghost reg = registry.registered();
    let ghost s0 = stores.model();
    proof {
        lemma_center_leaves_nonempty(cv);
    }
    let config = restore_config(center, registry, stores);
    let ghost c = config;
    proof {
        lemma_config_matches(c, cv, 0);
    }
    let g = PaneGrid::with_configuration(config);
    proof {
        lemma_grid_from_config(g, c, cv, reg, s0, stores.model());
    }
    g
}

proof fn lemma_grid_from_config<P: Panel>(
    g: PaneGrid<PaneState<P>>,
    c: Configuration<PaneState<P>>,
    cv: CenterView,
    reg: Set<PanelKind>,
    s0: StoresModel,
    s1: StoresModel,
)
    requires
        g.wf(),
        config_matches(c, cv),
        g.model().layout == c.built(0).0,
        g.model().last_id == c.built(0).2,
        g.order() == c.built(0).0.leaves(),
        c.states().len() == c.built(0).0.leaves().len(),
        forall|i: int| 0 <= i < c.states().len() ==> g.model().panes.contains_key(#[trigger] c.built(0).0.leaves()[i])
            && g.model().panes[c.built(0).0.leaves()[i]] == c.states()[i],
        forall|i: int| 0 <= i < c.states().len() ==> (#[trigger] c.states()[i]).wf(),
        exists|trace: Seq<StoresModel>| #[trigger] restored_chain(center_leaves(cv), reg, trace, config_views(c))
            && trace[0] == s0 && trace.last() == s1,
    ensures
        forall|p: Pane| #[trigger] g.model().panes.contains_key(p) ==> g.model().panes[p].wf(),
        g.model().layout == center_built(cv, 0).0,
        g.model().last_id == center_built(cv, 0).1,
        g.order() == center_built(cv, 0).0.leaves(),
        center_built(cv, 0).0.leaves().len() == center_leaves(cv).len(),
        forall|p: Pane| #[trigger] g.model().panes.contains_key(p) <==> center_built(cv, 0).0.leaves().contains(p),
        exists|trace: Seq<StoresModel>, pvs: Seq<PaneView<P>>| {
            &&& #[trigger] restored_chain(center_leaves(cv), reg, trace, pvs)
            &&& trace[0] == s0
            &&& trace.last() == s1
            &&& forall|i: int| 0 <= i < pvs.len() ==> g.model().panes[#[trigger] center_built(cv, 0).0.leaves()[i]]@ == pvs[i]
        },
{
    lemma_config_matches(c, cv, 0);
    let ids = c.built(0).0.leaves();
    g.lemma_wf();
    assert forall|p: Pane| #[trigger] g.model().panes.contains_key(p) <==> ids.contains(p) by {
        assert(g.order().contains(p) <==> g.model().panes.contains_key(p));
    }
    assert forall|p: Pane| #[trigger] g.model().panes.contains_key(p) implies g.model().panes[p].wf() by {
        let i = choose|i: int| 0 <= i < ids.len() && ids[i] == p;
        assert(c.states()[i].wf());
    }
    let tc = choose|trace: Seq<StoresModel>| #[trigger] restored_chain(center_leaves(cv), reg, trace, config_views(c))
        && trace[0] == s0 && trace.last() == s1;
    assert forall|i: int| 0 <= i < config_views(c).len() implies g.model().panes[#[trigger] ids[i]]@ == config_views(c)[i] by {
        assert(g.model().panes[ids[i]] == c.states()[i]);
    }
    assert(restored_chain(center_leaves(cv), reg, tc, config_views(c)));
}

/// The dock tab-stack snapshots, left, right then bottom.
pub open spec fn dock_snaps(lv: LayoutView) -> Seq<PaneSnapView> {
    seq![lv.left.tabs, lv.right.tabs, lv.bottom.tabs]
}

/// The dock tab stacks, left, right then bottom.
pub open spec fn dock_views<P>(d: Docks<P>) -> Seq<PaneView<P>> {
    seq![d.left.tabs@, d.right.tabs@, d.bottom.tabs@]
}

/// The docks of a snapshot rebuilt, left, right then bottom.
fn restore_docks<P: Panel>(snapshot: &LayoutSnapshot, registry: &PanelRegistry, stores: &mut AppStores) -> (d: Docks<P>)
    requires
        old(stores).wf(),
        P::room(old(stores).model(), (snapshot.view().left.tabs.tabs.len() + snapshot.view().right.tabs.tabs.len() + snapshot.view().bottom.tabs.tabs.len()) as nat),
    ensures
        final(stores).wf(),
        d.wf(),
        d.left.visibility == snapshot.left.visibility && d.left.extent_bits == snapshot.left.extent_bits,
        d.right.visibility == snapshot.right.visibility && d.right.extent_bits == snapshot.right.extent_bits,
        d.bottom.visibility == snapshot.bottom.visibility && d.bottom.extent_bits == snapshot.bottom.extent_bits,
        exists|trace: Seq<StoresModel>| {
            &&& #[trigger] restored_chain(dock_snaps(snapshot.view()), registry.registered(), trace, dock_views(d))
            &&& trace[0] == old(stores).model()
            &&& trace.last() == final(stores).model()
        },
        forall|m: nat|
            P::room(old(stores).model(), (m + snapshot.view().left.tabs.tabs.len() + snapshot.view().right.tabs.tabs.len() + snapshot.view().bottom.tabs.tabs.len()) as nat)
                ==> #[trigger] P::room(final(stores).model(), m),
{
    let ghost lv = snapshot.view();
    let ghost reg = registry.registered();
    let ghost s1 = stores.model();
    proof {
        let rest = (lv.left.tabs.tabs.len() + lv.right.tabs.tabs.len() + lv.bottom.tabs.tabs.len()) as nat;
        P::lemma_room_mono(s1, rest, lv.left.tabs.tabs.len());
    }
    let left = restore_pane(&snapshot.left.tabs, registry, stores);
    let ghost s2 = stores.model();
    proof {
        let rest = (lv.right.tabs.tabs.len() + lv.bottom.tabs.tabs.len()) as nat;
        assert(P::room(s1, (rest + lv.left.tabs.tabs.len()) as nat));
        assert(P::room(s2, rest));
        P::lemma_room_mono(s2, rest, lv.right.tabs.tabs.len());
    }
    let right = restore_pane(&snapshot.right.tabs, registry, stores);
    let ghost s3 = stores.model();
    proof {
        let rest = lv.bottom.tabs.tabs.len();
        assert(P::room(s2, (rest + lv.right.tabs.tabs.len()) as nat));
        assert(P::room(s3, rest));
    }
    let bottom = restore_pane(&snapshot.bottom.tabs, registry, stores);
    let d = Docks {
        left: Dock::with_extent(left, snapshot.left.visibility, snapshot.left.extent_bits),
        right: Dock::with_extent(right, snapshot.right.visibility, snapshot.right.extent_bits),
        bottom: Dock::with_extent(bottom, snapshot.bottom.visibility, snapshot.bottom.extent_bits),
    };
    proof {
        let td = seq![s1, s2, s3, stores.model()];
        let dsnaps = dock_snaps(lv);
        let dpvs = dock_views(d);
        assert forall|i: int| 0 <= i < dsnaps.len() implies pane_restored(#[trigger] dsnaps[i], reg, td[i], dpvs[i], td[i + 1]) by {
        }
        assert(restored_chain(dsnaps, reg, td, dpvs));
        let (l, r, b) = (lv.left.tabs.tabs.len(), lv.right.tabs.tabs.len(), lv.bottom.tabs.tabs.len());
        assert forall|m: nat| P::room(s1, (m + l + r + b) as nat) implies #[trigger] P::room(stores.model(), m) by {
            assert(P::room(s1, ((m + r + b) + l) as nat));
            assert(P::room(s2, (m + r + b) as nat));
            assert(P::room(s2, ((m + b) + r) as nat));
            assert(P::room(s3, (m + b) as nat));
        }
    }
    d
}

/// Rebuild a workspace from a snapshot. Each panel is rebuilt through the
/// registry from its handle (a handle of an unregistered kind is dropped)
/// and each active index is clamped to the surviving tabs; the workspace is
/// at rest with the shipped keymap.
#[verifier::rlimit(40)]
pub fn restore<P: Panel>(snapshot: &LayoutSnapshot, registry: &PanelRegistry, stores: &mut AppStores, theme_mode: ThemeMode) -> (r: Workspace<P>)
    requires
        old(stores).wf(),
        P::room(old(stores).model(), layout_tab_count(snapshot.view())),
        center_size(snapshot.center.view()) <= usize::MAX,
    ensures
        r.wf(),
        final(stores).wf(),
        layout_restored(snapshot.view(), registry.registered(), old(stores).model(), r@, final(stores).model()),
        at_rest(r@, theme_mode),
        r@.window_size == (SizeBits { width_bits: DEFAULT_WINDOW_WIDTH_BITS, height_bits: DEFAULT_WINDOW_HEIGHT_BITS }),
        r@.all_commands.len() == 0,
        r@.scratch_surface is None,
        r@.left_surface is None && r@.right_surface is None && r@.bottom_surface is None,
        forall|m: nat|
            P::room(old(stores).model(), m + layout_tab_count(snapshot.view())) ==> #[trigger] P::room(final(stores).model(), m),
{
    let ghost lv = snapshot.view();
    let ghost reg = registry.registered();
    let ghost s0 = stores.model();
    proof {
        P::lemma_room_mono(s0, layout_tab_count(lv), center_tab_count(lv.center));
    }
    let panes = restore_grid(&snapshot.center, registry, stores);
    let ghost s1 = stores.model();
    let ghost m = panes.model();
    let ordered = panes.pane_ids();
    let focused = match snapshot.focus {
        FocusSnapshot::Center(ordinal) => {
            if ordinal < ordered.len() {
                PanelLocation::Center(ordered[ordinal])
            } else {
                PanelLocation::Center(ordered[0])
            }
        },
        FocusSnapshot::Dock(side) => PanelLocation::Dock(side),
    };
    proof {
        let rest = (lv.left.tabs.tabs.len() + lv.right.tabs.tabs.len() + lv.bottom.tabs.tabs.len()) as nat;
        assert(P::room(s0, (rest + center_tab_count(lv.center)) as nat));
    }
    let docks = restore_docks(snapshot, registry, stores);
    let ghost d = docks;
    let r = Workspace::from_parts(panes, docks, focused, theme_mode);
    proof {
        let rest = (lv.left.tabs.tabs.len() + lv.right.tabs.tabs.len() + lv.bottom.tabs.tabs.len()) as nat;
        assert forall|m: nat| P::room(s0, m + layout_tab_count(lv)) implies #[trigger] P::room(stores.model(), m) by {
            assert(P::room(s0, ((m + rest) + center_tab_count(lv.center)) as nat));
            assert(P::room(s1, (m + rest) as nat));
        }
    }
    proof {
        let n = center_leaves(lv.center).len();
        let ids = center_built(lv.center, 0).0.leaves();
        let (tc, pc) = choose|trace: Seq<StoresModel>, pvs: Seq<PaneView<P>>| {
            &&& #[trigger] restored_chain(center_leaves(lv.center), reg, trace, pvs)
            &&& trace[0] == s0
            &&& trace.last() == s1
            &&& forall|i: int| 0 <= i < pvs.len() ==> m.panes[#[trigger] ids[i]]@ == pvs[i]
        };
        let dsnaps = dock_snaps(lv);
        let dpvs = dock_views(d);
        let td = choose|trace: Seq<StoresModel>| {
            &&& #[trigger] restored_chain(dsnaps, reg, trace, dpvs)
            &&& trace[0] == s1
            &&& trace.last() == stores.model()
        };
        lemma_chain_concat(center_leaves(lv.center), dsnaps, reg, tc, td, pc, dpvs);
        let trace = tc + td.drop_first();
        let pvs = pc + dpvs;
        assert(layout_snaps(lv) == center_leaves(lv.center) + dsnaps);
        assert(pvs[n as int] == dpvs[0] && pvs[n + 1int] == dpvs[1] && pvs[n + 2int] == dpvs[2]);
        assert(r@.grid.panes == m.panes.map_values(|ps: PaneState<P>| ps@));
        assert forall|i: int| 0 <= i < n implies r@.grid.panes[#[trigger] ids[i]] == pvs[i] by {
            assert(m.panes.contains_key(ids[i]));
            assert(m.panes[ids[i]]@ == pc[i]);
        }
        assert(ordered@ == ids);
        assert(restored_chain(layout_snaps(lv), reg, trace, pvs));
    }
    r
}

} // verus!
