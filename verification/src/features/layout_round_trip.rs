//! What a captured layout gives back: restoring the shipped panels from a
//! capture and capturing again yields the same snapshot.

use crate::features::dummies::clock::{handle_ticks, stores_with_ticks};
use crate::features::dummies::counter::{handle_count, shown_count, stores_with_slot};
use crate::features::feature_panel::FeaturePanel;
use crate::workspace::workspace_pane_state::PaneView;
use crate::workspace::workspace_panel::{HandleView, Panel, PanelKind};
use crate::workspace::workspace_persistence::{
    captured, captured_active, captured_node, captured_pane, center_built, center_leaves, center_tab_count, dock_snaps,
    durable_handles, layout_restored, layout_snaps, layout_tab_count, leaf_ordinal, pane_restored, registered_handles,
    rehydrated, restored_chain, CenterView, FocusSnapshot, LayoutView, PaneSnapView,
};
use crate::workspace::workspace_location::Pane;
use crate::workspace::workspace_pane_grid::Node;
use crate::workspace::workspace_location::PanelLocation;
use crate::workspace::workspace_state::{DockView, WorkspaceView};
use crate::workspace::workspace_stores::StoresModel;
use vstd::prelude::*;
use vstd::set_lib::{lemma_int_range, lemma_len_subset, set_int_range};

verus! {

/// A handle in the shape capture writes for a durable panel while the
/// clock reads `ticks`: a count, a content, or the clock's tick.
pub open spec fn canonical_handle(h: (PanelKind, HandleView), ticks: u64) -> bool {
    match h.0 {
        PanelKind::Counter => h.1.count is Some && h.1.ticks is None && h.1.content is None,
        PanelKind::Text => h.1.count is None && h.1.ticks is None && h.1.content is Some,
        PanelKind::Clock => h.1.count is None && h.1.ticks == Some(ticks) && h.1.content is None,
        PanelKind::Scratch => false,
    }
}

/// Stores `t` keep every counter slot of `s`, hand out no earlier id and
/// show no earlier tick.
pub open spec fn grows(s: StoresModel, t: StoresModel) -> bool {
    &&& s.next_id <= t.next_id
    &&& forall|id: u64| #[trigger] s.counts.contains_key(id) ==> t.counts.contains_key(id) && t.counts[id] == s.counts[id]
    &&& s.ticks <= t.ticks
}

/// Panel `q` snapshots to handle `h` over stores `t` (a counter's slot
/// being live).
pub open spec fn holds(q: FeaturePanel, h: (PanelKind, HandleView), t: StoresModel) -> bool {
    &&& q.kind_spec() == h.0
    &&& q.snapshot_spec(t) == Some(h.1)
    &&& (q matches FeaturePanel::Counter(c) ==> t.counts.contains_key(c.id))
}

proof fn lemma_grows_trans(a: StoresModel, b: StoresModel, c: StoresModel)
    requires
        grows(a, b),
        grows(b, c),
    ensures
        grows(a, c),
{
}

/// Rehydrating one panel from a canonical handle leaves stores in which it
/// snapshots back to that handle.
proof fn lemma_step(h: (PanelKind, HandleView), s: StoresModel, q: FeaturePanel, t: StoresModel, ticks: u64)
    requires
        s.wf(),
        s.ticks <= ticks,
        s.next_id < u64::MAX,
        canonical_handle(h, ticks),
        FeaturePanel::rehydrate_post(h.0, h.1, s, q, t),
    ensures
        t.wf(),
        grows(s, t),
        t.ticks <= ticks,
        t.next_id <= s.next_id + 1,
        holds(q, h, t),
{
    match q {
        FeaturePanel::Counter(c) => {
            assert(t == stores_with_slot(s, handle_count(h.1)));
            assert(t.counts.contains_key(c.id));
            assert(shown_count(t, c.id) == handle_count(h.1));
            assert forall|id: u64| #[trigger] s.counts.contains_key(id) implies t.counts.contains_key(id) && t.counts[id] == s.counts[id] by {
                assert(id < s.next_id);
            }
            assert forall|k: u64| #[trigger] t.counts.contains_key(k) implies k < t.next_id by {
                if k != s.next_id {
                    assert(s.counts.contains_key(k));
                }
            }
        },
        FeaturePanel::Text(x) => {},
        FeaturePanel::Clock(_) => {
            assert(t == stores_with_ticks(s, handle_ticks(h.1)));
            assert(handle_ticks(h.1) == ticks);
        },
        FeaturePanel::Scratch(_) => {},
    }
}

/// A panel that snapshots to a canonical handle keeps doing so as the
/// stores grow under the same tick.
proof fn lemma_holds_grows(q: FeaturePanel, h: (PanelKind, HandleView), t1: StoresModel, t2: StoresModel, ticks: u64)
    requires
        holds(q, h, t1),
        canonical_handle(h, ticks),
        grows(t1, t2),
        t2.ticks <= ticks,
    ensures
        holds(q, h, t2),
{
    match q {
        FeaturePanel::Counter(c) => {
            assert(t2.counts.contains_key(c.id));
        },
        _ => {},
    }
}


/// Panels rehydrated in order from canonical handles all snapshot back to
/// their handles over the final stores.
proof fn lemma_rehydrated(hs: Seq<(PanelKind, HandleView)>, trace: Seq<StoresModel>, panels: Seq<FeaturePanel>, ticks: u64)
    requires
        rehydrated(hs, trace, panels),
        trace[0].wf(),
        trace[0].ticks <= ticks,
        trace[0].next_id + hs.len() <= u64::MAX,
        forall|j: int| 0 <= j < hs.len() ==> canonical_handle(#[trigger] hs[j], ticks),
    ensures
        trace.last().wf(),
        grows(trace[0], trace.last()),
        trace.last().ticks <= ticks,
        trace.last().next_id <= trace[0].next_id + hs.len(),
        forall|j: int| 0 <= j < hs.len() ==> holds(#[trigger] panels[j], hs[j], trace.last()),
    decreases hs.len(),
{
    let n = hs.len() as int;
    if n == 0 {
        return;
    }
    let hs0 = hs.drop_last();
    let tr0 = trace.drop_last();
    let ps0 = panels.drop_last();
    assert forall|i: int| 0 <= i < hs0.len() implies FeaturePanel::rehydrate_post(hs0[i].0, hs0[i].1, tr0[i], #[trigger] ps0[i], tr0[i + 1]) by {
        assert(FeaturePanel::rehydrate_post(hs[i].0, hs[i].1, trace[i], panels[i], trace[i + 1]));
    }
    assert(rehydrated(hs0, tr0, ps0));
    lemma_rehydrated(hs0, tr0, ps0, ticks);
    let mid = trace[n - 1];
    assert(tr0.last() == mid);
    assert(canonical_handle(hs[n - 1], ticks));
    assert(FeaturePanel::rehydrate_post(hs[n - 1].0, hs[n - 1].1, trace[n - 1], panels[n - 1], trace[n]));
    lemma_step(hs[n - 1], mid, panels[n - 1], trace[n], ticks);
    lemma_grows_trans(trace[0], mid, trace[n]);
    assert forall|j: int| 0 <= j < hs.len() implies holds(#[trigger] panels[j], hs[j], trace.last()) by {
        if j < n - 1 {
            assert(holds(ps0[j], hs0[j], mid));
            lemma_holds_grows(panels[j], hs[j], mid, trace[n], ticks);
        }
    }
}

/// Handles whose kinds are all registered are all kept.
proof fn lemma_all_registered(hs: Seq<(PanelKind, HandleView)>, reg: Set<PanelKind>)
    requires
        forall|j: int| 0 <= j < hs.len() ==> reg.contains(#[trigger] hs[j].0),
    ensures
        registered_handles(hs, reg) == hs,
    decreases hs.len(),
{
    if hs.len() > 0 {
        lemma_all_registered(hs.drop_last(), reg);
        assert(hs.drop_last().push(hs.last()) =~= hs);
    }
}

/// A tab-stack snapshot as capture writes it: canonical handles of
/// registered kinds and an active index in range (zero when empty).
pub open spec fn canonical_pane(snap: PaneSnapView, reg: Set<PanelKind>, ticks: u64) -> bool {
    &&& forall|j: int| 0 <= j < snap.tabs.len() ==> canonical_handle(#[trigger] snap.tabs[j], ticks)
    &&& forall|j: int| 0 <= j < snap.tabs.len() ==> reg.contains(#[trigger] snap.tabs[j].0)
    &&& (snap.active < snap.tabs.len() || (snap.tabs.len() == 0 && snap.active == 0))
}

/// A tab stack that snapshots back to `snap` over `t`.
pub open spec fn pane_holds(pv: PaneView<FeaturePanel>, snap: PaneSnapView, t: StoresModel) -> bool {
    &&& pv.tabs.len() == snap.tabs.len()
    &&& forall|j: int| 0 <= j < snap.tabs.len() ==> holds(#[trigger] pv.tabs[j], snap.tabs[j], t)
    &&& pv.active == snap.active
}

/// Number of handles of a run of tab-stack snapshots.
pub open spec fn snaps_tab_count(snaps: Seq<PaneSnapView>) -> nat
    decreases snaps.len(),
{
    if snaps.len() == 0 {
        0
    } else {
        snaps_tab_count(snaps.drop_last()) + snaps.last().tabs.len()
    }
}

proof fn lemma_pane_holds_grows(pv: PaneView<FeaturePanel>, snap: PaneSnapView, t1: StoresModel, t2: StoresModel, ticks: u64)
    requires
        pane_holds(pv, snap, t1),
        forall|j: int| 0 <= j < snap.tabs.len() ==> canonical_handle(#[trigger] snap.tabs[j], ticks),
        grows(t1, t2),
        t2.ticks <= ticks,
    ensures
        pane_holds(pv, snap, t2),
{
    assert forall|j: int| 0 <= j < snap.tabs.len() implies holds(#[trigger] pv.tabs[j], snap.tabs[j], t2) by {
        lemma_holds_grows(pv.tabs[j], snap.tabs[j], t1, t2, ticks);
    }
}

/// Tab stacks restored in order from captured snapshots all snapshot back
/// to them over the final stores.
proof fn lemma_chain(snaps: Seq<PaneSnapView>, reg: Set<PanelKind>, trace: Seq<StoresModel>, pvs: Seq<PaneView<FeaturePanel>>, ticks: u64)
    requires
        restored_chain(snaps, reg, trace, pvs),
        trace[0].wf(),
        trace[0].ticks <= ticks,
        trace[0].next_id + snaps_tab_count(snaps) <= u64::MAX,
        forall|i: int| 0 <= i < snaps.len() ==> canonical_pane(#[trigger] snaps[i], reg, ticks),
    ensures
        trace.last().wf(),
        grows(trace[0], trace.last()),
        trace.last().ticks <= ticks,
        trace.last().next_id <= trace[0].next_id + snaps_tab_count(snaps),
        forall|i: int| 0 <= i < snaps.len() ==> pane_holds(#[trigger] pvs[i], snaps[i], trace.last()),
    decreases snaps.len(),
{
    let n = snaps.len() as int;
    if n == 0 {
        return;
    }
    let s0 = snaps.drop_last();
    let tr0 = trace.drop_last();
    let p0 = pvs.drop_last();
    assert forall|i: int| 0 <= i < s0.len() implies pane_restored(#[trigger] s0[i], reg, tr0[i], p0[i], tr0[i + 1]) by {
        assert(pane_restored(snaps[i], reg, trace[i], pvs[i], trace[i + 1]));
    }
    assert(restored_chain(s0, reg, tr0, p0));
    lemma_chain(s0, reg, tr0, p0, ticks);
    let mid = trace[n - 1];
    assert(tr0.last() == mid);
    let snap = snaps[n - 1];
    let pv = pvs[n - 1];
    assert(canonical_pane(snap, reg, ticks));
    assert(pane_restored(snap, reg, mid, pv, trace[n]));
    lemma_all_registered(snap.tabs, reg);
    let inner = choose|tr: Seq<StoresModel>| #[trigger] rehydrated(snap.tabs, tr, pv.tabs) && tr[0] == mid && tr.last() == trace[n];
    lemma_rehydrated(snap.tabs, inner, pv.tabs, ticks);
    lemma_grows_trans(trace[0], mid, trace[n]);
    assert(pane_holds(pv, snap, trace[n]));
    assert forall|i: int| 0 <= i < snaps.len() implies pane_holds(#[trigger] pvs[i], snaps[i], trace.last()) by {
        if i < n - 1 {
            assert(pane_holds(p0[i], s0[i], mid));
            lemma_pane_holds_grows(pvs[i], snaps[i], mid, trace[n], ticks);
        }
    }
}


/// Every handle capture writes is canonical under the stores' tick.
proof fn lemma_durable_canonical(tabs: Seq<FeaturePanel>, s: StoresModel)
    ensures
        forall|j: int| 0 <= j < durable_handles(tabs, s).len() ==> canonical_handle(#[trigger] durable_handles(tabs, s)[j], s.ticks),
    decreases tabs.len(),
{
    if tabs.len() > 0 {
        lemma_durable_canonical(tabs.drop_last(), s);
        let rest = durable_handles(tabs.drop_last(), s);
        let all = durable_handles(tabs, s);
        assert forall|j: int| 0 <= j < all.len() implies canonical_handle(#[trigger] all[j], s.ticks) by {
            if j < rest.len() {
                assert(all[j] == rest[j]);
            } else {
                match tabs.last() {
                    FeaturePanel::Counter(_) => {},
                    FeaturePanel::Text(_) => {},
                    FeaturePanel::Clock(_) => {},
                    FeaturePanel::Scratch(_) => {},
                }
            }
        }
    }
}

/// A captured tab stack is canonical under tick `ticks` for a registry
/// holding its kinds, when a clock tab, if any, was captured at `ticks`.
proof fn lemma_captured_canonical(pv: PaneView<FeaturePanel>, s: StoresModel, reg: Set<PanelKind>, ticks: u64)
    requires
        forall|j: int| 0 <= j < captured_pane(pv, s).tabs.len() ==> reg.contains(#[trigger] captured_pane(pv, s).tabs[j].0),
        forall|j: int| 0 <= j < captured_pane(pv, s).tabs.len() && #[trigger] captured_pane(pv, s).tabs[j].0 == PanelKind::Clock ==> ticks == s.ticks,
    ensures
        canonical_pane(captured_pane(pv, s), reg, ticks),
{
    lemma_durable_canonical(pv.tabs, s);
    let snap = captured_pane(pv, s);
    assert forall|j: int| 0 <= j < snap.tabs.len() implies canonical_handle(#[trigger] snap.tabs[j], ticks) by {
        assert(canonical_handle(snap.tabs[j], s.ticks));
        assert(reg.contains(snap.tabs[j].0));
        if snap.tabs[j].0 == PanelKind::Clock {
            assert(ticks == s.ticks);
        }
    }
}

/// Panels that each snapshot to their handle capture to exactly those
/// handles.
proof fn lemma_durable_of_holds(tabs: Seq<FeaturePanel>, hs: Seq<(PanelKind, HandleView)>, t: StoresModel)
    requires
        tabs.len() == hs.len(),
        forall|j: int| 0 <= j < hs.len() ==> holds(#[trigger] tabs[j], hs[j], t),
    ensures
        durable_handles(tabs, t) == hs,
    decreases tabs.len(),
{
    if tabs.len() > 0 {
        let n = tabs.len() as int;
        assert forall|j: int| 0 <= j < n - 1 implies holds(#[trigger] tabs.drop_last()[j], hs.drop_last()[j], t) by {
            assert(holds(tabs[j], hs[j], t));
        }
        lemma_durable_of_holds(tabs.drop_last(), hs.drop_last(), t);
        assert(holds(tabs[n - 1], hs[n - 1], t));
        assert(hs.drop_last().push(hs.last()) =~= hs);
    }
}

/// A restored tab stack captures back to its snapshot.
proof fn lemma_pane_round_trip(pv: PaneView<FeaturePanel>, snap: PaneSnapView, t: StoresModel)
    requires
        pane_holds(pv, snap, t),
        snap.active < snap.tabs.len() || (snap.tabs.len() == 0 && snap.active == 0),
    ensures
        captured_pane(pv, t) == snap,
{
    lemma_durable_of_holds(pv.tabs, snap.tabs, t);
    if snap.tabs.len() > 0 {
        let a = pv.active as int;
        assert forall|j: int| 0 <= j < a implies holds(#[trigger] pv.tabs.take(a)[j], snap.tabs.take(a)[j], t) by {
            assert(holds(pv.tabs[j], snap.tabs[j], t));
        }
        lemma_durable_of_holds(pv.tabs.take(a), snap.tabs.take(a), t);
        assert(holds(pv.tabs[a], snap.tabs[a], t));
        assert(captured_active(pv, t) == pv.active);
    }
    assert(captured_pane(pv, t).tabs == snap.tabs);
}

/// The leaf snapshots of a captured subtree are the captures of its leaves,
/// in order.
proof fn lemma_captured_leaves(n: Node, panes: Map<Pane, PaneView<FeaturePanel>>, s: StoresModel)
    ensures
        center_leaves(captured_node(n, panes, s)) == n.leaves().map_values(|p: Pane| captured_pane(panes[p], s)),
    decreases n,
{
    match n {
        Node::Split { a, b, .. } => {
            lemma_captured_leaves(*a, panes, s);
            lemma_captured_leaves(*b, panes, s);
            assert((a.leaves() + b.leaves()).map_values(|p: Pane| captured_pane(panes[p], s))
                =~= a.leaves().map_values(|p: Pane| captured_pane(panes[p], s)) + b.leaves().map_values(|p: Pane| captured_pane(panes[p], s)));
        },
        Node::Pane(p) => {
            assert(seq![p].map_values(|q: Pane| captured_pane(panes[q], s)) =~= seq![captured_pane(panes[p], s)]);
        },
    }
}


proof fn lemma_built_len(cv: CenterView, k: int)
    ensures
        center_built(cv, k).0.leaves().len() == center_leaves(cv).len(),
    decreases cv,
{
    match cv {
        CenterView::Split { a, b, .. } => {
            lemma_built_len(*a, k);
            lemma_built_len(*b, center_built(*a, k).1);
        },
        CenterView::Pane(_) => {},
    }
}

/// A tree rebuilt from a center snapshot, whose leaves capture back to the
/// snapshot's leaves, captures back to the snapshot.
proof fn lemma_rebuilt_capture(cv: CenterView, k: int, panes: Map<Pane, PaneView<FeaturePanel>>, t: StoresModel)
    requires
        forall|i: int| 0 <= i < center_leaves(cv).len() ==>
            captured_pane(panes[#[trigger] center_built(cv, k).0.leaves()[i]], t) == center_leaves(cv)[i],
    ensures
        captured_node(center_built(cv, k).0, panes, t) == cv,
    decreases cv,
{
    lemma_built_len(cv, k);
    match cv {
        CenterView::Split { axis, ratio_bits, a, b } => {
            let (na, ka) = center_built(*a, k);
            let (nb, kb) = center_built(*b, ka);
            lemma_built_len(*a, k);
            lemma_built_len(*b, ka);
            let la = center_leaves(*a);
            let lb = center_leaves(*b);
            assert(center_built(cv, k).0.leaves() == na.leaves() + nb.leaves());
            assert(center_leaves(cv) == la + lb);
            assert forall|i: int| 0 <= i < la.len() implies
                captured_pane(panes[#[trigger] center_built(*a, k).0.leaves()[i]], t) == la[i] by {
                assert(center_built(cv, k).0.leaves()[i] == na.leaves()[i]);
                assert(captured_pane(panes[center_built(cv, k).0.leaves()[i]], t) == center_leaves(cv)[i]);
            }
            assert forall|i: int| 0 <= i < lb.len() implies
                captured_pane(panes[#[trigger] center_built(*b, ka).0.leaves()[i]], t) == lb[i] by {
                let j = i + la.len();
                assert(center_built(cv, k).0.leaves()[j] == nb.leaves()[i]);
                assert(captured_pane(panes[center_built(cv, k).0.leaves()[j]], t) == center_leaves(cv)[j]);
            }
            lemma_rebuilt_capture(*a, k, panes, t);
            lemma_rebuilt_capture(*b, ka, panes, t);
        },
        CenterView::Pane(p) => {
            assert(center_built(cv, k).0.leaves()[0] == Pane(k as usize));
            assert(captured_pane(panes[center_built(cv, k).0.leaves()[0]], t) == center_leaves(cv)[0]);
        },
    }
}

proof fn lemma_count_concat(a: Seq<PaneSnapView>, b: Seq<PaneSnapView>)
    ensures
        snaps_tab_count(a + b) == snaps_tab_count(a) + snaps_tab_count(b),
    decreases b.len(),
{
    if b.len() > 0 {
        lemma_count_concat(a, b.drop_last());
        assert((a + b).drop_last() =~= a + b.drop_last());
    } else {
        assert(a + b =~= a);
    }
}

proof fn lemma_center_count(cv: CenterView)
    ensures
        center_tab_count(cv) == snaps_tab_count(center_leaves(cv)),
    decreases cv,
{
    match cv {
        CenterView::Split { a, b, .. } => {
            lemma_center_count(*a);
            lemma_center_count(*b);
            lemma_count_concat(center_leaves(*a), center_leaves(*b));
            assert(center_leaves(cv) == center_leaves(*a) + center_leaves(*b));
            assert(center_tab_count(cv) == center_tab_count(*a) + center_tab_count(*b));
        },
        CenterView::Pane(p) => {
            let l = center_leaves(cv);
            assert(l == seq![p]);
            assert(l.drop_last() =~= Seq::<PaneSnapView>::empty());
            assert(snaps_tab_count(l.drop_last()) == 0);
            assert(snaps_tab_count(l) == p.tabs.len());
        },
    }
}

proof fn lemma_layout_count(lv: LayoutView)
    ensures
        layout_tab_count(lv) == snaps_tab_count(layout_snaps(lv)),
{
    lemma_center_count(lv.center);
    lemma_count_concat(center_leaves(lv.center), dock_snaps(lv));
    let d = dock_snaps(lv);
    let d1 = d.drop_last();
    let d2 = d1.drop_last();
    let d3 = d2.drop_last();
    assert(d3 =~= Seq::<PaneSnapView>::empty());
    assert(snaps_tab_count(d3) == 0);
    assert(snaps_tab_count(d2) == lv.left.tabs.tabs.len());
    assert(snaps_tab_count(d1) == lv.left.tabs.tabs.len() + lv.right.tabs.tabs.len());
    assert(snaps_tab_count(d) == lv.left.tabs.tabs.len() + lv.right.tabs.tabs.len() + lv.bottom.tabs.tabs.len());
}


proof fn lemma_some_leaf(n: Node)
    ensures
        n.leaves().len() >= 1,
    decreases n,
{
    match n {
        Node::Split { a, b, .. } => {
            lemma_some_leaf(*a);
        },
        Node::Pane(_) => {},
    }
}

/// Distinct panes number at most one more than the largest id.
proof fn lemma_distinct_panes_bound(panes: Seq<Pane>)
    requires
        panes.no_duplicates(),
    ensures
        panes.len() <= usize::MAX + 1,
{
    let ids = panes.map_values(|p: Pane| p.0 as int);
    assert forall|i: int, j: int| 0 <= i < ids.len() && 0 <= j < ids.len() && i != j implies ids[i] != ids[j] by {
        assert(panes[i] != panes[j]);
    }
    assert(ids.no_duplicates());
    ids.unique_seq_to_set();
    let range = set_int_range(0, usize::MAX + 1);
    lemma_int_range(0, usize::MAX + 1);
    assert forall|x: int| ids.to_set().contains(x) implies range.contains(x) by {
        let i = choose|i: int| 0 <= i < ids.len() && ids[i] == x;
    }
    lemma_len_subset(ids.to_set(), range);
}

/// Every handle of layout `lv` is of a kind `reg` rebuilds.
pub open spec fn kinds_registered(lv: LayoutView, reg: Set<PanelKind>) -> bool {
    forall|i: int, j: int| 0 <= i < layout_snaps(lv).len() && 0 <= j < layout_snaps(lv)[i].tabs.len()
        ==> reg.contains(#[trigger] layout_snaps(lv)[i].tabs[j].0)
}

/// Some handle of layout `lv` is a clock's.
pub open spec fn has_clock(lv: LayoutView) -> bool {
    exists|i: int, j: int| 0 <= i < layout_snaps(lv).len() && 0 <= j < layout_snaps(lv)[i].tabs.len()
        && #[trigger] layout_snaps(lv)[i].tabs[j].0 == PanelKind::Clock
}

/// The round trip of the layout store: capture a workspace of the shipped
/// panels, restore the capture through a registry that rebuilds every kind
/// it holds into stores whose clock is not ahead of the captured one (when
/// it holds a clock), and capture again: the second capture is the first.
/// (A scratch buffer is never captured, so it has nothing to give back.)
pub proof fn law_capture_restore_capture(
    v: WorkspaceView<FeaturePanel>,
    s: StoresModel,
    reg: Set<PanelKind>,
    s0: StoresModel,
    w: WorkspaceView<FeaturePanel>,
    t: StoresModel,
)
    requires
        kinds_registered(captured(v, s), reg),
        has_clock(captured(v, s)) ==> s0.ticks <= s.ticks,
        s0.wf(),
        FeaturePanel::room(s0, layout_tab_count(captured(v, s))),
        v.wf(),
        w.wf(),
        layout_restored(captured(v, s), reg, s0, w, t),
    ensures
        captured(w, t) == captured(v, s),
{
    let lv = captured(v, s);
    let ticks: u64 = if s0.ticks <= s.ticks { s.ticks } else { s0.ticks };
    let leaves = v.grid.layout.leaves();
    lemma_captured_leaves(v.grid.layout, v.grid.panes, s);
    let cl = center_leaves(lv.center);
    let n = cl.len() as int;
    let snaps = layout_snaps(lv);
    assert(snaps == cl + dock_snaps(lv));
    assert(leaves.len() == n);
    assert forall|i: int| 0 <= i < snaps.len() implies canonical_pane(#[trigger] snaps[i], reg, ticks) by {
        let pv = if i < n {
            v.grid.panes[leaves[i]]
        } else if i == n {
            v.left.tabs
        } else if i == n + 1 {
            v.right.tabs
        } else {
            v.bottom.tabs
        };
        assert(snaps[i] == captured_pane(pv, s));
        assert forall|j: int| 0 <= j < captured_pane(pv, s).tabs.len() implies reg.contains(#[trigger] captured_pane(pv, s).tabs[j].0) by {
            assert(layout_snaps(lv)[i].tabs[j].0 == snaps[i].tabs[j].0);
        }
        assert forall|j: int| 0 <= j < captured_pane(pv, s).tabs.len() && #[trigger] captured_pane(pv, s).tabs[j].0 == PanelKind::Clock implies ticks == s.ticks by {
            assert(layout_snaps(lv)[i].tabs[j].0 == PanelKind::Clock);
            assert(has_clock(lv));
        }
        lemma_captured_canonical(pv, s, reg, ticks);
    }
    lemma_layout_count(lv);
    let layout = center_built(lv.center, 0).0;
    let ids = layout.leaves();
    let (trace, pvs) = choose|trace: Seq<StoresModel>, pvs: Seq<PaneView<FeaturePanel>>| {
        &&& #[trigger] restored_chain(layout_snaps(lv), reg, trace, pvs)
        &&& trace[0] == s0
        &&& trace.last() == t
        &&& w.grid.layout == layout
        &&& w.grid.last_id == center_built(lv.center, 0).1
        &&& ids.len() == n
        &&& (forall|p: Pane| #[trigger] w.grid.panes.contains_key(p) <==> ids.contains(p))
        &&& (forall|i: int| 0 <= i < n ==> w.grid.panes[#[trigger] ids[i]] == pvs[i])
        &&& w.left == (DockView { tabs: pvs[n as int], visibility: lv.left.visibility, extent_bits: lv.left.extent_bits })
        &&& w.right == (DockView { tabs: pvs[n + 1int], visibility: lv.right.visibility, extent_bits: lv.right.extent_bits })
        &&& w.bottom == (DockView { tabs: pvs[n + 2int], visibility: lv.bottom.visibility, extent_bits: lv.bottom.extent_bits })
        &&& w.focused == (match lv.focus {
            FocusSnapshot::Center(o) => PanelLocation::Center(if o < n { ids[o as int] } else { ids[0] }),
            FocusSnapshot::Dock(side) => PanelLocation::Dock(side),
        })
    };
    lemma_chain(snaps, reg, trace, pvs, ticks);
    assert forall|i: int| 0 <= i < n implies captured_pane(w.grid.panes[#[trigger] ids[i]], t) == cl[i] by {
        assert(snaps[i] == cl[i]);
        assert(pane_holds(pvs[i], snaps[i], t));
        lemma_pane_round_trip(pvs[i], cl[i], t);
    }
    lemma_rebuilt_capture(lv.center, 0, w.grid.panes, t);
    assert(snaps[n] == lv.left.tabs && snaps[n + 1] == lv.right.tabs && snaps[n + 2] == lv.bottom.tabs);
    assert(pane_holds(pvs[n], snaps[n], t));
    assert(pane_holds(pvs[n + 1], snaps[n + 1], t));
    assert(pane_holds(pvs[n + 2], snaps[n + 2], t));
    lemma_pane_round_trip(pvs[n], lv.left.tabs, t);
    lemma_pane_round_trip(pvs[n + 1], lv.right.tabs, t);
    lemma_pane_round_trip(pvs[n + 2], lv.bottom.tabs, t);
    let w_lv = captured(w, t);
    match v.focused {
        PanelLocation::Center(p) => {
            let o = leaf_ordinal(leaves, p);
            lemma_distinct_panes_bound(leaves);
            lemma_some_leaf(v.grid.layout);
            if leaves.contains(p) {
                let k = choose|k: int| 0 <= k < leaves.len() && leaves[k] == p;
                assert(o == k);
            }
            assert(leaves.len() == n);
            assert(0 <= o < n);
            assert(w.focused == PanelLocation::Center(ids[o as int]));
            assert(ids.contains(ids[o as int]));
            let k = choose|k: int| 0 <= k < ids.len() && ids[k] == ids[o as int];
            assert(ids.no_duplicates());
            assert(k == o);
            assert(w_lv.focus == lv.focus);
        },
        PanelLocation::Dock(side) => {},
    }
    assert(w_lv.center == lv.center);
    assert(w_lv.left == lv.left);
    assert(w_lv.right == lv.right);
    assert(w_lv.bottom == lv.bottom);
}


/// The round trip of one panel's handle: a durable panel's snapshot,
/// rehydrated into stores whose clock is not ahead of the snapshot's (for
/// a clock), gives a panel of the same kind with the same snapshot.
pub proof fn law_handle_round_trip(q: FeaturePanel, s: StoresModel, s0: StoresModel, q2: FeaturePanel, t: StoresModel)
    requires
        q.snapshot_spec(s) is Some,
        s0.wf(),
        s0.next_id < u64::MAX,
        q is Clock ==> s0.ticks <= s.ticks,
        FeaturePanel::rehydrate_post(q.kind_spec(), q.snapshot_spec(s).unwrap(), s0, q2, t),
    ensures
        q2.kind_spec() == q.kind_spec(),
        q2.snapshot_spec(t) == q.snapshot_spec(s),
{
    let h = (q.kind_spec(), q.snapshot_spec(s).unwrap());
    let ticks: u64 = if s0.ticks <= s.ticks { s.ticks } else { s0.ticks };
    assert(canonical_handle(h, ticks));
    lemma_step(h, s0, q2, t, ticks);
}

} // verus!
