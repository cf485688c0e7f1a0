//! View-layer probes: the shell's visible decisions read from workspace
//! state without rendering, so tests can check chrome behaviour from the
//! reducer alone.

use crate::workspace::workspace_dock::{Dock, DockVisibility};
use crate::workspace::workspace_drag::omitted_tab;
use crate::workspace::workspace_location::{dock_side_label, DockSide, PanelLocation};
use crate::workspace::workspace_pane_state::{PaneState, PaneView};
use crate::workspace::workspace_panel::Panel;
use crate::workspace::workspace_state::{Workspace, WorkspaceView};
use crate::workspace::workspace_text::concat_str;
use vstd::prelude::*;

verus! {

/// Whether a dock shows, and as what.
#[derive(Debug, Clone, Copy, PartialEq, Eq, Structural)]
pub struct DockFaceProbe {
    pub visibility: DockVisibility,
    pub layout_visible: bool,
    pub body_visible: bool,
    pub rail_visible: bool,
}

/// The three docks' faces.
#[derive(Debug, Clone, Copy, PartialEq, Eq, Structural)]
pub struct DockShellProbe {
    pub left: DockFaceProbe,
    pub right: DockFaceProbe,
    pub bottom: DockFaceProbe,
}

/// Overlays above the base shell.
#[derive(Debug, Clone, Copy, PartialEq, Eq, Structural)]
pub struct OverlayProbe {
    pub drop_overlay: bool,
    pub palette_open: bool,
    pub palette_has_backdrop: bool,
    pub close_confirmation: bool,
}

/// Tab-strip chrome flags.
#[derive(Debug, Clone, Copy, PartialEq, Eq)]
pub struct TabChromeProbe {
    pub drag_source_hidden: Option<(PanelLocation, usize)>,
    pub hovered_tab: Option<(PanelLocation, usize)>,
}

/// The status bar's focus segment.
#[derive(Debug, Clone, PartialEq, Eq)]
pub struct StatusBarProbe {
    pub focus_segment: String,
}

/// What a dock strip's collapse control does when pressed.
#[derive(Debug, Clone, Copy, PartialEq, Eq, Structural)]
pub enum CollapseControlAction {
    Collapse,
    Open,
    Disabled,
}

/// What a dock strip's hide control does when pressed.
#[derive(Debug, Clone, Copy, PartialEq, Eq, Structural)]
pub enum HideControlAction {
    Hide,
    Disabled,
}

/// The collapse and hide controls of an open dock's tab strip.
#[derive(Debug, Clone, Copy, PartialEq, Eq, Structural)]
pub struct DockStripControl {
    pub collapse_visible: bool,
    pub hide_visible: bool,
    pub collapse_enabled: bool,
    pub hide_enabled: bool,
    pub collapse_action: CollapseControlAction,
    pub hide_action: HideControlAction,
}

/// The three dock strips' controls.
#[derive(Debug, Clone, Copy, PartialEq, Eq, Structural)]
pub struct DockStripProbe {
    pub activity: DockStripControl,
    pub conversation: DockStripControl,
    pub output: DockStripControl,
}

/// Everything the probes read.
#[derive(Debug, Clone, PartialEq, Eq)]
pub struct ShellProbe {
    pub docks: DockShellProbe,
    pub overlays: OverlayProbe,
    pub tab_chrome: TabChromeProbe,
    pub status_bar: StatusBarProbe,
    pub dock_strip: DockStripProbe,
}

/// The face of a dock: shown unless empty or hidden; its body when open,
/// its rail when collapsed.
pub open spec fn dock_face(empty: bool, visibility: DockVisibility) -> DockFaceProbe {
    let shown = !empty && visibility != DockVisibility::Hidden;
    DockFaceProbe {
        visibility,
        layout_visible: shown,
        body_visible: visibility == DockVisibility::Open && shown,
        rail_visible: visibility == DockVisibility::Collapsed && shown,
    }
}

pub fn probe_dock_face<P>(dock: &Dock<P>) -> (r: DockFaceProbe)
    ensures
        r == dock_face(dock.tabs.tabs@.len() == 0, dock.visibility),
{
    let hidden_or_empty = dock.is_empty() || dock.is_hidden();
    DockFaceProbe {
        visibility: dock.visibility,
        layout_visible: !hidden_or_empty,
        body_visible: dock.is_open() && !hidden_or_empty,
        rail_visible: dock.is_collapsed() && !hidden_or_empty,
    }
}

/// The controls of a dock strip: shown, enabled, collapsing and hiding
/// when the dock is open; absent otherwise.
pub open spec fn strip_control(visibility: DockVisibility) -> DockStripControl {
    if visibility == DockVisibility::Open {
        DockStripControl {
            collapse_visible: true,
            hide_visible: true,
            collapse_enabled: true,
            hide_enabled: true,
            collapse_action: CollapseControlAction::Collapse,
            hide_action: HideControlAction::Hide,
        }
    } else {
        DockStripControl {
            collapse_visible: false,
            hide_visible: false,
            collapse_enabled: false,
            hide_enabled: false,
            collapse_action: CollapseControlAction::Disabled,
            hide_action: HideControlAction::Disabled,
        }
    }
}

pub fn probe_dock_control<P: Panel>(workspace: &Workspace<P>, side: DockSide) -> (r: DockStripControl)
    requires
        workspace.wf(),
    ensures
        r == strip_control(workspace@.dock(side).visibility),
{
    proof {
        workspace.lemma_view_parts();
    }
    if workspace.docks.get(side).visibility != DockVisibility::Open {
        DockStripControl {
            collapse_visible: false,
            hide_visible: false,
            collapse_enabled: false,
            hide_enabled: false,
            collapse_action: CollapseControlAction::Disabled,
            hide_action: HideControlAction::Disabled,
        }
    } else {
        DockStripControl {
            collapse_visible: true,
            hide_visible: true,
            collapse_enabled: true,
            hide_enabled: true,
            collapse_action: CollapseControlAction::Collapse,
            hide_action: HideControlAction::Hide,
        }
    }
}

/// A tab's label: its title, marked when dirty.
pub open spec fn display_title<P: Panel>(p: P) -> Seq<char> {
    if p.dirty_spec() {
        "• "@ + p.title_spec()
    } else {
        p.title_spec()
    }
}

pub fn tab_display_title<P: Panel>(panel: &P) -> (r: String)
    ensures
        r@ == display_title(*panel),
{
    let title = panel.title();
    if panel.is_dirty() {
        concat_str("• ", title.as_str())
    } else {
        title
    }
}

/// Whether a tab's close button shows: the tab exists and is active or
/// under the pointer.
pub open spec fn close_visible<P: Panel>(v: WorkspaceView<P>, location: PanelLocation, tab: usize) -> bool {
    match v.pane_at(location) {
        Some(pv) => tab < pv.tabs.len() && (tab == pv.active || v.hovered_tab == Some((location, tab))),
        None => false,
    }
}

fn stack_at<'a, P: Panel>(workspace: &'a Workspace<P>, location: PanelLocation) -> (r: Option<&'a PaneState<P>>)
    requires
        workspace.wf(),
    ensures
        r is None <==> workspace@.pane_at(location) is None,
        r matches Some(ps) ==> Some(ps@) == workspace@.pane_at(location),
{
    proof {
        workspace.lemma_view_parts();
    }
    match location {
        PanelLocation::Center(pane) => workspace.panes.get(pane),
        PanelLocation::Dock(side) => Some(&workspace.docks.get(side).tabs),
    }
}

pub fn tab_close_visible<P: Panel>(workspace: &Workspace<P>, location: PanelLocation, tab: usize) -> (r: bool)
    requires
        workspace.wf(),
    ensures
        r == close_visible(workspace@, location, tab),
{
    proof {
        workspace.lemma_view_parts();
    }
    match stack_at(workspace, location) {
        None => false,
        Some(ps) => {
            if tab >= ps.tabs.len() {
                return false;
            }
            let active = tab == ps.active;
            let hovered = match workspace.hovered_tab {
                Some((l, t)) => l == location && t == tab,
                None => false,
            };
            active || hovered
        },
    }
}

/// The labels of the first `n` tabs, leaving out tab `omit`.
pub open spec fn titles_upto<P: Panel>(tabs: Seq<P>, omit: Option<usize>, n: int) -> Seq<Seq<char>>
    decreases n,
{
    if n <= 0 {
        Seq::empty()
    } else if omit == Some((n - 1) as usize) {
        titles_upto(tabs, omit, n - 1)
    } else {
        titles_upto(tabs, omit, n - 1).push(display_title(tabs[n - 1]))
    }
}

/// The tab labels at `location`, leaving out the tab being dragged.
pub open spec fn visible_titles<P: Panel>(v: WorkspaceView<P>, location: PanelLocation) -> Seq<Seq<char>> {
    match v.pane_at(location) {
        Some(pv) => titles_upto(pv.tabs, omitted_tab(location, v.drag_state), pv.tabs.len() as int),
        None => Seq::empty(),
    }
}

pub fn tab_titles_at<P: Panel>(workspace: &Workspace<P>, location: PanelLocation) -> (r: Vec<String>)
    requires
        workspace.wf(),
    ensures
        r@.map_values(|t: String| t@) == visible_titles(workspace@, location),
{
    proof {
        workspace.lemma_view_parts();
    }
    let mut out: Vec<String> = Vec::new();
    match stack_at(workspace, location) {
        None => {
            proof {
                assert(out@.map_values(|t: String| t@) =~= Seq::<Seq<char>>::empty());
            }
        },
        Some(ps) => {
            let omit = match &workspace.drag_state {
                Some(d) => if d.source_location == location { Some(d.source_tab) } else { None },
                None => None,
            };
            let n = ps.tabs.len();
            let mut i: usize = 0;
            while i < n
                invariant
                    n == ps.tabs@.len(),
                    i <= n,
                    out@.map_values(|t: String| t@) == titles_upto(ps.tabs@, omit, i as int),
                decreases n - i,
            {
                if omit != Some(i) {
                    let t = tab_display_title(&ps.tabs[i]);
                    let ghost before = out@;
                    out.push(t);
                    proof {
                        assert(out@.map_values(|t: String| t@) =~= before.map_values(|t: String| t@).push(t@));
                    }
                }
                i = i + 1;
            }
        },
    }
    out
}

/// The title the focus segment shows: the focused location's active tab,
/// or a dash.
pub open spec fn focus_title<P: Panel>(v: WorkspaceView<P>) -> Seq<char> {
    match v.pane_at(v.focused) {
        Some(pv) => if pv.active < pv.tabs.len() {
            pv.tabs[pv.active as int].title_spec()
        } else {
            "—"@
        },
        None => "—"@,
    }
}

/// The focus segment's lead: where focus is and the active title.
pub open spec fn focus_lead<P: Panel>(v: WorkspaceView<P>) -> Seq<char> {
    match v.focused {
        PanelLocation::Center(_) => "Focus: Center / "@ + focus_title(v),
        PanelLocation::Dock(side) => "Focus: "@ + dock_side_label(side) + " / "@ + focus_title(v),
    }
}

/// Segments joined with three spaces.
pub open spec fn joined(first: Seq<char>, rest: Seq<Seq<char>>) -> Seq<char>
    decreases rest.len(),
{
    if rest.len() == 0 {
        first
    } else {
        joined(first, rest.drop_last()) + "   "@ + rest.last()
    }
}

/// The status bar's focus segment: the lead, then the focused active
/// panel's own segments.
pub open spec fn focus_segment<P: Panel>(v: WorkspaceView<P>) -> Seq<char> {
    let extra = match v.pane_at(v.focused) {
        Some(pv) => if pv.active < pv.tabs.len() { pv.tabs[pv.active as int].status_spec() } else { Seq::empty() },
        None => Seq::empty(),
    };
    joined(focus_lead(v), extra)
}

pub fn probe_focus_segment<P: Panel>(workspace: &Workspace<P>) -> (r: String)
    requires
        workspace.wf(),
    ensures
        r@ == focus_segment(workspace@),
{
    proof {
        workspace.lemma_view_parts();
    }
    let stack = stack_at(workspace, workspace.focused);
    let (title, extra) = match stack {
        Some(ps) => match ps.active_panel() {
            Some(panel) => (panel.title(), panel.status_contribution()),
            None => ("—".to_owned(), Vec::new()),
        },
        None => ("—".to_owned(), Vec::new()),
    };
    let lead = match workspace.focused {
        PanelLocation::Center(_) => concat_str("Focus: Center / ", title.as_str()),
        PanelLocation::Dock(side) => {
            let a = concat_str("Focus: ", side.label());
            let b = concat_str(a.as_str(), " / ");
            concat_str(b.as_str(), title.as_str())
        },
    };
    let ghost ex = extra@.map_values(|seg: String| seg@);
    proof {
        assert(lead@ == focus_lead(workspace@));
        if extra@.len() == 0 {
            assert(ex =~= Seq::<Seq<char>>::empty());
        }
    }
    let mut out = lead;
    let n = extra.len();
    let mut i: usize = 0;
    while i < n
        invariant
            n == extra@.len(),
            ex == extra@.map_values(|seg: String| seg@),
            i <= n,
            out@ == joined(focus_lead(workspace@), ex.take(i as int)),
        decreases n - i,
    {
        let a = concat_str(out.as_str(), "   ");
        out = concat_str(a.as_str(), extra[i].as_str());
        proof {
            assert(ex.take(i + 1).drop_last() =~= ex.take(i as int));
            assert(ex.take(i + 1).last() == extra@[i as int]@);
        }
        i = i + 1;
    }
    proof {
        assert(ex.take(n as int) =~= ex);
    }
    out
}

/// Probe the whole shell.
pub fn probe_shell<P: Panel>(workspace: &Workspace<P>) -> (r: ShellProbe)
    requires
        workspace.wf(),
    ensures
        r.docks.left == dock_face(workspace@.left.tabs.tabs.len() == 0, workspace@.left.visibility),
        r.docks.right == dock_face(workspace@.right.tabs.tabs.len() == 0, workspace@.right.visibility),
        r.docks.bottom == dock_face(workspace@.bottom.tabs.tabs.len() == 0, workspace@.bottom.visibility),
        r.overlays == (OverlayProbe {
            drop_overlay: workspace@.drag_state is Some || workspace@.cross_window_drop_preview is Some,
            palette_open: workspace@.palette_open,
            palette_has_backdrop: false,
            close_confirmation: workspace@.close_confirmation is Some,
        }),
        r.tab_chrome == (TabChromeProbe {
            drag_source_hidden: match workspace@.drag_state {
                Some(d) => Some((d.source_location, d.source_tab)),
                None => None,
            },
            hovered_tab: workspace@.hovered_tab,
        }),
        r.status_bar.focus_segment@ == focus_segment(workspace@),
        r.dock_strip == (DockStripProbe {
            activity: strip_control(workspace@.left.visibility),
            conversation: strip_control(workspace@.right.visibility),
            output: strip_control(workspace@.bottom.visibility),
        }),
{
    proof {
        workspace.lemma_view_parts();
    }
    ShellProbe {
        docks: DockShellProbe {
            left: probe_dock_face(&workspace.docks.left),
            right: probe_dock_face(&workspace.docks.right),
            bottom: probe_dock_face(&workspace.docks.bottom),
        },
        overlays: OverlayProbe {
            drop_overlay: workspace.drag_state.is_some() || workspace.cross_window_drop_preview.is_some(),
            palette_open: workspace.palette.open,
            palette_has_backdrop: false,
            close_confirmation: workspace.close_confirmation.is_some(),
        },
        tab_chrome: TabChromeProbe {
            drag_source_hidden: match &workspace.drag_state {
                Some(d) => Some((d.source_location, d.source_tab)),
                None => None,
            },
            hovered_tab: workspace.hovered_tab,
        },
        status_bar: StatusBarProbe { focus_segment: probe_focus_segment(workspace) },
        dock_strip: DockStripProbe {
            activity: probe_dock_control(workspace, DockSide::Left),
            conversation: probe_dock_control(workspace, DockSide::Right),
            output: probe_dock_control(workspace, DockSide::Bottom),
        },
    }
}

} // verus!
