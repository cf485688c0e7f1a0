//! Shell-chrome decisions shared by the renderer and its smoke tests:
//! which affordances show, which tokens colour them, and what each dock
//! renders. Colours are resolved from the tokens by the renderer.

use crate::shared::design::{BorderToken, ForegroundToken, OpenZoneTheme};
use crate::workspace::workspace_dock::{Dock, DockVisibility};
use crate::workspace::workspace_location::{DockSide, Pane, PanelLocation};
use crate::workspace::workspace_panel::Panel;
use crate::workspace::workspace_state::{window_dirty, DirtyPanel, Workspace, WorkspaceView};
use vstd::prelude::*;

verus! {

/// Whether a tab's close affordance shows: on the active tab or under the
/// pointer.
pub fn tab_close_visible(active: bool, hovered: bool) -> (r: bool)
    ensures
        r == (active || hovered),
{
    active || hovered
}

/// The colour token of a pane or dock outline.
#[derive(Debug, Clone, Copy, PartialEq, Eq, Structural)]
pub enum OutlineToken {
    Foreground(ForegroundToken),
    Border(BorderToken),
}

/// Focused outlines use the accent, others the default border.
pub fn pane_border_token(_theme: OpenZoneTheme, focused: bool) -> (r: OutlineToken)
    ensures
        r == (if focused {
            OutlineToken::Foreground(ForegroundToken::Accent)
        } else {
            OutlineToken::Border(BorderToken::Default)
        }),
{
    if focused {
        OutlineToken::Foreground(ForegroundToken::Accent)
    } else {
        OutlineToken::Border(BorderToken::Default)
    }
}

/// Outline width in logical pixels: one, focused or not.
pub fn pane_border_width(_focused: bool) -> (r: u32)
    ensures
        r == 1,
{
    1
}

/// Whether focused chrome uses the accent outline of width one.
pub fn focused_pane_uses_accent_border(theme: OpenZoneTheme) -> (r: bool)
    ensures
        r == (pane_border_token_spec(true) == OutlineToken::Foreground(ForegroundToken::Accent)),
{
    pane_border_token(theme, true) == OutlineToken::Foreground(ForegroundToken::Accent) && pane_border_width(true) == 1
}

pub open spec fn pane_border_token_spec(focused: bool) -> OutlineToken {
    if focused {
        OutlineToken::Foreground(ForegroundToken::Accent)
    } else {
        OutlineToken::Border(BorderToken::Default)
    }
}

/// Whether drop previews are filled: they are outlines only.
pub fn drop_preview_uses_fill() -> (r: bool)
    ensures
        r == false,
{
    false
}

/// The active tab's underline token; other tabs have none.
pub fn tab_chip_underline_token(_theme: OpenZoneTheme, active: bool) -> (r: Option<ForegroundToken>)
    ensures
        r == (if active { Some(ForegroundToken::Accent) } else { None::<ForegroundToken> }),
{
    if active {
        Some(ForegroundToken::Accent)
    } else {
        None
    }
}

/// The dock control token for a visibility.
pub fn dock_control_token(_theme: OpenZoneTheme, visibility: DockVisibility) -> (r: ForegroundToken)
    ensures
        r == (match visibility {
            DockVisibility::Open => ForegroundToken::Accent,
            DockVisibility::Collapsed => ForegroundToken::Secondary,
            DockVisibility::Hidden => ForegroundToken::Muted,
        }),
{
    match visibility {
        DockVisibility::Open => ForegroundToken::Accent,
        DockVisibility::Collapsed => ForegroundToken::Secondary,
        DockVisibility::Hidden => ForegroundToken::Muted,
    }
}

/// The collapse and hide labels of a dock strip.
pub fn dock_strip_control_labels() -> (r: (&'static str, &'static str))
    ensures
        r.0@ == "▾"@,
        r.1@ == "×"@,
{
    ("▾", "×")
}

/// What a dock renders.
#[derive(Debug, Clone, Copy, PartialEq, Eq, Structural)]
pub enum DockRenderRole {
    /// Nothing: the dock is empty or hidden.
    Nothing,
    /// A thin rail: collapsed.
    Rail,
    /// Its tab stack: open.
    Body,
}

pub open spec fn render_role(empty: bool, visibility: DockVisibility) -> DockRenderRole {
    if empty || visibility == DockVisibility::Hidden {
        DockRenderRole::Nothing
    } else if visibility == DockVisibility::Open {
        DockRenderRole::Body
    } else {
        DockRenderRole::Rail
    }
}

/// What a dock renders: nothing when empty or hidden, its body when open,
/// a rail when collapsed.
pub fn dock_render_role<P>(dock: &Dock<P>) -> (r: DockRenderRole)
    ensures
        r == render_role(dock.tabs.tabs@.len() == 0, dock.visibility),
{
    if dock.is_empty() || dock.is_hidden() {
        DockRenderRole::Nothing
    } else if dock.is_open() {
        DockRenderRole::Body
    } else {
        DockRenderRole::Rail
    }
}

/// Whether a dock's chrome control does anything: the dock has tabs, a
/// default surface, or is open.
pub open spec fn control_enabled<P: Panel>(v: WorkspaceView<P>, side: DockSide) -> bool {
    v.dock(side).tabs.tabs.len() > 0 || v.surface(side) is Some || v.dock(side).visibility == DockVisibility::Open
}

pub fn dock_control_enabled<P: Panel>(workspace: &Workspace<P>, side: DockSide) -> (r: bool)
    requires
        workspace.wf(),
    ensures
        r == control_enabled(workspace@, side),
{
    proof {
        workspace.lemma_view_parts();
    }
    let dock = workspace.docks.get(side);
    !dock.is_empty() || workspace.has_dock_factory(side) || dock.is_open()
}

/// A tab title with the dirty marker.
pub fn dirty_tab_title(title: &str) -> (r: String)
    ensures
        r@ == "• "@ + title@,
{
    crate::workspace::workspace_text::concat_str("• ", title)
}

/// The marked titles of a run of dirty tabs.
pub open spec fn marked_titles(ds: Seq<(PanelLocation, usize, Seq<char>, Seq<char>)>) -> Seq<Seq<char>> {
    ds.map_values(|d: (PanelLocation, usize, Seq<char>, Seq<char>)| "• "@ + d.2)
}

/// The marked titles of every dirty tab: center panes in iteration order,
/// then the left, right and bottom docks.
pub fn dirty_tab_titles<P: Panel>(workspace: &Workspace<P>) -> (r: Vec<String>)
    requires
        workspace.wf(),
    ensures
        r@.map_values(|t: String| t@) == marked_titles(window_dirty(workspace@)),
{
    let mut out: Vec<String> = Vec::new();
    let dirty = workspace.collect_dirty_panels();
    let ghost dv = dirty@.map_values(|d: DirtyPanel| d.view());
    let n = dirty.len();
    let mut i: usize = 0;
    while i < n
        invariant
            n == dirty@.len(),
            dv == dirty@.map_values(|d: DirtyPanel| d.view()),
            i <= n,
            out@.map_values(|t: String| t@) == marked_titles(dv.take(i as int)),
        decreases n - i,
    {
        let ghost prev = out@;
        out.push(dirty_tab_title(dirty[i].title.as_str()));
        proof {
            assert(dv.take(i + 1) =~= dv.take(i as int).push(dv[i as int]));
            assert(out@.map_values(|t: String| t@) =~= prev.map_values(|t: String| t@).push("• "@ + dv[i as int].2));
            assert(marked_titles(dv.take(i + 1)) =~= marked_titles(dv.take(i as int)).push("• "@ + dv[i as int].2));
        }
        i = i + 1;
    }
    proof {
        assert(dv.take(n as int) =~= dv);
    }
    out
}

/// The shell-level facts a smoke test checks.
#[derive(Debug, Clone, PartialEq, Eq)]
pub struct ShellSmokeSnapshot {
    pub dock_roles: [(DockSide, DockRenderRole); 3],
    pub dock_controls_enabled: [(DockSide, bool); 3],
    pub dirty_tab_titles: Vec<String>,
    pub palette_open: bool,
    pub palette_has_visual_backdrop: bool,
    pub close_confirmation_open: bool,
    pub focused_uses_accent_border: bool,
    pub drop_preview_uses_fill: bool,
}

/// Whether the palette overlay draws a backdrop: it does not.
pub fn palette_has_visual_backdrop() -> (r: bool)
    ensures
        r == false,
{
    false
}

/// The smoke snapshot of a workspace.
pub fn shell_smoke_snapshot<P: Panel>(workspace: &Workspace<P>) -> (r: ShellSmokeSnapshot)
    requires
        workspace.wf(),
    ensures
        r.dock_roles@ == seq![
            (DockSide::Left, render_role(workspace@.left.tabs.tabs.len() == 0, workspace@.left.visibility)),
            (DockSide::Right, render_role(workspace@.right.tabs.tabs.len() == 0, workspace@.right.visibility)),
            (DockSide::Bottom, render_role(workspace@.bottom.tabs.tabs.len() == 0, workspace@.bottom.visibility)),
        ],
        r.dock_controls_enabled@ == seq![
            (DockSide::Left, control_enabled(workspace@, DockSide::Left)),
            (DockSide::Right, control_enabled(workspace@, DockSide::Right)),
            (DockSide::Bottom, control_enabled(workspace@, DockSide::Bottom)),
        ],
        r.dirty_tab_titles@.map_values(|t: String| t@) == marked_titles(window_dirty(workspace@)),
        r.palette_open == workspace@.palette_open,
        !r.palette_has_visual_backdrop,
        r.close_confirmation_open == (workspace@.close_confirmation is Some),
        r.focused_uses_accent_border,
        !r.drop_preview_uses_fill,
{
    proof {
        workspace.lemma_view_parts();
    }
    ShellSmokeSnapshot {
        dock_roles: [
            (DockSide::Left, dock_render_role(&workspace.docks.left)),
            (DockSide::Right, dock_render_role(&workspace.docks.right)),
            (DockSide::Bottom, dock_render_role(&workspace.docks.bottom)),
        ],
        dock_controls_enabled: [
            (DockSide::Left, dock_control_enabled(workspace, DockSide::Left)),
            (DockSide::Right, dock_control_enabled(workspace, DockSide::Right)),
            (DockSide::Bottom, dock_control_enabled(workspace, DockSide::Bottom)),
        ],
        dirty_tab_titles: dirty_tab_titles(workspace),
        palette_open: workspace.palette.open,
        palette_has_visual_backdrop: palette_has_visual_backdrop(),
        close_confirmation_open: workspace.close_confirmation.is_some(),
        focused_uses_accent_border: focused_pane_uses_accent_border(workspace.theme),
        drop_preview_uses_fill: drop_preview_uses_fill(),
    }
}

} // verus!
