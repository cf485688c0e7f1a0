//! The application root: every workspace window by its window key, the
//! onboarding window, the app-root stores shared by all windows, and the
//! guard that asks before dirty tabs are lost when windows close.
//!
//! Opening and closing OS windows, reading and writing files and hit
//! testing belong to the application; this state decides, and hands back
//! the effects the application carries out.

use crate::features::feature_panel::{FeatureMessage, FeaturePanel};
use crate::features::onboarding::onboarding_state::{
    initial_onboarding, onboarding_step, OnboardingMessage, OnboardingOutcome, OnboardingState,
};
use crate::features::scratch::ScratchPanel;
use crate::shared::design::ThemeMode;
use crate::workspace::workspace_command::Chord;
use crate::workspace::workspace_command_palette::{default_catalog, default_command_items, CommandId};
use crate::workspace::workspace_dock::DockVisibility;
use crate::workspace::workspace_drag::{DragState, DropTarget, PointBits, SizeBits};
use crate::workspace::workspace_location::{DockSide, Pane, PanelLocation};
use crate::workspace::workspace_pane_grid::Node;
use crate::workspace::workspace_pane_state::PaneState;
use crate::workspace::workspace_panel::{Panel, PanelKind};
use crate::workspace::workspace_persistence::{
    capture, captured, center_built, center_leaves, center_size, layout_restored, layout_tab_count, restore, LayoutSnapshot, LayoutView,
};
use crate::workspace::workspace_registry::PanelRegistry;
use crate::workspace::workspace_state::{
    at_rest, lemma_fallback_rest, lemma_populated_rest, lemma_same_rest, cleaned_up, committed, updated_by, discard_trace, dirty_views, docks_populated, drag_applied, palette_dismissed, restored_at, tab_closed,
    tab_taken, scratch_fallback, scratch_step, scratch_trace, window_dirty, CrossWindowDropPreview, DirtyPanel, Workspace,
    WorkspaceMessage, WorkspaceView,
};
use crate::workspace::workspace_stores::{AppStores, StoresModel};
use crate::workspace::workspace_text::{concat_str, decimal, decimal_string};
use vstd::prelude::*;

verus! {

/// A workspace OS window: its key, its creation ordinal (for its title)
/// and its workspace.
pub struct WorkspaceWindow {
    pub key: u64,
    pub ordinal: usize,
    pub workspace: Workspace<FeaturePanel>,
}

/// The plain value of a workspace window.
pub struct WindowView {
    pub key: u64,
    pub ordinal: usize,
    pub workspace: WorkspaceView<FeaturePanel>,
}

impl WorkspaceWindow {
    pub open spec fn view(&self) -> WindowView {
        WindowView { key: self.key, ordinal: self.ordinal, workspace: self.workspace@ }
    }
}

/// The plain values of a run of windows.
pub open spec fn window_views(ws: Seq<WorkspaceWindow>) -> Seq<WindowView> {
    ws.map_values(|w: WorkspaceWindow| w.view())
}

/// No key names two windows.
pub open spec fn keys_unique(ws: Seq<WindowView>) -> bool {
    forall|i: int, j: int| 0 <= i < ws.len() && 0 <= j < ws.len() && i != j ==> #[trigger] ws[i].key != #[trigger] ws[j].key
}

/// Some window has `key`.
pub open spec fn has_window(ws: Seq<WindowView>, key: u64) -> bool {
    exists|i: int| 0 <= i < ws.len() && #[trigger] ws[i].key == key
}

/// The position of the window with `key`.
pub open spec fn key_index(ws: Seq<WindowView>, key: u64) -> int {
    choose|i: int| 0 <= i < ws.len() && #[trigger] ws[i].key == key
}

/// A dirty tab of some window, for the app-quit prompt.
#[derive(Debug, Clone)]
pub struct GlobalDirtyPanel {
    pub window: u64,
    pub window_label: String,
    pub location: PanelLocation,
    pub tab: usize,
    pub title: String,
}

impl GlobalDirtyPanel {
    pub open spec fn view(&self) -> (u64, Seq<char>, PanelLocation, usize, Seq<char>) {
        (self.window, self.window_label@, self.location, self.tab, self.title@)
    }
}

/// The plain values of a run of global dirty tabs.
pub open spec fn global_views(ds: Seq<GlobalDirtyPanel>) -> Seq<(u64, Seq<char>, PanelLocation, usize, Seq<char>)> {
    ds.map_values(|d: GlobalDirtyPanel| d.view())
}

/// The confirmation asked before windows with dirty tabs close.
#[derive(Debug, Clone)]
pub enum AppClosePrompt {
    /// One window closes.
    Window { target_window: u64, panels: Vec<DirtyPanel> },
    /// The application quits: every window closes.
    AppQuit { target_window: u64, panels: Vec<GlobalDirtyPanel> },
}

/// The plain value of a close prompt.
pub enum PromptView {
    Window { target_window: u64, panels: Seq<(PanelLocation, usize, Seq<char>, Seq<char>)> },
    AppQuit { target_window: u64, panels: Seq<(u64, Seq<char>, PanelLocation, usize, Seq<char>)> },
}

impl AppClosePrompt {
    pub open spec fn view(&self) -> PromptView {
        match self {
            AppClosePrompt::Window { target_window, panels } => PromptView::Window { target_window: *target_window, panels: dirty_views(panels@) },
            AppClosePrompt::AppQuit { target_window, panels } => PromptView::AppQuit { target_window: *target_window, panels: global_views(panels@) },
        }
    }

    /// The question the prompt asks (see [`prompt_title`]).
    pub fn title(&self) -> (r: String)
        ensures
            r@ == prompt_title(self.view()),
    {
        match self {
            AppClosePrompt::Window { panels, .. } => {
                if panels.len() == 1 {
                    let a = concat_str("\"", panels[0].title.as_str());
                    concat_str(a.as_str(), "\" has unsaved changes. Close the window anyway?")
                } else {
                    let n = decimal_string(panels.len() as u128);
                    concat_str(n.as_str(), " tabs have unsaved changes. Close the window anyway?")
                }
            },
            AppClosePrompt::AppQuit { panels, .. } => {
                if panels.len() == 1 {
                    "1 tab has unsaved changes. Quit anyway?".to_owned()
                } else {
                    let n = decimal_string(panels.len() as u128);
                    concat_str(n.as_str(), " tabs have unsaved changes. Quit anyway?")
                }
            },
        }
    }

    /// The lines the prompt lists (see [`prompt_items`]).
    pub fn items(&self) -> (r: Vec<String>)
        ensures
            r@.map_values(|x: String| x@) == prompt_items(self.view()),
    {
        let mut out: Vec<String> = Vec::new();
        match self {
            AppClosePrompt::Window { panels, .. } => {
                if panels.len() > 1 {
                    let ghost ps = dirty_views(panels@);
                    let mut i: usize = 0;
                    while i < panels.len()
                        invariant
                            i <= panels@.len(),
                            ps == dirty_views(panels@),
                            out@.len() == i,
                            forall|k: int| 0 <= k < i ==> #[trigger] out@[k]@ == "• "@ + ps[k].2,
                        decreases panels@.len() - i,
                    {
                        let line = concat_str("• ", panels[i].title.as_str());
                        out.push(line);
                        i = i + 1;
                    }
                    proof {
                        assert(out@.map_values(|x: String| x@) =~= ps.map_values(
                            |d: (PanelLocation, usize, Seq<char>, Seq<char>)| "• "@ + d.2,
                        ));
                    }
                } else {
                    proof {
                        assert(out@.map_values(|x: String| x@) =~= Seq::<Seq<char>>::empty());
                    }
                }
            },
            AppClosePrompt::AppQuit { panels, .. } => {
                let ghost gs = global_views(panels@);
                let mut i: usize = 0;
                while i < panels.len()
                    invariant
                        i <= panels@.len(),
                        gs == global_views(panels@),
                        out@.len() == i,
                        forall|k: int| 0 <= k < i ==> #[trigger] out@[k]@ == "• "@ + (gs[k].1 + ": "@ + gs[k].4),
                    decreases panels@.len() - i,
                {
                    let a = concat_str(panels[i].window_label.as_str(), ": ");
                    let b = concat_str(a.as_str(), panels[i].title.as_str());
                    let line = concat_str("• ", b.as_str());
                    out.push(line);
                    i = i + 1;
                }
                proof {
                    assert(out@.map_values(|x: String| x@) =~= gs.map_values(
                        |g: (u64, Seq<char>, PanelLocation, usize, Seq<char>)| "• "@ + (g.1 + ": "@ + g.4),
                    ));
                }
            },
        }
        out
    }

    /// The window the prompt shows over.
    pub fn target_window(&self) -> (r: u64)
        ensures
            r == prompt_target(self.view()),
    {
        match self {
            AppClosePrompt::Window { target_window, .. } => *target_window,
            AppClosePrompt::AppQuit { target_window, .. } => *target_window,
        }
    }
}

/// The question a close prompt asks: one dirty tab by its title, several
/// by their number; an application quit by the number of dirty tabs.
pub open spec fn prompt_title(p: PromptView) -> Seq<char> {
    match p {
        PromptView::Window { panels, .. } => if panels.len() == 1 {
            "\""@ + panels[0].2 + "\" has unsaved changes. Close the window anyway?"@
        } else {
            decimal(panels.len()) + " tabs have unsaved changes. Close the window anyway?"@
        },
        PromptView::AppQuit { panels, .. } => if panels.len() == 1 {
            "1 tab has unsaved changes. Quit anyway?"@
        } else {
            decimal(panels.len()) + " tabs have unsaved changes. Quit anyway?"@
        },
    }
}

/// The lines a close prompt lists: for a window, each dirty tab's title
/// marked with a dot when there are several (none for one); for a quit,
/// every dirty tab as its window's title and its own.
pub open spec fn prompt_items(p: PromptView) -> Seq<Seq<char>> {
    match p {
        PromptView::Window { panels, .. } => if panels.len() > 1 {
            panels.map_values(|d: (PanelLocation, usize, Seq<char>, Seq<char>)| "• "@ + d.2)
        } else {
            Seq::empty()
        },
        PromptView::AppQuit { panels, .. } => panels.map_values(
            |g: (u64, Seq<char>, PanelLocation, usize, Seq<char>)| "• "@ + (g.1 + ": "@ + g.4),
        ),
    }
}

/// The window a prompt shows over.
pub open spec fn prompt_target(p: PromptView) -> u64 {
    match p {
        PromptView::Window { target_window, .. } => target_window,
        PromptView::AppQuit { target_window, .. } => target_window,
    }
}

/// What the application carries out after a step.
#[derive(Debug)]
pub enum AppEffect {
    /// Record that onboarding was completed.
    MarkOnboardingCompleted,
    /// Open the primary workspace window (restoring the stored layout, if
    /// any) and hand it to [`OpenZone::insert_primary_workspace`].
    OpenPrimaryWorkspace,
    /// Open another workspace window and hand it to
    /// [`OpenZone::insert_secondary_workspace`].
    OpenWorkspace,
    /// Open a workspace window hosting a torn-off tab and hand it to
    /// [`OpenZone::insert_workspace_with_panel`].
    OpenWorkspaceWith(FeaturePanel),
    /// Close a window, first saving `layout` when there is one.
    CloseWindow { key: u64, layout: Option<LayoutSnapshot> },
    /// Run [`AppMessage::EvaluatePendingCloses`] after this event-loop turn.
    ScheduleCloseEvaluation,
    /// Exit the application.
    Exit,
}

/// The plain value of an effect.
pub enum EffectView {
    MarkOnboardingCompleted,
    OpenPrimaryWorkspace,
    OpenWorkspace,
    OpenWorkspaceWith(FeaturePanel),
    CloseWindow { key: u64, layout: Option<LayoutView> },
    ScheduleCloseEvaluation,
    Exit,
}

impl AppEffect {
    pub open spec fn view(&self) -> EffectView {
        match self {
            AppEffect::MarkOnboardingCompleted => EffectView::MarkOnboardingCompleted,
            AppEffect::OpenPrimaryWorkspace => EffectView::OpenPrimaryWorkspace,
            AppEffect::OpenWorkspace => EffectView::OpenWorkspace,
            AppEffect::OpenWorkspaceWith(p) => EffectView::OpenWorkspaceWith(*p),
            AppEffect::CloseWindow { key, layout } => EffectView::CloseWindow {
                key: *key,
                layout: match layout {
                    Some(l) => Some(l.view()),
                    None => None,
                },
            },
            AppEffect::ScheduleCloseEvaluation => EffectView::ScheduleCloseEvaluation,
            AppEffect::Exit => EffectView::Exit,
        }
    }
}

/// The plain values of a run of effects.
pub open spec fn effect_views(es: Seq<AppEffect>) -> Seq<EffectView> {
    es.map_values(|e: AppEffect| e.view())
}

/// The multi-window application state.
pub struct OpenZone {
    pub onboarding: Option<OnboardingState>,
    pub onboarding_window: Option<u64>,
    pub windows: Vec<WorkspaceWindow>,
    /// The app-root stores every window's panels read.
    pub stores: AppStores,
    /// The kinds a stored layout can rebuild.
    pub registry: PanelRegistry,
    pub theme_mode: ThemeMode,
    /// The first workspace window opened from onboarding; its layout is
    /// the one persisted.
    pub primary_window: Option<u64>,
    pub next_window_ordinal: usize,
    /// Windows whose close was requested and is still to be decided.
    pub pending_close_windows: Vec<u64>,
    pub close_eval_scheduled: bool,
    pub app_close_prompt: Option<AppClosePrompt>,
}

/// The plain value of the application state.
pub struct OpenZoneView {
    pub onboarding: Option<OnboardingState>,
    pub onboarding_window: Option<u64>,
    pub windows: Seq<WindowView>,
    pub stores: StoresModel,
    pub registered: Set<PanelKind>,
    pub theme_mode: ThemeMode,
    pub primary_window: Option<u64>,
    pub next_window_ordinal: usize,
    pub pending_close_windows: Seq<u64>,
    pub close_eval_scheduled: bool,
    pub app_close_prompt: Option<PromptView>,
}

impl View for OpenZone {
    type V = OpenZoneView;

    open spec fn view(&self) -> OpenZoneView {
        OpenZoneView {
            onboarding: self.onboarding,
            onboarding_window: self.onboarding_window,
            windows: window_views(self.windows@),
            stores: self.stores.model(),
            registered: self.registry.registered(),
            theme_mode: self.theme_mode,
            primary_window: self.primary_window,
            next_window_ordinal: self.next_window_ordinal,
            pending_close_windows: self.pending_close_windows@,
            close_eval_scheduled: self.close_eval_scheduled,
            app_close_prompt: match self.app_close_prompt {
                Some(p) => Some(p.view()),
                None => None,
            },
        }
    }
}

/// The title of the window with ordinal `n`: the first is plain, later
/// ones carry their number.
pub open spec fn ordinal_label(n: usize) -> Seq<char> {
    if n == 1 {
        "OpenZone"@
    } else {
        "OpenZone ("@ + decimal(n as nat) + ")"@
    }
}

/// The title of the window with `key`.
pub open spec fn window_title(v: OpenZoneView, key: u64) -> Seq<char> {
    if has_window(v.windows, key) {
        ordinal_label(v.windows[key_index(v.windows, key)].ordinal)
    } else {
        "OpenZone"@
    }
}

impl OpenZone {
    /// Keys are unique, the stores and every workspace are well formed.
    pub open spec fn wf(&self) -> bool {
        &&& self.stores.wf()
        &&& keys_unique(window_views(self.windows@))
        &&& self.pending_close_windows@.no_duplicates()
        &&& forall|i: int| 0 <= i < self.windows@.len() ==> (#[trigger] self.windows@[i]).workspace.wf()
    }

    /// The state at launch: the onboarding window open, no workspace yet,
    /// fresh stores, and a registry that rebuilds scratch buffers.
    pub fn new(onboarding_window: u64, theme_mode: ThemeMode) -> (r: Self)
        ensures
            r.wf(),
            r@.onboarding == Some(initial_onboarding(theme_mode)),
            r@.onboarding_window == Some(onboarding_window),
            r@.windows.len() == 0,
            r@.stores == (StoresModel { counts: Map::empty(), next_id: 0, ticks: 0 }),
            r@.registered == set![PanelKind::Scratch],
            r@.theme_mode == theme_mode,
            r@.primary_window is None,
            r@.next_window_ordinal == 0,
            r@.pending_close_windows.len() == 0,
            !r@.close_eval_scheduled,
            r@.app_close_prompt is None,
    {
        let mut registry = PanelRegistry::new();
        registry.register(PanelKind::Scratch);
        let r = OpenZone {
            onboarding: Some(OnboardingState::new(theme_mode)),
            onboarding_window: Some(onboarding_window),
            windows: Vec::new(),
            stores: AppStores::new(),
            registry,
            theme_mode,
            primary_window: None,
            next_window_ordinal: 0,
            pending_close_windows: Vec::new(),
            close_eval_scheduled: false,
            app_close_prompt: None,
        };
        proof {
            assert(r.registry.registered() =~= set![PanelKind::Scratch]);
            assert(r@.stores.counts =~= Map::<u64, i64>::empty());
        }
        r
    }

    /// The position of the window with `key`, if any.
    fn find(&self, key: u64) -> (r: Option<usize>)
        ensures
            r is None <==> !has_window(self@.windows, key),
            r matches Some(i) ==> i < self.windows@.len() && self.windows@[i as int].key == key,
    {
        let n = self.windows.len();
        let mut i: usize = 0;
        while i < n
            invariant
                n == self.windows@.len(),
                i <= n,
                forall|j: int| 0 <= j < i ==> (#[trigger] self.windows@[j]).key != key,
            decreases n - i,
        {
            if self.windows[i].key == key {
                proof {
                    assert(self@.windows[i as int].key == key);
                }
                return Some(i);
            }
            i = i + 1;
        }
        proof {
            if has_window(self@.windows, key) {
                let j = choose|j: int| 0 <= j < self@.windows.len() && #[trigger] self@.windows[j].key == key;
                assert(self.windows@[j].key == key);
            }
        }
        None
    }

    /// The title of the window with `key`.
    pub fn window_label(&self, key: u64) -> (r: String)
        requires
            self.wf(),
        ensures
            r@ == window_title(self@, key),
    {
        match self.find(key) {
            Some(i) => {
                proof {
                    lemma_key_index(self@.windows, key, i as int);
                }
                let n = self.windows[i].ordinal;
                if n == 1 {
                    "OpenZone".to_owned()
                } else {
                    let a = concat_str("OpenZone (", decimal_string(n as u128).as_str());
                    concat_str(a.as_str(), ")")
                }
            },
            None => "OpenZone".to_owned(),
        }
    }
}

/// With unique keys, the window with `key` is the one at any position
/// holding it.
pub proof fn lemma_key_index(ws: Seq<WindowView>, key: u64, i: int)
    requires
        keys_unique(ws),
        0 <= i < ws.len(),
        ws[i].key == key,
    ensures
        has_window(ws, key),
        key_index(ws, key) == i,
{
    assert(has_window(ws, key));
    let j = key_index(ws, key);
    if j != i {
        assert(ws[i].key != ws[j].key);
    }
}

/// Every surface of a shell workspace is a scratch buffer: the center's
/// fallback and the three docks' defaults (placeholders until the real
/// activity, conversation and output panels exist).
pub open spec fn wired(v: WorkspaceView<FeaturePanel>) -> WorkspaceView<FeaturePanel> {
    WorkspaceView {
        scratch_surface: Some(PanelKind::Scratch),
        left_surface: Some(PanelKind::Scratch),
        right_surface: Some(PanelKind::Scratch),
        bottom_surface: Some(PanelKind::Scratch),
        ..v
    }
}

/// A view with the shipped palette catalog.
pub open spec fn with_catalog(v: WorkspaceView<FeaturePanel>) -> WorkspaceView<FeaturePanel> {
    WorkspaceView { all_commands: default_catalog(), ..v }
}

/// A fresh shell workspace: one center pane holding an empty scratch
/// buffer and focused, hidden empty docks, every surface a scratch buffer,
/// the shipped palette catalog, and otherwise at rest.
pub open spec fn fresh_shell(w: WorkspaceView<FeaturePanel>, theme_mode: ThemeMode, size: SizeBits) -> bool {
    &&& w.grid.layout == Node::Pane(Pane(0))
    &&& w.grid.panes.dom() == set![Pane(0)]
    &&& w.grid.panes[Pane(0)].tabs.len() == 1
    &&& w.grid.panes[Pane(0)].active == 0
    &&& (w.grid.panes[Pane(0)].tabs[0] matches FeaturePanel::Scratch(x) && x.text@.len() == 0)
    &&& w.focused == PanelLocation::Center(Pane(0))
    &&& w.left.tabs.tabs.len() == 0 && w.right.tabs.tabs.len() == 0 && w.bottom.tabs.tabs.len() == 0
    &&& w.left.visibility == DockVisibility::Hidden
    &&& w.right.visibility == DockVisibility::Hidden
    &&& w.bottom.visibility == DockVisibility::Hidden
    &&& w == with_catalog(wired(w))
    &&& at_rest(w, theme_mode)
    &&& w.window_size == size
}

fn wire(ws: &mut Workspace<FeaturePanel>)
    ensures
        final(ws)@ == wired(old(ws)@),
        old(ws).wf() ==> final(ws).wf(),
{
    ws.set_scratch_factory(PanelKind::Scratch);
    ws.set_dock_factory(DockSide::Left, PanelKind::Scratch);
    ws.set_dock_factory(DockSide::Right, PanelKind::Scratch);
    ws.set_dock_factory(DockSide::Bottom, PanelKind::Scratch);
}

fn set_default_catalog(ws: &mut Workspace<FeaturePanel>)
    ensures
        final(ws)@ == with_catalog(old(ws)@),
        old(ws).wf() ==> final(ws).wf(),
{
    ws.set_command_catalog(default_command_items());
}

/// A scratch pass over a view whose only pane holds a tab changes nothing.
proof fn lemma_fallback_of_full_pane(v: WorkspaceView<FeaturePanel>, s: StoresModel, w: WorkspaceView<FeaturePanel>, t: StoresModel)
    requires
        v.grid.panes.dom() == set![Pane(0)],
        v.grid.panes[Pane(0)].tabs.len() > 0,
        scratch_fallback(v, s, w, t),
    ensures
        w == v,
        t == s,
{
    let (ids, trace) = choose|ids: Seq<Pane>, trace: Seq<(WorkspaceView<FeaturePanel>, StoresModel)>| {
        &&& ids.no_duplicates()
        &&& (forall|p: Pane| #[trigger] ids.contains(p) <==> v.grid.panes.contains_key(p))
        &&& (forall|i: int, j: int| 0 <= i < j < ids.len() ==> (#[trigger] ids[i]).0 < (#[trigger] ids[j]).0)
        &&& #[trigger] scratch_trace(trace, ids)
        &&& trace[0] == (v, s)
        &&& trace.last() == (w, t)
    };
    ids.unique_seq_to_set();
    assert(ids.to_set() =~= set![Pane(0)]) by {
        assert forall|p: Pane| ids.to_set().contains(p) <==> set![Pane(0)].contains(p) by {
            assert(ids.contains(p) <==> v.grid.panes.contains_key(p));
        }
    }
    assert(ids.len() == 1);
    assert(ids.contains(Pane(0)));
    assert(ids[0] == Pane(0));
    assert(scratch_step(trace[0].0, trace[0].1, ids[0], trace[1].0, trace[1].1));
}

/// Build a shell workspace for a window of `size`.
fn build_workspace(stores: &mut AppStores, theme_mode: ThemeMode, size: SizeBits) -> (r: Workspace<FeaturePanel>)
    requires
        old(stores).wf(),
        FeaturePanel::room(old(stores).model(), 1),
    ensures
        r.wf(),
        final(stores).model() == old(stores).model(),
        final(stores).wf(),
        fresh_shell(r@, theme_mode, size),
{
    let mut tabs: Vec<FeaturePanel> = Vec::new();
    tabs.push(FeaturePanel::Scratch(ScratchPanel::new()));
    let center = PaneState::new(tabs);
    let mut workspace = Workspace::single_pane(center, theme_mode).with_window_size(size);
    wire(&mut workspace);
    set_default_catalog(&mut workspace);
    let ghost v = workspace@;
    let ghost s = stores.model();
    proof {
        assert(v.grid.panes.dom() =~= set![Pane(0)]);
    }
    workspace.ensure_scratch_fallback(stores);
    proof {
        lemma_fallback_of_full_pane(v, s, workspace@, stores.model());
    }
    workspace
}

/// A shell workspace holding `tab` alone: one center pane, focused, hidden
/// empty docks, every surface a scratch buffer, the shipped catalog, and
/// otherwise at rest.
pub open spec fn shell_holding(w: WorkspaceView<FeaturePanel>, tab: FeaturePanel, theme_mode: ThemeMode, size: SizeBits) -> bool {
    &&& w.grid.layout == Node::Pane(Pane(0))
    &&& w.grid.panes.dom() == set![Pane(0)]
    &&& w.grid.panes[Pane(0)].tabs == seq![tab]
    &&& w.grid.panes[Pane(0)].active == 0
    &&& w.focused == PanelLocation::Center(Pane(0))
    &&& w.left.tabs.tabs.len() == 0 && w.right.tabs.tabs.len() == 0 && w.bottom.tabs.tabs.len() == 0
    &&& w.left.visibility == DockVisibility::Hidden
    &&& w.right.visibility == DockVisibility::Hidden
    &&& w.bottom.visibility == DockVisibility::Hidden
    &&& w == with_catalog(wired(w))
    &&& at_rest(w, theme_mode)
    &&& w.window_size == size
}

/// The primary workspace: the stored layout restored through the registry,
/// wired, each emptied center pane refilled, open empty docks populated and
/// the catalog set, at rest; or, with nothing stored, a fresh shell.
pub open spec fn primary_built(v: OpenZoneView, stored: Option<LayoutView>, size: SizeBits, w: WorkspaceView<FeaturePanel>, t: StoresModel) -> bool {
    match stored {
        None => fresh_shell(w, v.theme_mode, size) && t == v.stores,
        Some(lv) => exists|r0: WorkspaceView<FeaturePanel>, s1: StoresModel, r2: WorkspaceView<FeaturePanel>, s2: StoresModel, r3: WorkspaceView<FeaturePanel>| {
            &&& #[trigger] layout_restored(lv, v.registered, v.stores, r0, s1)
            &&& r0.theme_mode == v.theme_mode
            &&& #[trigger] scratch_fallback(wired(r0), s1, r2, s2)
            &&& #[trigger] docks_populated(r2, s2, r3, t)
            &&& w == (WorkspaceView { window_size: size, ..with_catalog(r3) })
            &&& at_rest(w, v.theme_mode)
        },
    }
}

proof fn lemma_push_window(ws: Seq<WorkspaceWindow>, w: WorkspaceWindow)
    requires
        keys_unique(window_views(ws)),
        !has_window(window_views(ws), w.key),
    ensures
        window_views(ws.push(w)) == window_views(ws).push(w.view()),
        keys_unique(window_views(ws.push(w))),
{
    assert(window_views(ws.push(w)) =~= window_views(ws).push(w.view()));
    let vs = window_views(ws.push(w));
    assert forall|i: int, j: int| 0 <= i < vs.len() && 0 <= j < vs.len() && i != j implies #[trigger] vs[i].key != #[trigger] vs[j].key by {
        if i < ws.len() && j < ws.len() {
            assert(vs[i] == window_views(ws)[i] && vs[j] == window_views(ws)[j]);
        } else if i < ws.len() {
            assert(vs[i] == window_views(ws)[i]);
        } else {
            assert(vs[j] == window_views(ws)[j]);
        }
    }
}

impl OpenZone {
    fn push_window(&mut self, key: u64, workspace: Workspace<FeaturePanel>)
        requires
            old(self).wf(),
            !has_window(old(self)@.windows, key),
            old(self).next_window_ordinal < usize::MAX,
            workspace.wf(),
        ensures
            final(self).wf(),
            final(self)@ == (OpenZoneView {
                windows: old(self)@.windows.push(WindowView { key, ordinal: (old(self).next_window_ordinal + 1) as usize, workspace: workspace@ }),
                next_window_ordinal: (old(self).next_window_ordinal + 1) as usize,
                ..old(self)@
            }),
    {
        self.next_window_ordinal = self.next_window_ordinal + 1;
        let w = WorkspaceWindow { key, ordinal: self.next_window_ordinal, workspace };
        proof {
            lemma_push_window(self.windows@, w);
        }
        let ghost before = self.windows@;
        self.windows.push(w);
        proof {
            assert forall|i: int| 0 <= i < self.windows@.len() implies (#[trigger] self.windows@[i]).workspace.wf() by {
                if i < before.len() {
                    assert(self.windows@[i] == before[i]);
                }
            }
        }
    }

    /// Take in a newly opened secondary workspace window: a fresh shell.
    pub fn insert_secondary_workspace(&mut self, key: u64, size: SizeBits)
        requires
            old(self).wf(),
            !has_window(old(self)@.windows, key),
            old(self).next_window_ordinal < usize::MAX,
            FeaturePanel::room(old(self)@.stores, 1),
        ensures
            final(self).wf(),
            exists|w: WorkspaceView<FeaturePanel>| #[trigger] fresh_shell(w, old(self)@.theme_mode, size) && final(self)@ == (OpenZoneView {
                windows: old(self)@.windows.push(WindowView { key, ordinal: (old(self).next_window_ordinal + 1) as usize, workspace: w }),
                next_window_ordinal: (old(self).next_window_ordinal + 1) as usize,
                ..old(self)@
            }),
    {
        let workspace = build_workspace(&mut self.stores, self.theme_mode, size);
        let ghost w = workspace@;
        self.push_window(key, workspace);
        proof {
            assert(fresh_shell(w, old(self)@.theme_mode, size));
        }
    }

    /// Take in a newly opened window for a torn-off tab: a shell holding
    /// that tab alone.
    pub fn insert_workspace_with_panel(&mut self, key: u64, panel: FeaturePanel, size: SizeBits)
        requires
            old(self).wf(),
            !has_window(old(self)@.windows, key),
            old(self).next_window_ordinal < usize::MAX,
            FeaturePanel::room(old(self)@.stores, 1),
        ensures
            final(self).wf(),
            exists|w: WorkspaceView<FeaturePanel>| #[trigger] shell_holding(w, panel, old(self)@.theme_mode, size) && final(self)@ == (OpenZoneView {
                windows: old(self)@.windows.push(WindowView { key, ordinal: (old(self).next_window_ordinal + 1) as usize, workspace: w }),
                next_window_ordinal: (old(self).next_window_ordinal + 1) as usize,
                ..old(self)@
            }),
    {
        let mut tabs: Vec<FeaturePanel> = Vec::new();
        tabs.push(panel);
        let mut workspace = Workspace::single_pane(PaneState::new(tabs), self.theme_mode).with_window_size(size);
        wire(&mut workspace);
        let ghost v = workspace@;
        let ghost s = self.stores.model();
        proof {
            assert(v.grid.panes.dom() =~= set![Pane(0)]);
        }
        workspace.ensure_scratch_fallback(&mut self.stores);
        proof {
            lemma_fallback_of_full_pane(v, s, workspace@, self.stores.model());
        }
        set_default_catalog(&mut workspace);
        let ghost w = workspace@;
        self.push_window(key, workspace);
        proof {
            assert(w.grid.panes[Pane(0)].tabs =~= seq![panel]);
            assert(shell_holding(w, panel, old(self)@.theme_mode, size));
        }
    }
}

/// The restored center's panes number its leaves.
proof fn lemma_restored_pane_count(lv: LayoutView, reg: Set<PanelKind>, s: StoresModel, w: WorkspaceView<FeaturePanel>, t: StoresModel)
    requires
        layout_restored(lv, reg, s, w, t),
        w.wf(),
    ensures
        w.grid.panes.dom().len() == center_leaves(lv.center).len(),
{
    let ids = center_built(lv.center, 0).0.leaves();
    assert(w.grid.layout.leaves() == ids);
    ids.unique_seq_to_set();
    assert(w.grid.panes.dom() =~= ids.to_set());
}

/// The plain value of an optional stored layout.
pub open spec fn stored_view(stored: Option<&LayoutSnapshot>) -> Option<LayoutView> {
    match stored {
        Some(snap) => Some(snap.view()),
        None => None,
    }
}

/// The effects of closing the onboarding window once the workspace is up.
pub open spec fn onboarding_closed(v: OpenZoneView) -> (OpenZoneView, Seq<EffectView>) {
    match v.onboarding_window {
        Some(k) => (
            OpenZoneView { onboarding: None, onboarding_window: None, ..v },
            seq![EffectView::CloseWindow { key: k, layout: None }],
        ),
        None => (v, Seq::empty()),
    }
}

impl OpenZone {
    /// Take in the newly opened primary workspace window, restoring
    /// `stored` when there is a stored layout, and close onboarding.
    pub fn insert_primary_workspace(&mut self, key: u64, stored: Option<&LayoutSnapshot>, size: SizeBits) -> (r: Vec<AppEffect>)
        requires
            old(self).wf(),
            !has_window(old(self)@.windows, key),
            old(self).next_window_ordinal < usize::MAX,
            FeaturePanel::room(old(self)@.stores, 1),
            stored matches Some(snap) ==> {
                &&& FeaturePanel::room(old(self)@.stores, layout_tab_count(snap.view()) + center_leaves(snap.view().center).len() + 3)
                &&& center_size(snap.view().center) <= usize::MAX
            },
        ensures
            final(self).wf(),
            exists|w: WorkspaceView<FeaturePanel>, t: StoresModel| {
                &&& #[trigger] primary_built(old(self)@, stored_view(stored), size, w, t)
                &&& final(self)@ == (OpenZoneView {
                    windows: old(self)@.windows.push(WindowView { key, ordinal: (old(self).next_window_ordinal + 1) as usize, workspace: w }),
                    next_window_ordinal: (old(self).next_window_ordinal + 1) as usize,
                    primary_window: Some(key),
                    stores: t,
                    ..onboarding_closed(old(self)@).0
                })
            },
            effect_views(r@) == onboarding_closed(old(self)@).1,
    {
        let ghost v0 = self@;
        let workspace = match stored {
            Some(snap) => {
                let ghost lv = snap.view();
                let ghost s0 = self.stores.model();
                let mut ws: Workspace<FeaturePanel> = restore(snap, &self.registry, &mut self.stores, self.theme_mode);
                let ghost r0 = ws@;
                let ghost s1 = self.stores.model();
                proof {
                    ws.lemma_wf();
                    lemma_restored_pane_count(lv, v0.registered, s0, r0, s1);
                    let n = center_leaves(lv.center).len();
                    assert(FeaturePanel::room(s0, (n + 3) + layout_tab_count(lv)));
                    assert(FeaturePanel::room(s1, n + 3));
                }
                wire(&mut ws);
                let ghost r1 = ws@;
                ws.ensure_scratch_fallback(&mut self.stores);
                let ghost r2 = ws@;
                let ghost s2 = self.stores.model();
                proof {
                    assert(r1.grid.panes.dom() == r0.grid.panes.dom());
                    assert(FeaturePanel::room(s1, 3 + r1.grid.panes.dom().len()));
                    assert(FeaturePanel::room(s2, 3));
                }
                ws.populate_empty_docks(&mut self.stores);
                let ghost r3 = ws@;
                set_default_catalog(&mut ws);
                let ws = ws.with_window_size(size);
                proof {
                    lemma_fallback_rest(r1, s1, r2, s2);
                    lemma_populated_rest(r2, s2, r3, self.stores.model());
                    lemma_same_rest(r0, r1, r2, self.theme_mode);
                    lemma_same_rest(r0, r2, r3, self.theme_mode);
                    lemma_same_rest(r0, r3, ws@, self.theme_mode);
                    assert(primary_built(v0, Some(lv), size, ws@, self.stores.model()));
                }
                ws
            },
            None => build_workspace(&mut self.stores, self.theme_mode, size),
        };
        let ghost w = workspace@;
        let ghost t = self.stores.model();
        self.push_window(key, workspace);
        self.primary_window = Some(key);
        let mut effects: Vec<AppEffect> = Vec::new();
        match self.onboarding_window {
            Some(k) => {
                self.onboarding_window = None;
                self.onboarding = None;
                effects.push(AppEffect::CloseWindow { key: k, layout: None });
                proof {
                    assert(effect_views(effects@) =~= seq![EffectView::CloseWindow { key: k, layout: None }]);
                }
            },
            None => {
                proof {
                    assert(effect_views(effects@) =~= Seq::<EffectView>::empty());
                }
            },
        }
        proof {
            assert(primary_built(v0, stored_view(stored), size, w, t));
        }
        effects
    }
}

proof fn lemma_replace_window(ws: Seq<WorkspaceWindow>, i: int, w: WorkspaceWindow)
    requires
        keys_unique(window_views(ws)),
        0 <= i < ws.len(),
        w.key == ws[i].key,
        w.ordinal == ws[i].ordinal,
    ensures
        ws.remove(i).insert(i, w) == ws.update(i, w),
        window_views(ws.update(i, w)) == window_views(ws).update(i, w.view()),
        window_views(ws.update(i, w)) == set_workspace(window_views(ws), i, w.workspace@),
        keys_unique(window_views(ws.update(i, w))),
{
    assert(ws.remove(i).insert(i, w) =~= ws.update(i, w));
    assert(window_views(ws.update(i, w)) =~= window_views(ws).update(i, w.view()));
    let vs = window_views(ws.update(i, w));
    assert forall|a: int, b: int| 0 <= a < vs.len() && 0 <= b < vs.len() && a != b implies #[trigger] vs[a].key != #[trigger] vs[b].key by {
        assert(vs[a].key == window_views(ws)[a].key);
        assert(vs[b].key == window_views(ws)[b].key);
    }
}

/// The close of window `key`: its layout is saved first when it is the
/// primary window.
pub open spec fn close_effect(v: OpenZoneView, key: u64) -> EffectView {
    EffectView::CloseWindow {
        key,
        layout: if v.primary_window == Some(key) && has_window(v.windows, key) {
            Some(captured(v.windows[key_index(v.windows, key)].workspace, v.stores))
        } else {
            None
        },
    }
}

/// The close of every window, in order.
pub open spec fn close_all(v: OpenZoneView) -> Seq<EffectView> {
    Seq::new(v.windows.len(), |i: int| close_effect(v, v.windows[i].key))
}

/// An evaluation of the pending closes is scheduled unless one already is.
pub open spec fn schedule_evaluation(v: OpenZoneView) -> (OpenZoneView, Seq<EffectView>) {
    if v.close_eval_scheduled {
        (v, Seq::empty())
    } else {
        (OpenZoneView { close_eval_scheduled: true, ..v }, seq![EffectView::ScheduleCloseEvaluation])
    }
}

/// A request to close window `key`: ignored while a prompt shows; the
/// onboarding window closes at once; a workspace window is queued (once)
/// for the next evaluation, which is scheduled.
pub open spec fn close_request_step(v: OpenZoneView, key: u64) -> (OpenZoneView, Seq<EffectView>) {
    if v.app_close_prompt is Some {
        (v, Seq::empty())
    } else if v.onboarding_window == Some(key) {
        (v, seq![EffectView::CloseWindow { key, layout: None }])
    } else {
        let pending = if v.pending_close_windows.contains(key) { v.pending_close_windows } else { v.pending_close_windows.push(key) };
        schedule_evaluation(OpenZoneView { pending_close_windows: pending, ..v })
    }
}

impl OpenZone {
    /// Close window `key`, first saving its layout when it is the primary
    /// window.
    pub fn force_close_workspace(&self, key: u64) -> (r: AppEffect)
        requires
            self.wf(),
        ensures
            r.view() == close_effect(self@, key),
    {
        let layout = match self.primary_window {
            Some(p) => if p == key {
                match self.find(key) {
                    Some(i) => {
                        proof {
                            lemma_key_index(self@.windows, key, i as int);
                        }
                        Some(capture(&self.windows[i].workspace, &self.stores))
                    },
                    None => None,
                }
            } else {
                None
            },
            None => None,
        };
        AppEffect::CloseWindow { key, layout }
    }

    fn schedule_pending_close_evaluation(&mut self) -> (r: Vec<AppEffect>)
        requires
            old(self).wf(),
        ensures
            final(self).wf(),
            (final(self)@, effect_views(r@)) == schedule_evaluation(old(self)@),
    {
        let mut effects: Vec<AppEffect> = Vec::new();
        if !self.close_eval_scheduled {
            self.close_eval_scheduled = true;
            effects.push(AppEffect::ScheduleCloseEvaluation);
            proof {
                assert(effect_views(effects@) =~= seq![EffectView::ScheduleCloseEvaluation]);
            }
        } else {
            proof {
                assert(effect_views(effects@) =~= Seq::<EffectView>::empty());
            }
        }
        effects
    }

    /// The user asked to close window `key` (see [`close_request_step`]).
    pub fn on_window_close_requested(&mut self, key: u64) -> (r: Vec<AppEffect>)
        requires
            old(self).wf(),
        ensures
            final(self).wf(),
            (final(self)@, effect_views(r@)) == close_request_step(old(self)@, key),
    {
        let mut effects: Vec<AppEffect> = Vec::new();
        if self.app_close_prompt.is_some() {
            proof {
                assert(effect_views(effects@) =~= Seq::<EffectView>::empty());
            }
            return effects;
        }
        if self.onboarding_window == Some(key) {
            effects.push(AppEffect::CloseWindow { key, layout: None });
            proof {
                assert(effect_views(effects@) =~= seq![EffectView::CloseWindow { key, layout: None }]);
            }
            return effects;
        }
        if !vec_contains(&self.pending_close_windows, key) {
            let ghost before = self.pending_close_windows@;
            self.pending_close_windows.push(key);
            proof {
                assert forall|i: int, j: int| 0 <= i < j < self.pending_close_windows@.len() implies self.pending_close_windows@[i] != self.pending_close_windows@[j] by {
                    if j == before.len() {
                        assert(before.contains(before[i]));
                    }
                }
            }
        }
        self.schedule_pending_close_evaluation()
    }
}

/// Whether `v` holds `key`.
fn vec_contains(v: &Vec<u64>, key: u64) -> (r: bool)
    ensures
        r == v@.contains(key),
{
    let n = v.len();
    let mut i: usize = 0;
    while i < n
        invariant
            n == v@.len(),
            i <= n,
            forall|j: int| 0 <= j < i ==> v@[j] != key,
        decreases n - i,
    {
        if v[i] == key {
            return true;
        }
        i = i + 1;
    }
    false
}

/// The dirty tabs of window `w`, tagged with the window and its title.
pub open spec fn tagged_dirty(w: WindowView) -> Seq<(u64, Seq<char>, PanelLocation, usize, Seq<char>)> {
    window_dirty(w.workspace).map_values(|d: (PanelLocation, usize, Seq<char>, Seq<char>)| (w.key, ordinal_label(w.ordinal), d.0, d.1, d.2))
}

/// The tagged dirty tabs of the first `n` windows, window after window.
pub open spec fn global_dirty_upto(ws: Seq<WindowView>, n: int) -> Seq<(u64, Seq<char>, PanelLocation, usize, Seq<char>)>
    decreases n,
{
    if n <= 0 {
        Seq::empty()
    } else {
        global_dirty_upto(ws, n - 1) + tagged_dirty(ws[n - 1])
    }
}

/// The dirty tabs of every window.
pub open spec fn global_dirty(v: OpenZoneView) -> Seq<(u64, Seq<char>, PanelLocation, usize, Seq<char>)> {
    global_dirty_upto(v.windows, v.windows.len() as int)
}

/// Quitting the application: with no dirty tab anywhere every window
/// closes; otherwise the first window shows the app-quit prompt listing
/// them all, its palette dismissed.
pub open spec fn app_quit_step(v: OpenZoneView) -> (OpenZoneView, Seq<EffectView>) {
    let all = global_dirty(v);
    if all.len() == 0 {
        (v, close_all(v))
    } else {
        let target = v.windows[0];
        (
            OpenZoneView {
                windows: v.windows.update(0, WindowView { workspace: palette_dismissed(target.workspace), ..target }),
                app_close_prompt: Some(PromptView::AppQuit { target_window: target.key, panels: all }),
                ..v
            },
            Seq::empty(),
        )
    }
}

impl OpenZone {
    /// The effects of closing every window, in order.
    fn close_every_window(&self) -> (r: Vec<AppEffect>)
        requires
            self.wf(),
        ensures
            effect_views(r@) == close_all(self@),
    {
        let mut effects: Vec<AppEffect> = Vec::new();
        let n = self.windows.len();
        let mut i: usize = 0;
        while i < n
            invariant
                self.wf(),
                n == self.windows@.len(),
                i <= n,
                effect_views(effects@) == close_all(self@).take(i as int),
            decreases n - i,
        {
            let e = self.force_close_workspace(self.windows[i].key);
            let ghost before = effects@;
            effects.push(e);
            proof {
                assert(effect_views(effects@) =~= effect_views(before).push(e.view()));
                assert(close_all(self@).take(i + 1) =~= close_all(self@).take(i as int).push(close_all(self@)[i as int]));
            }
            i = i + 1;
        }
        proof {
            assert(close_all(self@).take(n as int) =~= close_all(self@));
        }
        effects
    }

    /// Ask before quitting (see [`app_quit_step`]).
    pub fn prompt_app_quit(&mut self) -> (r: Vec<AppEffect>)
        requires
            old(self).wf(),
        ensures
            final(self).wf(),
            (final(self)@, effect_views(r@)) == app_quit_step(old(self)@),
    {
        let ghost v = self@;
        let mut all: Vec<GlobalDirtyPanel> = Vec::new();
        let n = self.windows.len();
        let mut i: usize = 0;
        while i < n
            invariant
                self.wf(),
                self@ == v,
                n == self.windows@.len(),
                i <= n,
                global_views(all@) == global_dirty_upto(v.windows, i as int),
            decreases n - i,
        {
            let key = self.windows[i].key;
            let label = self.window_label(key);
            proof {
                lemma_key_index(v.windows, key, i as int);
            }
            let dirty = self.windows[i].workspace.collect_dirty_panels();
            let ghost base = global_views(all@);
            let ghost tagged = tagged_dirty(v.windows[i as int]);
            let m = dirty.len();
            let mut j: usize = 0;
            while j < m
                invariant
                    m == dirty@.len(),
                    j <= m,
                    dirty_views(dirty@) == window_dirty(v.windows[i as int].workspace),
                    tagged == tagged_dirty(v.windows[i as int]),
                    key == v.windows[i as int].key,
                    label@ == ordinal_label(v.windows[i as int].ordinal),
                    global_views(all@) == base + tagged.take(j as int),
                decreases m - j,
            {
                let d = &dirty[j];
                let g = GlobalDirtyPanel {
                    window: key,
                    window_label: label.clone(),
                    location: d.location,
                    tab: d.tab,
                    title: d.title.clone(),
                };
                let ghost before = all@;
                all.push(g);
                proof {
                    assert(dirty_views(dirty@)[j as int] == dirty@[j as int].view());
                    assert(tagged[j as int] == g.view());
                    assert(global_views(all@) =~= global_views(before).push(g.view()));
                    assert(tagged.take(j + 1) =~= tagged.take(j as int).push(tagged[j as int]));
                }
                j = j + 1;
            }
            proof {
                assert(tagged.take(m as int) =~= tagged);
            }
            i = i + 1;
        }
        if all.len() == 0 {
            let effects = self.close_every_window();
            return effects;
        }
        let target = self.windows[0].key;
        let ghost ws0 = self.windows@;
        let mut w = self.windows.remove(0);
        proof {
            assert(ws0[0].workspace.wf());
        }
        w.workspace.dismiss_palette();
        self.windows.insert(0, w);
        proof {
            lemma_replace_window(ws0, 0, w);
            assert forall|k: int| 0 <= k < self.windows@.len() implies (#[trigger] self.windows@[k]).workspace.wf() by {
                if k != 0 {
                    assert(self.windows@[k] == ws0[k]);
                }
            }
        }
        self.app_close_prompt = Some(AppClosePrompt::AppQuit { target_window: target, panels: all });
        let effects: Vec<AppEffect> = Vec::new();
        proof {
            assert(effect_views(effects@) =~= Seq::<EffectView>::empty());
            assert(self@.windows =~= v.windows.update(0, WindowView { workspace: palette_dismissed(v.windows[0].workspace), ..v.windows[0] }));
        }
        effects
    }
}

/// The dirty tabs of window `key`; none when there is no such window.
pub open spec fn dirty_of(v: OpenZoneView, key: u64) -> Seq<(PanelLocation, usize, Seq<char>, Seq<char>)> {
    if has_window(v.windows, key) {
        window_dirty(v.windows[key_index(v.windows, key)].workspace)
    } else {
        Seq::empty()
    }
}

/// A sweep over pending closes: a clean window closes at once, a dirty
/// one is set aside with its dirty tabs.
pub open spec fn close_sweep(v: OpenZoneView, pending: Seq<u64>) -> (Seq<EffectView>, Seq<(u64, Seq<(PanelLocation, usize, Seq<char>, Seq<char>)>)>)
    decreases pending.len(),
{
    if pending.len() == 0 {
        (Seq::empty(), Seq::empty())
    } else {
        let (es, ds) = close_sweep(v, pending.drop_last());
        let key = pending.last();
        let dirty = dirty_of(v, key);
        if dirty.len() == 0 {
            (es.push(close_effect(v, key)), ds)
        } else {
            (es, ds.push((key, dirty)))
        }
    }
}

/// `keys` appended to `acc`, each unless already there.
pub open spec fn appended_once(acc: Seq<u64>, keys: Seq<u64>) -> Seq<u64>
    decreases keys.len(),
{
    if keys.len() == 0 {
        acc
    } else {
        let a = appended_once(acc, keys.drop_last());
        if a.contains(keys.last()) { a } else { a.push(keys.last()) }
    }
}

/// Every workspace window's close is pending.
pub open spec fn quits_app(v: OpenZoneView) -> bool {
    &&& v.windows.len() > 0
    &&& forall|k: u64| #[trigger] v.pending_close_windows.contains(k) <==> has_window(v.windows, k)
}

/// Deciding the pending closes: when every window is closing this is an
/// app quit; otherwise the clean windows close, and the first dirty one
/// shows its prompt (palette dismissed) while the other dirty ones wait
/// for the next evaluation.
pub open spec fn evaluation_step(v: OpenZoneView) -> (OpenZoneView, Seq<EffectView>) {
    let pending = v.pending_close_windows;
    let v1 = OpenZoneView { close_eval_scheduled: false, pending_close_windows: Seq::empty(), ..v };
    if pending.len() == 0 {
        (v1, Seq::empty())
    } else if quits_app(v) {
        app_quit_step(v1)
    } else {
        let (es, ds) = close_sweep(v1, pending);
        if ds.len() == 0 {
            (v1, es)
        } else {
            let (key, dirty) = ds[0];
            let rest = appended_once(Seq::empty(), ds.drop_first().map_values(|d: (u64, Seq<(PanelLocation, usize, Seq<char>, Seq<char>)>)| d.0));
            let ws = if has_window(v1.windows, key) {
                let i = key_index(v1.windows, key);
                v1.windows.update(i, WindowView { workspace: palette_dismissed(v1.windows[i].workspace), ..v1.windows[i] })
            } else {
                v1.windows
            };
            (
                OpenZoneView {
                    windows: ws,
                    pending_close_windows: rest,
                    app_close_prompt: Some(PromptView::Window { target_window: key, panels: dirty }),
                    ..v1
                },
                es,
            )
        }
    }
}

impl OpenZone {
    /// Whether every workspace window's close is pending.
    fn all_windows_pending(&self, pending: &Vec<u64>) -> (r: bool)
        requires
            self.wf(),
            pending@.no_duplicates(),
        ensures
            r == quits_app(OpenZoneView { pending_close_windows: pending@, ..self@ }),
    {
        let n = self.windows.len();
        if n == 0 {
            return false;
        }
        let mut i: usize = 0;
        while i < n
            invariant
                self.wf(),
                n == self.windows@.len(),
                i <= n,
                forall|j: int| 0 <= j < i ==> pending@.contains(#[trigger] self@.windows[j].key),
            decreases n - i,
        {
            if !vec_contains(pending, self.windows[i].key) {
                proof {
                    let key = self.windows[i as int].key;
                    let x = OpenZoneView { pending_close_windows: pending@, ..self@ };
                    assert(self@.windows[i as int].key == key);
                    assert(has_window(x.windows, key));
                    if quits_app(x) {
                        assert(x.pending_close_windows.contains(key) <==> has_window(x.windows, key));
                    }
                }
                return false;
            }
            i = i + 1;
        }
        let m = pending.len();
        let mut j: usize = 0;
        while j < m
            invariant
                self.wf(),
                m == pending@.len(),
                j <= m,
                forall|k: int| 0 <= k < j ==> has_window(self@.windows, #[trigger] pending@[k]),
            decreases m - j,
        {
            match self.find(pending[j]) {
                None => {
                    proof {
                        let key = pending@[j as int];
                        let x = OpenZoneView { pending_close_windows: pending@, ..self@ };
                        assert(x.pending_close_windows.contains(key));
                        if quits_app(x) {
                            assert(x.pending_close_windows.contains(key) <==> has_window(x.windows, key));
                        }
                    }
                    return false;
                },
                Some(_) => {},
            }
            j = j + 1;
        }
        proof {
            assert forall|k: u64| #[trigger] pending@.contains(k) <==> has_window(self@.windows, k) by {
                if pending@.contains(k) {
                    let a = choose|a: int| 0 <= a < pending@.len() && pending@[a] == k;
                    assert(has_window(self@.windows, pending@[a]));
                }
                if has_window(self@.windows, k) {
                    let a = choose|a: int| 0 <= a < self@.windows.len() && #[trigger] self@.windows[a].key == k;
                    assert(pending@.contains(self@.windows[a].key));
                }
            }
        }
        true
    }

    /// The dirty panels of window `key`; none when there is no such window.
    fn window_dirty_panels(&self, key: u64) -> (r: Vec<DirtyPanel>)
        requires
            self.wf(),
        ensures
            dirty_views(r@) == dirty_of(self@, key),
    {
        match self.find(key) {
            Some(i) => {
                proof {
                    lemma_key_index(self@.windows, key, i as int);
                }
                self.windows[i].workspace.collect_dirty_panels()
            },
            None => {
                let r: Vec<DirtyPanel> = Vec::new();
                proof {
                    assert(dirty_views(r@) =~= Seq::<(PanelLocation, usize, Seq<char>, Seq<char>)>::empty());
                }
                r
            },
        }
    }

    /// Dismiss the palette of window `key`, if there is one.
    fn dismiss_palette_of(&mut self, key: u64)
        requires
            old(self).wf(),
        ensures
            final(self).wf(),
            final(self)@ == (OpenZoneView {
                windows: if has_window(old(self)@.windows, key) {
                    let i = key_index(old(self)@.windows, key);
                    old(self)@.windows.update(i, WindowView { workspace: palette_dismissed(old(self)@.windows[i].workspace), ..old(self)@.windows[i] })
                } else {
                    old(self)@.windows
                },
                ..old(self)@
            }),
    {
        match self.find(key) {
            Some(i) => {
                proof {
                    lemma_key_index(self@.windows, key, i as int);
                }
                let ghost ws0 = self.windows@;
                let mut w = self.windows.remove(i);
                proof {
                    assert(ws0[i as int].workspace.wf());
                }
                w.workspace.dismiss_palette();
                self.windows.insert(i, w);
                proof {
                    lemma_replace_window(ws0, i as int, w);
                    assert forall|k: int| 0 <= k < self.windows@.len() implies (#[trigger] self.windows@[k]).workspace.wf() by {
                        if k != i {
                            assert(self.windows@[k] == ws0[k]);
                        }
                    }
                }
            },
            None => {},
        }
    }

    /// Decide the pending closes (see [`evaluation_step`]).
    pub fn evaluate_pending_closes(&mut self) -> (r: Vec<AppEffect>)
        requires
            old(self).wf(),
        ensures
            final(self).wf(),
            (final(self)@, effect_views(r@)) == evaluation_step(old(self)@),
    {
        let ghost v = self@;
        self.close_eval_scheduled = false;
        let mut pending: Vec<u64> = Vec::new();
        std::mem::swap(&mut pending, &mut self.pending_close_windows);
        let ghost v1 = self@;
        proof {
            assert(v1 == (OpenZoneView { close_eval_scheduled: false, pending_close_windows: Seq::empty(), ..v }));
        }
        if pending.len() == 0 {
            let effects: Vec<AppEffect> = Vec::new();
            proof {
                assert(effect_views(effects@) =~= Seq::<EffectView>::empty());
            }
            return effects;
        }
        if self.all_windows_pending(&pending) {
            proof {
                let x = OpenZoneView { pending_close_windows: pending@, ..self@ };
                assert(pending@ == v.pending_close_windows);
                assert forall|k: u64| #[trigger] v.pending_close_windows.contains(k) <==> has_window(v.windows, k) by {
                    assert(x.pending_close_windows.contains(k) <==> has_window(x.windows, k));
                }
                assert(quits_app(v));
            }
            return self.prompt_app_quit();
        }
        let mut effects: Vec<AppEffect> = Vec::new();
        let mut dirty_keys: Vec<u64> = Vec::new();
        let mut first_dirty: Option<Vec<DirtyPanel>> = None;
        let n = pending.len();
        let mut i: usize = 0;
        while i < n
            invariant
                self.wf(),
                self@ == v1,
                n == pending@.len(),
                i <= n,
                effect_views(effects@) == close_sweep(v1, pending@.take(i as int)).0,
                dirty_keys@ == close_sweep(v1, pending@.take(i as int)).1.map_values(|d: (u64, Seq<(PanelLocation, usize, Seq<char>, Seq<char>)>)| d.0),
                (first_dirty is None) == (close_sweep(v1, pending@.take(i as int)).1.len() == 0),
                first_dirty matches Some(fd) ==> dirty_views(fd@) == close_sweep(v1, pending@.take(i as int)).1[0].1,
            decreases n - i,
        {
            let key = pending[i];
            let dirty = self.window_dirty_panels(key);
            proof {
                assert(pending@.take(i + 1).drop_last() =~= pending@.take(i as int));
                assert(pending@.take(i + 1).last() == pending@[i as int]);
            }
            let ghost (es0, ds0) = close_sweep(v1, pending@.take(i as int));
            if dirty.len() == 0 {
                let e = self.force_close_workspace(key);
                let ghost before = effects@;
                effects.push(e);
                proof {
                    assert(effect_views(effects@) =~= effect_views(before).push(e.view()));
                }
            } else {
                let ghost before = dirty_keys@;
                dirty_keys.push(key);
                proof {
                    let ds1 = ds0.push((key, dirty_of(v1, key)));
                    assert(ds1.map_values(|d: (u64, Seq<(PanelLocation, usize, Seq<char>, Seq<char>)>)| d.0)
                        =~= ds0.map_values(|d: (u64, Seq<(PanelLocation, usize, Seq<char>, Seq<char>)>)| d.0).push(key));
                }
                if first_dirty.is_none() {
                    first_dirty = Some(dirty);
                }
            }
            i = i + 1;
        }
        proof {
            assert(pending@.take(n as int) =~= pending@);
        }
        let ghost (es, ds) = close_sweep(v1, pending@);
        match first_dirty {
            None => {
                return effects;
            },
            Some(dirty) => {
                let first_key = dirty_keys[0];
                let mut rest: Vec<u64> = Vec::new();
                let ghost tail = ds.drop_first().map_values(|d: (u64, Seq<(PanelLocation, usize, Seq<char>, Seq<char>)>)| d.0);
                proof {
                    assert(tail =~= dirty_keys@.drop_first());
                    assert(rest@ =~= appended_once(Seq::empty(), tail.take(0)));
                }
                let m = dirty_keys.len();
                let mut j: usize = 1;
                while j < m
                    invariant
                        m == dirty_keys@.len(),
                        1 <= j <= m,
                        tail == dirty_keys@.drop_first(),
                        rest@ == appended_once(Seq::empty(), tail.take(j - 1)),
                        rest@.no_duplicates(),
                    decreases m - j,
                {
                    let k = dirty_keys[j];
                    proof {
                        assert(tail.take(j as int).drop_last() =~= tail.take(j - 1));
                        assert(tail.take(j as int).last() == k);
                    }
                    if !vec_contains(&rest, k) {
                        let ghost before = rest@;
                        rest.push(k);
                        proof {
                            assert forall|a: int, b: int| 0 <= a < b < rest@.len() implies rest@[a] != rest@[b] by {
                                if b == before.len() {
                                    assert(before.contains(before[a]));
                                }
                            }
                        }
                    }
                    j = j + 1;
                }
                proof {
                    assert(tail.take(m - 1) =~= tail);
                }
                self.pending_close_windows = rest;
                self.dismiss_palette_of(first_key);
                self.app_close_prompt = Some(AppClosePrompt::Window { target_window: first_key, panels: dirty });
                effects
            },
        }
    }
}

/// Tab `tab` at `location` of window `key` closed without asking; nothing
/// happens when there is no such window.
pub open spec fn tab_closed_in(v: OpenZoneView, key: u64, location: PanelLocation, tab: usize, w: OpenZoneView) -> bool {
    if has_window(v.windows, key) {
        let i = key_index(v.windows, key);
        exists|wv: WorkspaceView<FeaturePanel>, t: StoresModel| {
            &&& #[trigger] tab_closed(v.windows[i].workspace, v.stores, location, tab, wv, t)
            &&& w == (OpenZoneView { windows: v.windows.update(i, WindowView { workspace: wv, ..v.windows[i] }), stores: t, ..v })
        }
    } else {
        w == v
    }
}

/// The tabs of an app-quit prompt discarded, last listed first: `trace`
/// holds the state before each close and after the last.
pub open spec fn quit_discard_trace(trace: Seq<OpenZoneView>, ps: Seq<(u64, Seq<char>, PanelLocation, usize, Seq<char>)>) -> bool {
    let n = ps.len();
    &&& trace.len() == n + 1
    &&& forall|j: int| 0 <= j < n ==> #[trigger] tab_closed_in(trace[j], ps[n - 1 - j].0, ps[n - 1 - j].2, ps[n - 1 - j].3, trace[j + 1])
}

/// The listed tabs of window `key` discarded (see
/// [`crate::workspace::workspace_state::discard_trace`]); nothing happens
/// when there is no such window.
pub open spec fn window_discarded(v: OpenZoneView, key: u64, ds: Seq<(PanelLocation, usize, Seq<char>, Seq<char>)>, w: OpenZoneView) -> bool {
    if has_window(v.windows, key) {
        let i = key_index(v.windows, key);
        exists|trace: Seq<(WorkspaceView<FeaturePanel>, StoresModel)>| {
            &&& #[trigger] discard_trace(trace, ds)
            &&& trace[0] == (v.windows[i].workspace, v.stores)
            &&& w == (OpenZoneView {
                windows: v.windows.update(i, WindowView { workspace: trace.last().0, ..v.windows[i] }),
                stores: trace.last().1,
                ..v
            })
        }
    } else {
        w == v
    }
}

/// After a discard: the closes, then an evaluation of the windows still
/// pending is scheduled.
pub open spec fn after_discard(v: OpenZoneView, closes: Seq<EffectView>) -> (OpenZoneView, Seq<EffectView>) {
    if v.pending_close_windows.len() > 0 {
        let (w, es) = schedule_evaluation(v);
        (w, closes + es)
    } else {
        (v, closes)
    }
}

/// The user confirmed discarding: the prompt's tabs are closed without
/// asking, then the prompt's window (or, for an app quit, every window)
/// closes, and pending closes are evaluated again.
pub open spec fn discard_confirmed(v: OpenZoneView, w: OpenZoneView, es: Seq<EffectView>) -> bool {
    let v1 = OpenZoneView { app_close_prompt: None, ..v };
    match v.app_close_prompt {
        None => w == v && es.len() == 0,
        Some(PromptView::Window { target_window, panels }) => exists|v2: OpenZoneView| {
            &&& #[trigger] window_discarded(v1, target_window, panels, v2)
            &&& (w, es) == after_discard(v2, seq![close_effect(v2, target_window)])
        },
        Some(PromptView::AppQuit { panels, .. }) => exists|trace: Seq<OpenZoneView>| {
            &&& #[trigger] quit_discard_trace(trace, panels)
            &&& trace[0] == v1
            &&& (w, es) == after_discard(trace.last(), close_all(trace.last()))
        },
    }
}

/// How many tabs the prompt lists.
pub open spec fn prompt_len(p: Option<PromptView>) -> nat {
    match p {
        Some(PromptView::Window { panels, .. }) => panels.len(),
        Some(PromptView::AppQuit { panels, .. }) => panels.len(),
        None => 0,
    }
}

impl OpenZone {
    /// Close a tab of window `key` without asking.
    fn close_tab_in(&mut self, key: u64, location: PanelLocation, tab: usize)
        requires
            old(self).wf(),
            FeaturePanel::room(old(self)@.stores, 1),
        ensures
            final(self).wf(),
            tab_closed_in(old(self)@, key, location, tab, final(self)@),
            forall|m: nat| FeaturePanel::room(old(self)@.stores, m + 1) ==> #[trigger] FeaturePanel::room(final(self)@.stores, m),
    {
        match self.find(key) {
            Some(i) => {
                proof {
                    lemma_key_index(self@.windows, key, i as int);
                }
                let ghost ws0 = self.windows@;
                let mut w = self.windows.remove(i);
                proof {
                    assert(ws0[i as int].workspace.wf());
                }
                w.workspace.close_tab_immediately(location, tab, &mut self.stores);
                self.windows.insert(i, w);
                proof {
                    lemma_replace_window(ws0, i as int, w);
                    assert forall|k: int| 0 <= k < self.windows@.len() implies (#[trigger] self.windows@[k]).workspace.wf() by {
                        if k != i {
                            assert(self.windows@[k] == ws0[k]);
                        }
                    }
                }
            },
            None => {},
        }
    }

    /// Carry out the prompt's discard (see [`discard_confirmed`]).
    pub fn confirm_app_close_discard(&mut self) -> (r: Vec<AppEffect>)
        requires
            old(self).wf(),
            FeaturePanel::room(old(self)@.stores, prompt_len(old(self)@.app_close_prompt)),
        ensures
            final(self).wf(),
            discard_confirmed(old(self)@, final(self)@, effect_views(r@)),
    {
        let ghost v = self@;
        let prompt = match self.app_close_prompt.take() {
            None => {
                let r: Vec<AppEffect> = Vec::new();
                proof {
                    assert(effect_views(r@) =~= Seq::<EffectView>::empty());
                }
                return r;
            },
            Some(p) => p,
        };
        let ghost v1 = self@;
        let mut effects: Vec<AppEffect> = Vec::new();
        match prompt {
            AppClosePrompt::Window { target_window, panels } => {
                let ghost ds = dirty_views(panels@);
                match self.find(target_window) {
                    Some(i) => {
                        proof {
                            lemma_key_index(self@.windows, target_window, i as int);
                        }
                        let ghost ws0 = self.windows@;
                        let mut w = self.windows.remove(i);
                        proof {
                            assert(ws0[i as int].workspace.wf());
                        }
                        w.workspace.discard_dirty_panels(panels, &mut self.stores);
                        self.windows.insert(i, w);
                        proof {
                            lemma_replace_window(ws0, i as int, w);
                            assert forall|k: int| 0 <= k < self.windows@.len() implies (#[trigger] self.windows@[k]).workspace.wf() by {
                                if k != i {
                                    assert(self.windows@[k] == ws0[k]);
                                }
                            }
                        }
                    },
                    None => {},
                }
                let ghost v2 = self@;
                proof {
                    assert(window_discarded(v1, target_window, ds, v2));
                }
                let e = self.force_close_workspace(target_window);
                effects.push(e);
                proof {
                    assert(effect_views(effects@) =~= seq![close_effect(v2, target_window)]);
                }
            },
            AppClosePrompt::AppQuit { panels, .. } => {
                let ghost ps = global_views(panels@);
                let n = panels.len();
                let ghost mut trace: Seq<OpenZoneView> = seq![v1];
                let mut k: usize = n;
                while k > 0
                    invariant
                        self.wf(),
                        n == panels@.len(),
                        ps == global_views(panels@),
                        k <= n,
                        FeaturePanel::room(self@.stores, k as nat),
                        trace.len() == n - k + 1,
                        trace[0] == v1,
                        trace.last() == self@,
                        forall|j: int| 0 <= j < n - k ==> #[trigger] tab_closed_in(trace[j], ps[n - 1 - j].0, ps[n - 1 - j].2, ps[n - 1 - j].3, trace[j + 1]),
                    decreases k,
                {
                    k = k - 1;
                    let d = &panels[k];
                    let ghost before = self@;
                    proof {
                        FeaturePanel::lemma_room_mono(self@.stores, (k + 1) as nat, 1);
                    }
                    self.close_tab_in(d.window, d.location, d.tab);
                    proof {
                        assert(FeaturePanel::room(before.stores, (k as nat) + 1));
                        let t0 = trace;
                        trace = trace.push(self@);
                        assert(ps[k as int] == panels@[k as int].view());
                        assert forall|j: int| 0 <= j < n - k implies #[trigger] tab_closed_in(trace[j], ps[n - 1 - j].0, ps[n - 1 - j].2, ps[n - 1 - j].3, trace[j + 1]) by {
                            if j < n - k - 1 {
                                assert(trace[j] == t0[j] && trace[j + 1] == t0[j + 1]);
                            } else {
                                assert(n - 1 - j == k);
                                assert(trace[j] == before);
                            }
                        }
                    }
                }
                proof {
                    assert(quit_discard_trace(trace, ps));
                }
                effects = self.close_every_window();
            },
        }
        let ghost v3 = self@;
        let ghost closes = effect_views(effects@);
        if self.pending_close_windows.len() > 0 {
            let more = self.schedule_pending_close_evaluation();
            let ghost before = effects@;
            let mut more = more;
            effects.append(&mut more);
            proof {
                assert(effect_views(effects@) =~= closes + schedule_evaluation(v3).1);
            }
        }
        effects
    }

    /// The user declined: the prompt goes and no close stays pending.
    pub fn cancel_app_close(&mut self)
        requires
            old(self).wf(),
        ensures
            final(self).wf(),
            final(self)@ == (OpenZoneView { app_close_prompt: None, pending_close_windows: Seq::empty(), ..old(self)@ }),
    {
        self.app_close_prompt = None;
        self.pending_close_windows = Vec::new();
    }
}

/// A window closed: onboarding and primary marks on it are dropped, the
/// window is forgotten, and the application exits when no window is left.
pub open spec fn window_closed_step(v: OpenZoneView, key: u64) -> (OpenZoneView, Seq<EffectView>) {
    let v1 = if v.onboarding_window == Some(key) { OpenZoneView { onboarding_window: None, onboarding: None, ..v } } else { v };
    let v2 = if v1.primary_window == Some(key) { OpenZoneView { primary_window: None, ..v1 } } else { v1 };
    let ws = if has_window(v2.windows, key) { v2.windows.remove(key_index(v2.windows, key)) } else { v2.windows };
    let v3 = OpenZoneView { windows: ws, ..v2 };
    (v3, if v3.onboarding_window is None && ws.len() == 0 { seq![EffectView::Exit] } else { Seq::empty() })
}

impl OpenZone {
    /// A window closed (see [`window_closed_step`]).
    pub fn handle_window_closed(&mut self, key: u64) -> (r: Vec<AppEffect>)
        requires
            old(self).wf(),
        ensures
            final(self).wf(),
            (final(self)@, effect_views(r@)) == window_closed_step(old(self)@, key),
    {
        if self.onboarding_window == Some(key) {
            self.onboarding_window = None;
            self.onboarding = None;
        }
        if self.primary_window == Some(key) {
            self.primary_window = None;
        }
        match self.find(key) {
            Some(i) => {
                proof {
                    lemma_key_index(self@.windows, key, i as int);
                }
                let ghost ws0 = self.windows@;
                let _closed = self.windows.remove(i);
                proof {
                    assert(window_views(self.windows@) =~= window_views(ws0).remove(i as int));
                    let vs = window_views(self.windows@);
                    assert forall|a: int, b: int| 0 <= a < vs.len() && 0 <= b < vs.len() && a != b implies #[trigger] vs[a].key != #[trigger] vs[b].key by {
                        let a0 = if a < i { a } else { a + 1 };
                        let b0 = if b < i { b } else { b + 1 };
                        assert(vs[a] == window_views(ws0)[a0]);
                        assert(vs[b] == window_views(ws0)[b0]);
                    }
                    assert forall|k: int| 0 <= k < self.windows@.len() implies (#[trigger] self.windows@[k]).workspace.wf() by {
                        let k0 = if k < i { k } else { k + 1 };
                        assert(self.windows@[k] == ws0[k0]);
                    }
                }
            },
            None => {},
        }
        let mut effects: Vec<AppEffect> = Vec::new();
        if self.onboarding_window.is_none() && self.windows.len() == 0 {
            effects.push(AppEffect::Exit);
            proof {
                assert(effect_views(effects@) =~= seq![EffectView::Exit]);
            }
        } else {
            proof {
                assert(effect_views(effects@) =~= Seq::<EffectView>::empty());
            }
        }
        effects
    }
}

/// Clearing previews keeps every window's key and place.
pub proof fn lemma_cleared(ws: Seq<WindowView>)
    ensures
        previews_cleared(ws).len() == ws.len(),
        forall|i: int| 0 <= i < ws.len() ==> (#[trigger] previews_cleared(ws)[i]).key == ws[i].key,
        forall|i: int| 0 <= i < ws.len() ==> (#[trigger] previews_cleared(ws)[i]).ordinal == ws[i].ordinal,
        forall|i: int| 0 <= i < ws.len() ==> (#[trigger] previews_cleared(ws)[i]).workspace
            == (WorkspaceView { cross_window_drop_preview: None, ..ws[i].workspace }),
        forall|k: u64| #[trigger] has_window(previews_cleared(ws), k) == has_window(ws, k),
        keys_unique(ws) ==> keys_unique(previews_cleared(ws)),
        keys_unique(ws) ==> forall|k: u64| has_window(ws, k) ==> #[trigger] key_index(previews_cleared(ws), k) == key_index(ws, k),
{
    let c = previews_cleared(ws);
    assert forall|k: u64| #[trigger] has_window(c, k) == has_window(ws, k) by {
        if has_window(ws, k) {
            let j = choose|j: int| 0 <= j < ws.len() && #[trigger] ws[j].key == k;
            assert(c[j].key == k);
        }
        if has_window(c, k) {
            let j = choose|j: int| 0 <= j < c.len() && #[trigger] c[j].key == k;
            assert(ws[j].key == k);
        }
    }
    if keys_unique(ws) {
        assert forall|a: int, b: int| 0 <= a < c.len() && 0 <= b < c.len() && a != b implies #[trigger] c[a].key != #[trigger] c[b].key by {
            assert(ws[a].key != ws[b].key);
        }
        assert forall|k: u64| has_window(ws, k) implies #[trigger] key_index(c, k) == key_index(ws, k) by {
            let i = key_index(ws, k);
            assert(c[i].key == k);
            lemma_key_index(c, k, i);
        }
    }
}

/// The windows with no cross-window drop preview left.
pub open spec fn previews_cleared(ws: Seq<WindowView>) -> Seq<WindowView> {
    ws.map_values(|w: WindowView| WindowView { workspace: WorkspaceView { cross_window_drop_preview: None, ..w.workspace }, ..w })
}

/// The windows with the workspace at position `i` replaced.
pub open spec fn set_workspace(ws: Seq<WindowView>, i: int, w: WorkspaceView<FeaturePanel>) -> Seq<WindowView> {
    ws.update(i, WindowView { workspace: w, ..ws[i] })
}

/// Where a cursor move during a drag points: the target the renderer
/// resolved in the window under the cursor, or nowhere when that window is
/// gone or the cursor is over no zone.
pub open spec fn routed_target(v: OpenZoneView, event_window: u64, target: DropTarget) -> (Option<u64>, DropTarget) {
    if has_window(v.windows, event_window) && !(target is Nowhere) {
        (Some(event_window), target)
    } else {
        (None, DropTarget::Nowhere)
    }
}

/// A cursor move while window `source` drags a tab: every preview is
/// cleared, the source's drag records the cursor, its window and the
/// target, and another window under a target shows the preview.
pub open spec fn cursor_routed(v: OpenZoneView, source: u64, event_window: u64, cursor: PointBits, target: DropTarget) -> OpenZoneView {
    let ws = previews_cleared(v.windows);
    if !has_window(v.windows, source) || v.windows[key_index(v.windows, source)].workspace.drag_state is None {
        OpenZoneView { windows: ws, ..v }
    } else {
        let si = key_index(v.windows, source);
        let drag = v.windows[si].workspace.drag_state.unwrap();
        let (tw, t) = routed_target(v, event_window, target);
        let moved = DragState { pointer_moved: true, cursor, target: t, target_window: tw, cursor_window: Some(event_window), ..drag };
        let ws2 = set_workspace(ws, si, WorkspaceView { drag_state: Some(moved), ..ws[si].workspace });
        let ws3 = match tw {
            Some(k) => if k != source {
                let ti = key_index(v.windows, k);
                set_workspace(ws2, ti, WorkspaceView {
                    cross_window_drop_preview: Some(CrossWindowDropPreview { drag, target: t, cursor }),
                    ..ws2[ti].workspace
                })
            } else {
                ws2
            },
            None => ws2,
        };
        OpenZoneView { windows: ws3, ..v }
    }
}

impl OpenZone {
    /// The window with an active tab drag, if any (the first one).
    pub fn tab_drag_source(&self) -> (r: Option<u64>)
        requires
            self.wf(),
        ensures
            r matches Some(k) ==> has_window(self@.windows, k) && self@.windows[key_index(self@.windows, k)].workspace.drag_state is Some
                && forall|j: int| 0 <= j < key_index(self@.windows, k) ==> (#[trigger] self@.windows[j]).workspace.drag_state is None,
            r is None ==> forall|i: int| 0 <= i < self@.windows.len() ==> (#[trigger] self@.windows[i]).workspace.drag_state is None,
    {
        let n = self.windows.len();
        let mut i: usize = 0;
        while i < n
            invariant
                self.wf(),
                n == self.windows@.len(),
                i <= n,
                forall|j: int| 0 <= j < i ==> (#[trigger] self@.windows[j]).workspace.drag_state is None,
            decreases n - i,
        {
            if self.windows[i].workspace.is_tab_drag_active() {
                proof {
                    lemma_key_index(self@.windows, self.windows[i as int].key, i as int);
                }
                return Some(self.windows[i].key);
            }
            i = i + 1;
        }
        None
    }

    fn clear_previews(&mut self)
        requires
            old(self).wf(),
        ensures
            final(self).wf(),
            final(self)@ == (OpenZoneView { windows: previews_cleared(old(self)@.windows), ..old(self)@ }),
    {
        let ghost v = self@;
        let n = self.windows.len();
        let mut i: usize = 0;
        while i < n
            invariant
                self.wf(),
                n == self.windows@.len(),
                i <= n,
                self@ == (OpenZoneView { windows: self@.windows, ..v }),
                self@.windows.len() == n,
                v.windows.len() == n,
                forall|j: int| 0 <= j < i ==> #[trigger] self@.windows[j] == previews_cleared(v.windows)[j],
                forall|j: int| i <= j < n ==> #[trigger] self@.windows[j] == v.windows[j],
            decreases n - i,
        {
            let ghost ws0 = self.windows@;
            let mut w = self.windows.remove(i);
            proof {
                assert(ws0[i as int].workspace.wf());
            }
            w.workspace.clear_cross_window_drop_preview();
            self.windows.insert(i, w);
            proof {
                lemma_replace_window(ws0, i as int, w);
                assert forall|k: int| 0 <= k < self.windows@.len() implies (#[trigger] self.windows@[k]).workspace.wf() by {
                    if k != i {
                        assert(self.windows@[k] == ws0[k]);
                    }
                }
                lemma_cleared(v.windows);
                assert(window_views(ws0)[i as int] == v.windows[i as int]);
                assert(self@.windows[i as int] == w.view());
                assert(w.workspace@ == (WorkspaceView { cross_window_drop_preview: None, ..ws0[i as int].workspace@ }));
                assert(ws0[i as int].workspace@ == v.windows[i as int].workspace);
                let c = previews_cleared(v.windows)[i as int];
                assert(c.key == v.windows[i as int].key);
                assert(c.ordinal == v.windows[i as int].ordinal);
                assert(c.workspace == (WorkspaceView { cross_window_drop_preview: None, ..v.windows[i as int].workspace }));
                assert(w.key == v.windows[i as int].key);
                assert(w.ordinal == v.windows[i as int].ordinal);
                assert(w.view().workspace == c.workspace);
                assert(w.view() == c);
                assert forall|j: int| 0 <= j < i + 1 implies #[trigger] self@.windows[j] == previews_cleared(v.windows)[j] by {
                    if j < i {
                        assert(self@.windows[j] == window_views(ws0)[j]);
                    }
                }
                assert forall|j: int| i + 1 <= j < n implies #[trigger] self@.windows[j] == v.windows[j] by {
                    assert(self@.windows[j] == window_views(ws0)[j]);
                }
            }
            i = i + 1;
        }
        proof {
            assert(self@.windows =~= previews_cleared(v.windows));
        }
    }

    /// Route a cursor move during a tab drag from window `source` (see
    /// [`cursor_routed`]); `target` is what the renderer resolved under the
    /// cursor in `event_window`.
    pub fn route_tab_drag_cursor(&mut self, source: u64, event_window: u64, cursor: PointBits, target: DropTarget)
        requires
            old(self).wf(),
        ensures
            final(self).wf(),
            final(self)@ == cursor_routed(old(self)@, source, event_window, cursor, target),
    {
        let ghost v = self@;
        self.clear_previews();
        let ghost vc = self@;
        proof {
            lemma_cleared(v.windows);
        }
        let si = match self.find(source) {
            Some(i) => i,
            None => {
                proof {
                    assert(!has_window(previews_cleared(v.windows), source));
                    assert(!has_window(v.windows, source));
                }
                return;
            },
        };
        proof {
            lemma_key_index(self@.windows, source, si as int);
            lemma_key_index(v.windows, source, si as int);
        }
        let drag = match self.windows[si].workspace.current_drag() {
            Some(d) => d,
            None => {
                return;
            },
        };
        let event_present = match self.find(event_window) {
            Some(_) => true,
            None => false,
        };
        let (tw, t) = if event_present && !matches!(target, DropTarget::Nowhere) {
            (Some(event_window), target)
        } else {
            (None, DropTarget::Nowhere)
        };
        proof {
            assert(has_window(vc.windows, event_window) == has_window(v.windows, event_window));
            assert((tw, t) == routed_target(v, event_window, target));
            assert(vc.windows[si as int].workspace.drag_state == v.windows[si as int].workspace.drag_state);
        }
        let ghost ws0 = self.windows@;
        let mut w = self.windows.remove(si);
        proof {
            assert(ws0[si as int].workspace.wf());
        }
        w.workspace.update_drag_target(t, cursor, tw, event_window);
        self.windows.insert(si, w);
        proof {
            lemma_replace_window(ws0, si as int, w);
            assert forall|k: int| 0 <= k < self.windows@.len() implies (#[trigger] self.windows@[k]).workspace.wf() by {
                if k != si {
                    assert(self.windows@[k] == ws0[k]);
                }
            }
        }
        match tw {
            Some(k) => {
                if k != source {
                    match self.find(k) {
                        Some(ti) => {
                            proof {
                                lemma_key_index(self@.windows, k, ti as int);
                                lemma_key_index(v.windows, k, ti as int);
                            }
                            let ghost ws1 = self.windows@;
                            let mut w2 = self.windows.remove(ti);
                            proof {
                                assert(ws1[ti as int].workspace.wf());
                            }
                            w2.workspace.set_cross_window_drop_preview(CrossWindowDropPreview { drag, target: t, cursor });
                            self.windows.insert(ti, w2);
                            proof {
                                lemma_replace_window(ws1, ti as int, w2);
                                assert forall|q: int| 0 <= q < self.windows@.len() implies (#[trigger] self.windows@[q]).workspace.wf() by {
                                    if q != ti {
                                        assert(self.windows@[q] == ws1[q]);
                                    }
                                }
                            }
                        },
                        None => {},
                    }
                }
            },
            None => {},
        }
        proof {
            let moved = DragState { pointer_moved: true, cursor, target: t, target_window: tw, cursor_window: Some(event_window), ..drag };
            let ws2 = set_workspace(vc.windows, si as int, WorkspaceView { drag_state: Some(moved), ..vc.windows[si as int].workspace });
            assert(window_views(ws0.update(si as int, w)) == ws2);
            assert(self@.windows =~= cursor_routed(v, source, event_window, cursor, target).windows);
        }
    }
}

/// The target a drag ends on: `hit`, what the renderer finds under the
/// last cursor in the window that last saw it (`None` when the cursor is
/// outside that window), in that window; nowhere when that window is gone;
/// with no cursor move seen, the recorded target and window.
pub open spec fn resolved_drop(v: OpenZoneView, drag: DragState, hit: Option<DropTarget>) -> (Option<u64>, DropTarget) {
    match drag.cursor_window {
        None => (drag.target_window, drag.target),
        Some(c) => match hit {
            Some(t) => if has_window(v.windows, c) {
                (Some(c), t)
            } else {
                (None, DropTarget::Nowhere)
            },
            None => (None, DropTarget::Nowhere),
        },
    }
}

/// A tab dragged from the window at `si` moved into window `tw` on
/// `target`: taken from its source, committed there, and put back at its
/// source when that window refuses it (or is gone, in which case the tab
/// is dropped); the emptied source is cleaned up otherwise.
pub open spec fn moved_across(v: OpenZoneView, si: int, drag: DragState, tw: u64, target: DropTarget, w: OpenZoneView) -> bool {
    let taken = tab_taken(v.windows[si].workspace, drag.source_location, drag.source_tab);
    let ws1 = set_workspace(v.windows, si, taken.0);
    match taken.1 {
        None => w == (OpenZoneView { windows: ws1, ..v }),
        Some(panel) => {
            let into = committed_in(ws1, tw, target, panel);
            let ws2 = into.0;
            match into.1 {
                Some(p) => w == (OpenZoneView {
                    windows: set_workspace(ws2, si, restored_at(ws2[si].workspace, drag.source_location, drag.source_tab, p)),
                    ..v
                }),
                None => exists|wv: WorkspaceView<FeaturePanel>, t: StoresModel| {
                    &&& #[trigger] cleaned_up(ws2[si].workspace, v.stores, drag.source_location, wv, t)
                    &&& w == (OpenZoneView { windows: set_workspace(ws2, si, wv), stores: t, ..v })
                },
            }
        },
    }
}

/// `panel` committed on `target` in window `tw`, and what that window
/// refuses; a missing window takes nothing and refuses nothing.
pub open spec fn committed_in(ws: Seq<WindowView>, tw: u64, target: DropTarget, panel: FeaturePanel) -> (Seq<WindowView>, Option<FeaturePanel>) {
    if has_window(ws, tw) {
        let ti = key_index(ws, tw);
        let r = committed(ws[ti].workspace, target, None, panel);
        (set_workspace(ws, ti, r.0), r.1)
    } else {
        (ws, None)
    }
}

/// The end of a tab drag from window `source`. Previews clear. A click
/// without movement, a drop in the source window, or a drop nowhere (a
/// tear-off) is the source workspace's own drop; a drop into another
/// window moves the tab there, putting it back at its source when that
/// window refuses it. A torn-off tab is handed out to open in a new window.
pub open spec fn drop_handled(v: OpenZoneView, source: u64, hit: Option<DropTarget>, w: OpenZoneView, es: Seq<EffectView>) -> bool {
    if !has_window(v.windows, source) || v.windows[key_index(v.windows, source)].workspace.drag_state is None {
        w == v && es.len() == 0
    } else {
        let si = key_index(v.windows, source);
        let drag = v.windows[si].workspace.drag_state.unwrap();
        let ws0 = previews_cleared(set_workspace(v.windows, si, WorkspaceView { drag_state: None, ..v.windows[si].workspace }));
        let v1 = OpenZoneView { windows: ws0, ..v };
        let (tw0, target) = resolved_drop(v1, drag, hit);
        let tw = match tw0 {
            Some(k) => k,
            None => source,
        };
        if drag.target is Nowhere && !drag.pointer_moved {
            es.len() == 0 && exists|wv: WorkspaceView<FeaturePanel>, t: StoresModel| {
                &&& #[trigger] drag_applied(ws0[si].workspace, v.stores, drag, wv, t)
                &&& w == (OpenZoneView { windows: set_workspace(ws0, si, wv), stores: t, ..v })
            }
        } else if tw != source && !(target is Nowhere) {
            es.len() == 0 && moved_across(v1, si, drag, tw, target, w)
        } else {
            let resolved = DragState { target, target_window: tw0, ..drag };
            exists|wv: WorkspaceView<FeaturePanel>, t: StoresModel| {
                &&& #[trigger] drag_applied(ws0[si].workspace, v.stores, resolved, wv, t)
                &&& w == (OpenZoneView { windows: set_workspace(ws0, si, WorkspaceView { torn_off_panel: None, ..wv }), stores: t, ..v })
                &&& es == match wv.torn_off_panel {
                    Some(p) => seq![EffectView::OpenWorkspaceWith(p)],
                    None => Seq::empty(),
                }
            }
        }
    }
}

impl OpenZone {
    /// Where the application hit-tests before a drop: the window that last
    /// saw the cursor of the active drag from `source`, and the cursor.
    pub fn drop_probe(&self, source: u64) -> (r: Option<(u64, PointBits)>)
        requires
            self.wf(),
        ensures
            r == (if has_window(self@.windows, source) {
                match self@.windows[key_index(self@.windows, source)].workspace.drag_state {
                    Some(d) => match d.cursor_window {
                        Some(c) => Some((c, d.cursor)),
                        None => None,
                    },
                    None => None,
                }
            } else {
                None
            }),
    {
        match self.find(source) {
            Some(i) => {
                proof {
                    lemma_key_index(self@.windows, source, i as int);
                }
                match self.windows[i].workspace.current_drag() {
                    Some(d) => match d.cursor_window {
                        Some(c) => Some((c, d.cursor)),
                        None => None,
                    },
                    None => None,
                }
            },
            None => None,
        }
    }

    /// End the tab drag from window `source` (see [`drop_handled`]); `hit`
    /// is what lies under the drag's last cursor (see [`Self::drop_probe`]).
    #[verifier::rlimit(40)]
    pub fn handle_tab_drag_dropped(&mut self, source: u64, hit: Option<DropTarget>) -> (r: Vec<AppEffect>)
        requires
            old(self).wf(),
            FeaturePanel::room(old(self)@.stores, 1),
        ensures
            final(self).wf(),
            drop_handled(old(self)@, source, hit, final(self)@, effect_views(r@)),
    {
        let ghost v = self@;
        let mut effects: Vec<AppEffect> = Vec::new();
        proof {
            assert(effect_views(effects@) =~= Seq::<EffectView>::empty());
        }
        let si = match self.find(source) {
            Some(i) => i,
            None => {
                return effects;
            },
        };
        proof {
            lemma_key_index(v.windows, source, si as int);
        }
        let ghost ws_a = self.windows@;
        let mut w = self.windows.remove(si);
        proof {
            assert(ws_a[si as int].workspace.wf());
        }
        let taken = w.workspace.take_drag_state();
        let ghost w_after = w.workspace@;
        self.windows.insert(si, w);
        proof {
            lemma_replace_window(ws_a, si as int, w);
            assert forall|k: int| 0 <= k < self.windows@.len() implies (#[trigger] self.windows@[k]).workspace.wf() by {
                if k != si {
                    assert(self.windows@[k] == ws_a[k]);
                }
            }
        }
        let drag = match taken {
            Some(d) => d,
            None => {
                proof {
                    assert(w_after == v.windows[si as int].workspace);
                    assert(self@.windows =~= v.windows);
                }
                return effects;
            },
        };
        self.clear_previews();
        let ghost ws0 = self@.windows;
        proof {
            lemma_cleared(window_views(ws_a.update(si as int, w)));
            lemma_key_index(ws0, source, si as int);
            assert(w_after == (WorkspaceView { drag_state: None, ..v.windows[si as int].workspace }));
            assert(window_views(ws_a.update(si as int, w)) == set_workspace(v.windows, si as int, w_after));
            assert(ws0 == previews_cleared(set_workspace(v.windows, si as int, WorkspaceView { drag_state: None, ..v.windows[si as int].workspace })));
            assert(drag == v.windows[si as int].workspace.drag_state.unwrap());
        }
        if matches!(drag.target, DropTarget::Nowhere) && !drag.pointer_moved {
            let ghost ws_b = self.windows@;
            let mut w = self.windows.remove(si);
            proof {
                assert(ws_b[si as int].workspace.wf());
            }
            w.workspace.finish_local_tab_drag(drag, &mut self.stores);
            self.windows.insert(si, w);
            proof {
                lemma_replace_window(ws_b, si as int, w);
                assert forall|k: int| 0 <= k < self.windows@.len() implies (#[trigger] self.windows@[k]).workspace.wf() by {
                    if k != si {
                        assert(self.windows@[k] == ws_b[k]);
                    }
                }
            }
            return effects;
        }
        let (tw0, target) = match drag.cursor_window {
            None => (drag.target_window, drag.target),
            Some(c) => match hit {
                Some(t) => match self.find(c) {
                    Some(_) => (Some(c), t),
                    None => (None, DropTarget::Nowhere),
                },
                None => (None, DropTarget::Nowhere),
            },
        };
        let tw = match tw0 {
            Some(k) => k,
            None => source,
        };
        if tw != source && !matches!(target, DropTarget::Nowhere) {
            self.move_across(si, drag, tw, target);
            return effects;
        }
        let resolved = DragState { target, target_window: tw0, ..drag };
        let ghost ws_b = self.windows@;
        let mut w = self.windows.remove(si);
        proof {
            assert(ws_b[si as int].workspace.wf());
        }
        w.workspace.finish_local_tab_drag(resolved, &mut self.stores);
        let ghost wv = w.workspace@;
        let torn = w.workspace.take_torn_off_panel();
        self.windows.insert(si, w);
        proof {
            lemma_replace_window(ws_b, si as int, w);
            assert forall|k: int| 0 <= k < self.windows@.len() implies (#[trigger] self.windows@[k]).workspace.wf() by {
                if k != si {
                    assert(self.windows@[k] == ws_b[k]);
                }
            }
        }
        match torn {
            Some(p) => {
                effects.push(AppEffect::OpenWorkspaceWith(p));
                proof {
                    assert(effect_views(effects@) =~= seq![EffectView::OpenWorkspaceWith(p)]);
                }
            },
            None => {},
        }
        effects
    }
}

impl OpenZone {
    /// Move the tab of `drag` from the window at `si` into window `tw` (see
    /// [`moved_across`]).
    #[verifier::rlimit(80)]
    fn move_across(&mut self, si: usize, drag: DragState, tw: u64, target: DropTarget)
        requires
            old(self).wf(),
            si < old(self).windows@.len(),
            old(self)@.windows[si as int].key != tw,
            FeaturePanel::room(old(self)@.stores, 1),
        ensures
            final(self).wf(),
            moved_across(old(self)@, si as int, drag, tw, target, final(self)@),
    {
        let ghost v = self@;
        let ghost ws0 = self@.windows;
        let source = self.windows[si].key;
        let ghost ws_b = self.windows@;
        let mut w = self.windows.remove(si);
        proof {
            assert(ws_b[si as int].workspace.wf());
        }
        let panel = w.workspace.extract_dragged_panel(&drag);
        let ghost sw1 = w.workspace@;
        self.windows.insert(si, w);
        proof {
            lemma_replace_window(ws_b, si as int, w);
            assert forall|k: int| 0 <= k < self.windows@.len() implies (#[trigger] self.windows@[k]).workspace.wf() by {
                if k != si {
                    assert(self.windows@[k] == ws_b[k]);
                }
            }
        }
        let ghost ws1 = self@.windows;
        proof {
            assert((sw1, panel) == tab_taken(ws0[si as int].workspace, drag.source_location, drag.source_tab));
            assert(ws1 == set_workspace(ws0, si as int, sw1));
        }
        let panel = match panel {
            Some(p) => p,
            None => {
                return;
            },
        };
        let failed = match self.find(tw) {
            Some(ti) => {
                proof {
                    lemma_key_index(ws1, tw, ti as int);
                    if ti == si {
                        lemma_key_index(ws1, source, si as int);
                    }
                }
                let ghost ws_c = self.windows@;
                let mut t = self.windows.remove(ti);
                proof {
                    assert(ws_c[ti as int].workspace.wf());
                }
                let back = t.workspace.apply_incoming_panel_drop(panel, target);
                let ghost tv = t.workspace@;
                self.windows.insert(ti, t);
                proof {
                    lemma_replace_window(ws_c, ti as int, t);
                    assert forall|k: int| 0 <= k < self.windows@.len() implies (#[trigger] self.windows@[k]).workspace.wf() by {
                        if k != ti {
                            assert(self.windows@[k] == ws_c[k]);
                        }
                    }
                    assert((tv, back) == committed(ws1[ti as int].workspace, target, None, panel));
                    assert(self@.windows == set_workspace(ws1, ti as int, tv));
                    assert(ti != si);
                }
                back
            },
            None => None,
        };
        let ghost ws2 = self@.windows;
        proof {
            lemma_key_index(ws2, source, si as int);
            assert(ws2[si as int].workspace == sw1);
            assert(self@.stores == v.stores);
            assert(committed_in(ws1, tw, target, panel).0 == ws2);
            assert(committed_in(ws1, tw, target, panel).1 == failed);
        }
        let ghost ws_d = self.windows@;
        let mut w = self.windows.remove(si);
        proof {
            assert(ws_d[si as int].workspace.wf());
        }
        let ghost s_before = self.stores.model();
        let ghost failed_g = failed;
        match failed {
            Some(p) => {
                w.workspace.restore_dragged_panel(drag.source_location, drag.source_tab, p);
            },
            None => {
                w.workspace.cleanup_after_drag_source(drag.source_location, &mut self.stores);
            },
        }
        let ghost w_after = w.workspace@;
        self.windows.insert(si, w);
        proof {
            lemma_replace_window(ws_d, si as int, w);
            assert forall|k: int| 0 <= k < self.windows@.len() implies (#[trigger] self.windows@[k]).workspace.wf() by {
                if k != si {
                    assert(self.windows@[k] == ws_d[k]);
                }
            }
            assert(self@.windows == set_workspace(ws2, si as int, w_after));
            assert(s_before == v.stores);
            match failed_g {
                Some(p) => {
                    assert(w_after == restored_at(ws2[si as int].workspace, drag.source_location, drag.source_tab, p));
                    assert(self@ == (OpenZoneView { windows: set_workspace(ws2, si as int, restored_at(ws2[si as int].workspace, drag.source_location, drag.source_tab, p)), ..v }));
                },
                None => {
                    assert(cleaned_up(ws2[si as int].workspace, v.stores, drag.source_location, w_after, self@.stores));
                    assert(self@ == (OpenZoneView { windows: set_workspace(ws2, si as int, w_after), stores: self@.stores, ..v }));
                },
            }
        }
    }
}

/// A message to the application root.
#[derive(Debug, Clone)]
pub enum AppMessage {
    Onboarding(OnboardingMessage),
    /// A message to the workspace of a window.
    Workspace { window: u64, message: WorkspaceMessage<FeatureMessage> },
    /// A key chord, tagged with the window that produced it.
    Key { window: u64, chord: Chord },
    /// The tab drag in progress ended; `hit` is what lies under its last
    /// cursor (see [`OpenZone::drop_probe`]).
    DropTab { hit: Option<DropTarget> },
    /// Open another workspace window.
    OpenWorkspace,
    /// The user asked to close an OS window.
    WindowCloseRequested(u64),
    /// Decide the batched close requests.
    EvaluatePendingCloses,
    ConfirmAppCloseDiscard,
    ConfirmAppCloseCancel,
    WindowClosed(u64),
}

/// The workspace of window `key` folds `message`; what it leaves for the
/// root is then handed out: a palette request for a new window first,
/// otherwise a torn-off tab. Nothing happens without such a window.
pub open spec fn window_stepped(v: OpenZoneView, key: u64, message: WorkspaceMessage<FeatureMessage>, w: OpenZoneView, es: Seq<EffectView>) -> bool {
    if has_window(v.windows, key) {
        let i = key_index(v.windows, key);
        exists|wv: WorkspaceView<FeaturePanel>, t: StoresModel| {
            &&& #[trigger] updated_by(v.windows[i].workspace, v.stores, message, wv, t)
            &&& ({
                let wv1 = WorkspaceView { pending_app_command: None, ..wv };
                if wv.pending_app_command == Some(CommandId::NewWindow) {
                    &&& w == (OpenZoneView { windows: set_workspace(v.windows, i, wv1), stores: t, ..v })
                    &&& es == seq![EffectView::OpenWorkspace]
                } else {
                    &&& w == (OpenZoneView { windows: set_workspace(v.windows, i, WorkspaceView { torn_off_panel: None, ..wv1 }), stores: t, ..v })
                    &&& es == match wv1.torn_off_panel {
                        Some(p) => seq![EffectView::OpenWorkspaceWith(p)],
                        None => Seq::empty(),
                    }
                }
            })
        }
    } else {
        w == v && es.len() == 0
    }
}

/// Whether some window drags a tab, and which (the first).
pub open spec fn drag_source(v: OpenZoneView) -> Option<u64> {
    if exists|i: int| 0 <= i < v.windows.len() && (#[trigger] v.windows[i]).workspace.drag_state is Some {
        let i = choose|i: int| 0 <= i < v.windows.len() && (#[trigger] v.windows[i]).workspace.drag_state is Some
            && forall|j: int| 0 <= j < i ==> (#[trigger] v.windows[j]).workspace.drag_state is None;
        Some(v.windows[i].key)
    } else {
        None
    }
}

/// The target the drag from `source` recorded at its last cursor move.
pub open spec fn recorded_hit(v: OpenZoneView, source: u64) -> Option<DropTarget> {
    match v.windows[key_index(v.windows, source)].workspace.drag_state {
        Some(d) => Some(d.target),
        None => None,
    }
}

/// A message from window `window`'s workspace: ignored under that
/// window's close prompt; a new-window request goes to the root; while a
/// tab drag is on, cursor moves and the drop go to the drag; anything else
/// goes to the window.
pub open spec fn workspace_routed(v: OpenZoneView, window: u64, message: WorkspaceMessage<FeatureMessage>, w: OpenZoneView, es: Seq<EffectView>) -> bool {
    if v.app_close_prompt is Some && prompt_target(v.app_close_prompt.unwrap()) == window {
        w == v && es.len() == 0
    } else if message is NewWindow {
        w == v && es == seq![EffectView::OpenWorkspace]
    } else {
        match (drag_source(v), message) {
            (Some(source), WorkspaceMessage::CursorMoved { cursor, target }) => w == cursor_routed(v, source, window, cursor, target)
                && es.len() == 0,
            (Some(source), WorkspaceMessage::TabDragDropped) => drop_handled(v, source, recorded_hit(v, source), w, es),
            _ => window_stepped(v, window, message, w, es),
        }
    }
}

/// One step of the application root.
pub open spec fn app_step(v: OpenZoneView, message: AppMessage, w: OpenZoneView, es: Seq<EffectView>) -> bool {
    match message {
        AppMessage::Onboarding(m) => match v.onboarding {
            None => w == v && es.len() == 0,
            Some(o) => {
                let (o2, outcome) = onboarding_step(o, m);
                &&& w == (OpenZoneView { onboarding: Some(o2), ..v })
                &&& es == (if outcome == OnboardingOutcome::Completed || outcome == OnboardingOutcome::Skipped {
                    seq![EffectView::MarkOnboardingCompleted, EffectView::OpenPrimaryWorkspace]
                } else {
                    Seq::empty()
                })
            },
        },
        AppMessage::Workspace { window, message } => workspace_routed(v, window, message, w, es),
        AppMessage::Key { window, chord } => window_stepped(v, window, WorkspaceMessage::Key(chord), w, es),
        AppMessage::DropTab { hit } => match drag_source(v) {
            Some(source) => drop_handled(v, source, hit, w, es),
            None => w == v && es.len() == 0,
        },
        AppMessage::OpenWorkspace => w == v && es == seq![EffectView::OpenWorkspace],
        AppMessage::WindowCloseRequested(key) => (w, es) == close_request_step(v, key),
        AppMessage::EvaluatePendingCloses => (w, es) == evaluation_step(v),
        AppMessage::ConfirmAppCloseDiscard => discard_confirmed(v, w, es),
        AppMessage::ConfirmAppCloseCancel => w == (OpenZoneView { app_close_prompt: None, pending_close_windows: Seq::empty(), ..v })
            && es.len() == 0,
        AppMessage::WindowClosed(key) => (w, es) == window_closed_step(v, key),
    }
}

impl OpenZone {
    /// Fold a workspace message into window `key` and hand out what it
    /// leaves for the root (see [`window_stepped`]).
    fn step_window(&mut self, key: u64, message: WorkspaceMessage<FeatureMessage>) -> (r: Vec<AppEffect>)
        requires
            old(self).wf(),
            FeaturePanel::room(old(self)@.stores, 1),
        ensures
            final(self).wf(),
            window_stepped(old(self)@, key, message, final(self)@, effect_views(r@)),
    {
        let mut effects: Vec<AppEffect> = Vec::new();
        proof {
            assert(effect_views(effects@) =~= Seq::<EffectView>::empty());
        }
        let i = match self.find(key) {
            Some(i) => i,
            None => {
                return effects;
            },
        };
        proof {
            lemma_key_index(self@.windows, key, i as int);
        }
        let ghost ws0 = self.windows@;
        let mut w = self.windows.remove(i);
        proof {
            assert(ws0[i as int].workspace.wf());
        }
        w.workspace.update(message, &mut self.stores);
        let ghost wv = w.workspace@;
        let command = w.workspace.take_pending_app_command();
        let mut new_window = false;
        match command {
            Some(CommandId::NewWindow) => {
                new_window = true;
            },
            _ => {},
        }
        let mut torn: Option<FeaturePanel> = None;
        if !new_window {
            torn = w.workspace.take_torn_off_panel();
        }
        self.windows.insert(i, w);
        proof {
            lemma_replace_window(ws0, i as int, w);
            assert forall|k: int| 0 <= k < self.windows@.len() implies (#[trigger] self.windows@[k]).workspace.wf() by {
                if k != i {
                    assert(self.windows@[k] == ws0[k]);
                }
            }
        }
        if new_window {
            effects.push(AppEffect::OpenWorkspace);
            proof {
                assert(effect_views(effects@) =~= seq![EffectView::OpenWorkspace]);
            }
        } else {
            match torn {
                Some(p) => {
                    effects.push(AppEffect::OpenWorkspaceWith(p));
                    proof {
                        assert(effect_views(effects@) =~= seq![EffectView::OpenWorkspaceWith(p)]);
                    }
                },
                None => {},
            }
        }
        effects
    }

    /// One step of the application root (see [`app_step`]).
    pub fn update(&mut self, message: AppMessage) -> (r: Vec<AppEffect>)
        requires
            old(self).wf(),
            FeaturePanel::room(old(self)@.stores, prompt_len(old(self)@.app_close_prompt) + 1),
        ensures
            final(self).wf(),
            app_step(old(self)@, message, final(self)@, effect_views(r@)),
    {
        proof {
            FeaturePanel::lemma_room_mono(self@.stores, prompt_len(self@.app_close_prompt) + 1, 1);
            FeaturePanel::lemma_room_mono(self@.stores, prompt_len(self@.app_close_prompt) + 1, prompt_len(self@.app_close_prompt));
        }
        match message {
            AppMessage::Onboarding(m) => {
                let mut effects: Vec<AppEffect> = Vec::new();
                match self.onboarding {
                    None => {
                        proof {
                            assert(effect_views(effects@) =~= Seq::<EffectView>::empty());
                        }
                    },
                    Some(o) => {
                        let mut o = o;
                        let outcome = o.update(m);
                        self.onboarding = Some(o);
                        match outcome {
                            OnboardingOutcome::Completed | OnboardingOutcome::Skipped => {
                                effects.push(AppEffect::MarkOnboardingCompleted);
                                effects.push(AppEffect::OpenPrimaryWorkspace);
                                proof {
                                    assert(effect_views(effects@) =~= seq![EffectView::MarkOnboardingCompleted, EffectView::OpenPrimaryWorkspace]);
                                }
                            },
                            _ => {
                                proof {
                                    assert(effect_views(effects@) =~= Seq::<EffectView>::empty());
                                }
                            },
                        }
                    },
                }
                effects
            },
            AppMessage::Workspace { window, message } => self.route_workspace_message(window, message),
            AppMessage::Key { window, chord } => self.step_window(window, WorkspaceMessage::Key(chord)),
            AppMessage::DropTab { hit } => match self.tab_drag_source() {
                Some(source) => {
                    proof {
                        lemma_drag_source(self@, source);
                    }
                    self.handle_tab_drag_dropped(source, hit)
                },
                None => {
                    proof {
                        lemma_no_drag_source(self@);
                    }
                    let effects: Vec<AppEffect> = Vec::new();
                    proof {
                        assert(effect_views(effects@) =~= Seq::<EffectView>::empty());
                    }
                    effects
                },
            },
            AppMessage::OpenWorkspace => {
                let mut effects: Vec<AppEffect> = Vec::new();
                effects.push(AppEffect::OpenWorkspace);
                proof {
                    assert(effect_views(effects@) =~= seq![EffectView::OpenWorkspace]);
                }
                effects
            },
            AppMessage::WindowCloseRequested(key) => self.on_window_close_requested(key),
            AppMessage::EvaluatePendingCloses => self.evaluate_pending_closes(),
            AppMessage::ConfirmAppCloseDiscard => self.confirm_app_close_discard(),
            AppMessage::ConfirmAppCloseCancel => {
                self.cancel_app_close();
                let effects: Vec<AppEffect> = Vec::new();
                proof {
                    assert(effect_views(effects@) =~= Seq::<EffectView>::empty());
                }
                effects
            },
            AppMessage::WindowClosed(key) => self.handle_window_closed(key),
        }
    }
}

/// The first window with a drag is the drag source.
proof fn lemma_drag_source(v: OpenZoneView, source: u64)
    requires
        keys_unique(v.windows),
        has_window(v.windows, source),
        v.windows[key_index(v.windows, source)].workspace.drag_state is Some,
        forall|j: int| 0 <= j < key_index(v.windows, source) ==> (#[trigger] v.windows[j]).workspace.drag_state is None,
    ensures
        drag_source(v) == Some(source),
{
    let k = key_index(v.windows, source);
    assert(v.windows[k].workspace.drag_state is Some);
    let i = choose|i: int| 0 <= i < v.windows.len() && (#[trigger] v.windows[i]).workspace.drag_state is Some
        && forall|j: int| 0 <= j < i ==> (#[trigger] v.windows[j]).workspace.drag_state is None;
    if i < k {
        assert(v.windows[i].workspace.drag_state is None);
    }
    if k < i {
        assert(v.windows[k].workspace.drag_state is None);
    }
}

/// With no window dragging there is no drag source.
proof fn lemma_no_drag_source(v: OpenZoneView)
    requires
        forall|i: int| 0 <= i < v.windows.len() ==> (#[trigger] v.windows[i]).workspace.drag_state is None,
    ensures
        drag_source(v) is None,
{
}

impl OpenZone {
    /// A message from window `window`'s workspace (see [`workspace_routed`]).
    fn route_workspace_message(&mut self, window: u64, message: WorkspaceMessage<FeatureMessage>) -> (r: Vec<AppEffect>)
        requires
            old(self).wf(),
            FeaturePanel::room(old(self)@.stores, 1),
        ensures
            final(self).wf(),
            workspace_routed(old(self)@, window, message, final(self)@, effect_views(r@)),
    {
        let blocked = match &self.app_close_prompt {
            Some(p) => p.target_window() == window,
            None => false,
        };
        if blocked {
            let effects: Vec<AppEffect> = Vec::new();
            proof {
                assert(effect_views(effects@) =~= Seq::<EffectView>::empty());
            }
            return effects;
        }
        if matches!(message, WorkspaceMessage::NewWindow) {
            let mut effects: Vec<AppEffect> = Vec::new();
            effects.push(AppEffect::OpenWorkspace);
            proof {
                assert(effect_views(effects@) =~= seq![EffectView::OpenWorkspace]);
            }
            return effects;
        }
        match self.tab_drag_source() {
            Some(source) => {
                proof {
                    lemma_drag_source(self@, source);
                }
                match message {
                    WorkspaceMessage::CursorMoved { cursor, target } => {
                        self.route_tab_drag_cursor(source, window, cursor, target);
                        let effects: Vec<AppEffect> = Vec::new();
                        proof {
                            assert(effect_views(effects@) =~= Seq::<EffectView>::empty());
                        }
                        effects
                    },
                    WorkspaceMessage::TabDragDropped => {
                        let hit = match self.find(source) {
                            Some(i) => {
                                proof {
                                    lemma_key_index(self@.windows, source, i as int);
                                }
                                match self.windows[i].workspace.current_drag() {
                                    Some(d) => Some(d.target),
                                    None => None,
                                }
                            },
                            None => None,
                        };
                        self.handle_tab_drag_dropped(source, hit)
                    },
                    _ => self.step_window(window, message),
                }
            },
            None => {
                proof {
                    lemma_no_drag_source(self@);
                }
                self.step_window(window, message)
            },
        }
    }
}

} // verus!
