//! Workspace state and reducer.
//!
//! The workspace owns the center split tree, each pane's tab stack, the
//! edge docks, the keymap, the command palette and a single focused
//! location. Every message funnels through [`Workspace::update`], the one
//! mutation path of layout state (through `&mut self`) and of domain
//! state (through `&mut AppStores`).
//!
//! Each operation's contract is stated over [`WorkspaceView`], the plain
//! value of a workspace: what an operation does to the view, and, where a
//! panel acts (a message, a close, a default surface), the panel's own
//! statement of what it does.

use crate::shared::design::{toggled, OpenZoneTheme, ThemeMode};
use crate::workspace::workspace_command::{binding_of, Chord, Command, Keymap};
use crate::workspace::workspace_command_palette::{
    item_views, palette_results, CommandId, CommandItem, PaletteState,
};
use crate::workspace::workspace_dock::{Dock, DockVisibility, Docks};
use crate::workspace::workspace_drag::{
    direction_axis, direction_leads, Direction, DragState, DropTarget, PointBits, SizeBits,
    SplitPaneTarget,
};
use crate::workspace::workspace_location::{DockSide, Pane, PanelLocation};
use crate::workspace::workspace_pane_grid::{
    lemma_replace_then_swap, map_grid, min_pane, model_close, model_drop, model_split_node, model_swap,
    swapped, GridModel, Node, PaneDropTarget, PaneGrid, SplitAxis, HALF_RATIO_BITS,
};
use crate::workspace::workspace_pane_state::{active_after_remove, PaneState, PaneView};
use crate::workspace::workspace_panel::Panel;
use crate::workspace::workspace_stores::{AppStores, StoresModel};
use vstd::prelude::*;

verus! {

/// A pending "discard changes?" prompt for one tab.
#[derive(Debug, Clone)]
pub struct CloseConfirmation {
    pub location: PanelLocation,
    pub tab: usize,
    pub message: String,
}

/// The plain value of a close confirmation.
pub struct ConfirmView {
    pub location: PanelLocation,
    pub tab: usize,
    pub message: Seq<char>,
}

impl CloseConfirmation {
    pub open spec fn view(&self) -> ConfirmView {
        ConfirmView { location: self.location, tab: self.tab, message: self.message@ }
    }
}

/// The drop preview a window shows while a tab from another window hovers
/// over it.
#[derive(Debug, Clone, Copy, PartialEq, Eq, Structural)]
pub struct CrossWindowDropPreview {
    pub drag: DragState,
    pub target: DropTarget,
    pub cursor: PointBits,
}

/// A dirty panel found when a window is about to close.
#[derive(Debug, Clone)]
pub struct DirtyPanel {
    pub location: PanelLocation,
    pub tab: usize,
    pub title: String,
    pub message: String,
}

impl DirtyPanel {
    /// Location, tab, title and prompt.
    pub open spec fn view(&self) -> (PanelLocation, usize, Seq<char>, Seq<char>) {
        (self.location, self.tab, self.title@, self.message@)
    }
}

/// The plain values of a list of dirty panels.
pub open spec fn dirty_views(ds: Seq<DirtyPanel>) -> Seq<(PanelLocation, usize, Seq<char>, Seq<char>)> {
    ds.map_values(|d: DirtyPanel| d.view())
}

/// The prompt closing `p` asks for, empty when it asks none.
pub open spec fn prompt_or_empty<P: Panel>(p: P) -> Seq<char> {
    match p.close_prompt_spec() {
        Some(m) => m,
        None => Seq::empty(),
    }
}

/// The dirty tabs among the first `n` tabs at `location`, front to back.
pub open spec fn dirty_upto<P: Panel>(location: PanelLocation, tabs: Seq<P>, n: int) -> Seq<(PanelLocation, usize, Seq<char>, Seq<char>)>
    decreases n,
{
    if n <= 0 {
        Seq::empty()
    } else {
        let rest = dirty_upto(location, tabs, n - 1);
        let p = tabs[n - 1];
        if p.dirty_spec() {
            rest.push((location, (n - 1) as usize, p.title_spec(), prompt_or_empty(p)))
        } else {
            rest
        }
    }
}

/// The dirty tabs of the stack at `location`.
pub open spec fn dirty_at<P: Panel>(v: WorkspaceView<P>, location: PanelLocation) -> Seq<(PanelLocation, usize, Seq<char>, Seq<char>)> {
    match v.pane_at(location) {
        Some(pv) => dirty_upto(location, pv.tabs, pv.tabs.len() as int),
        None => Seq::empty(),
    }
}

/// The dirty tabs of the center panes `order`, pane after pane.
pub open spec fn dirty_over<P: Panel>(v: WorkspaceView<P>, order: Seq<Pane>) -> Seq<(PanelLocation, usize, Seq<char>, Seq<char>)>
    decreases order.len(),
{
    if order.len() == 0 {
        Seq::empty()
    } else {
        dirty_over(v, order.drop_last()) + dirty_at(v, PanelLocation::Center(order.last()))
    }
}

/// The dirty tabs of a window: the center panes in `order`, then the left,
/// right and bottom docks.
pub open spec fn dirty_panels<P: Panel>(v: WorkspaceView<P>, order: Seq<Pane>) -> Seq<(PanelLocation, usize, Seq<char>, Seq<char>)> {
    dirty_over(v, order) + dirty_at(v, PanelLocation::Dock(DockSide::Left)) + dirty_at(v, PanelLocation::Dock(DockSide::Right))
        + dirty_at(v, PanelLocation::Dock(DockSide::Bottom))
}

/// The center panes of `v` in ascending id order.
pub open spec fn ascending_panes<P: Panel>(v: WorkspaceView<P>, order: Seq<Pane>) -> bool {
    &&& order.no_duplicates()
    &&& forall|p: Pane| #[trigger] order.contains(p) <==> v.grid.panes.contains_key(p)
    &&& forall|i: int, j: int| 0 <= i < j < order.len() ==> (#[trigger] order[i]).0 < (#[trigger] order[j]).0
}

/// A message to a workspace. Panel messages are typed by the panel's own
/// message type. Pointer geometry is resolved by the renderer before a
/// message reaches the reducer: a pane drag arrives as its drop, a cursor
/// move as the drop target under it.
#[derive(Debug, Clone)]
pub enum WorkspaceMessage<M> {
    /// A panel's own message, for the tab that produced it.
    Panel { location: PanelLocation, tab: usize, message: M },
    TabSelected { location: PanelLocation, tab: usize },
    TabHoverChanged { location: Option<(PanelLocation, usize)> },
    TabCloseRequested { location: PanelLocation, tab: usize },
    PaneClicked(Pane),
    DockFocused(PanelLocation),
    Key(Chord),
    Command(Command),
    TogglePalette,
    PaletteQueryChanged(String),
    PaletteItemClicked(usize),
    ToggleTheme,
    /// Handled by the application root.
    NewWindow,
    /// A whole pane dragged and dropped within the split tree.
    PaneDropped { pane: Pane, target: PaneDropTarget },
    TabDragStarted { location: PanelLocation, tab: usize },
    /// The cursor moved during a tab drag, over `target`.
    CursorMoved { cursor: PointBits, target: DropTarget },
    TabDragDropped,
    WindowResized(SizeBits),
    ConfirmCloseDiscard { location: PanelLocation, tab: usize },
    ConfirmCloseCancel,
}

/// The plain value of a dock.
pub struct DockView<P> {
    pub tabs: PaneView<P>,
    pub visibility: DockVisibility,
    pub extent_bits: u32,
}

pub open spec fn dock_view<P>(d: Dock<P>) -> DockView<P> {
    DockView { tabs: d.tabs@, visibility: d.visibility, extent_bits: d.extent_bits }
}

/// The bit pattern of the default window width (1100).
pub const DEFAULT_WINDOW_WIDTH_BITS: u32 = 0x4489_8000u32;

/// The bit pattern of the default window height (760).
pub const DEFAULT_WINDOW_HEIGHT_BITS: u32 = 0x443e_0000u32;

/// The plain value of a workspace.
pub struct WorkspaceView<P: Panel> {
    /// The split tree, each center pane's tab stack, and the id counter.
    pub grid: GridModel<PaneView<P>>,
    pub left: DockView<P>,
    pub right: DockView<P>,
    pub bottom: DockView<P>,
    pub keymap: Seq<(Chord, Command)>,
    pub focused: PanelLocation,
    pub theme: OpenZoneTheme,
    pub theme_mode: ThemeMode,
    pub drag_state: Option<DragState>,
    pub window_size: SizeBits,
    pub cross_window_drop_preview: Option<CrossWindowDropPreview>,
    pub torn_off_panel: Option<P>,
    pub scratch_surface: Option<P::Surface>,
    pub left_surface: Option<P::Surface>,
    pub right_surface: Option<P::Surface>,
    pub bottom_surface: Option<P::Surface>,
    pub close_confirmation: Option<ConfirmView>,
    pub palette_open: bool,
    pub palette_query: Seq<char>,
    pub palette_results: Seq<(Seq<char>, CommandId)>,
    pub palette_selected: usize,
    pub all_commands: Seq<(Seq<char>, CommandId)>,
    pub pending_app_command: Option<CommandId>,
    pub hovered_tab: Option<(PanelLocation, usize)>,
}

/// The empty tab stack.
pub open spec fn empty_pane<P>() -> PaneView<P> {
    PaneView { tabs: Seq::empty(), active: 0 }
}

impl<P: Panel> WorkspaceView<P> {
    /// The dock on `side`.
    pub open spec fn dock(self, side: DockSide) -> DockView<P> {
        match side {
            DockSide::Left => self.left,
            DockSide::Right => self.right,
            DockSide::Bottom => self.bottom,
        }
    }

    /// The view with the dock on `side` replaced.
    pub open spec fn with_dock(self, side: DockSide, d: DockView<P>) -> Self {
        match side {
            DockSide::Left => WorkspaceView { left: d, ..self },
            DockSide::Right => WorkspaceView { right: d, ..self },
            DockSide::Bottom => WorkspaceView { bottom: d, ..self },
        }
    }

    /// The default surface registered for the dock on `side`.
    pub open spec fn surface(self, side: DockSide) -> Option<P::Surface> {
        match side {
            DockSide::Left => self.left_surface,
            DockSide::Right => self.right_surface,
            DockSide::Bottom => self.bottom_surface,
        }
    }

    /// The tab stack at `location`, if it exists.
    pub open spec fn pane_at(self, location: PanelLocation) -> Option<PaneView<P>> {
        match location {
            PanelLocation::Center(p) => if self.grid.panes.contains_key(p) {
                Some(self.grid.panes[p])
            } else {
                None
            },
            PanelLocation::Dock(side) => Some(self.dock(side).tabs),
        }
    }

    /// The view with the tab stack at `location` replaced.
    pub open spec fn with_pane(self, location: PanelLocation, pv: PaneView<P>) -> Self {
        match location {
            PanelLocation::Center(p) => WorkspaceView {
                grid: GridModel { panes: self.grid.panes.insert(p, pv), ..self.grid },
                ..self
            },
            PanelLocation::Dock(side) => self.with_dock(side, DockView { tabs: pv, ..self.dock(side) }),
        }
    }

    /// The view with the dock on `side` set to `visibility`.
    pub open spec fn with_visibility(self, side: DockSide, visibility: DockVisibility) -> Self {
        self.with_dock(side, DockView { visibility, ..self.dock(side) })
    }

    /// Focus returned to the first center pane (the smallest id), when
    /// there is one.
    pub open spec fn focus_workbench(self) -> Self {
        if self.grid.panes.dom().len() > 0 {
            WorkspaceView { focused: PanelLocation::Center(min_pane(self.grid.panes.dom())), ..self }
        } else {
            self
        }
    }

    /// A tab selected: focus moves to `location`, whose stack (if any)
    /// makes `tab` active when it is in range.
    pub open spec fn tab_selected(self, location: PanelLocation, tab: usize) -> Self {
        let v = WorkspaceView { focused: location, ..self };
        match self.pane_at(location) {
            Some(pv) => v.with_pane(
                location,
                PaneView { active: if tab < pv.tabs.len() { tab } else { pv.active }, ..pv },
            ),
            None => v,
        }
    }

    /// A location focused from the dock chrome: a collapsed dock that has
    /// tabs opens.
    pub open spec fn dock_focused(self, location: PanelLocation) -> Self {
        let v = WorkspaceView { focused: location, ..self };
        match location {
            PanelLocation::Dock(side) => if v.dock(side).visibility == DockVisibility::Collapsed
                && v.dock(side).tabs.tabs.len() > 0 {
                v.with_visibility(side, DockVisibility::Open)
            } else {
                v
            },
            PanelLocation::Center(_) => v,
        }
    }

    /// A dock collapsed or hidden; when it had focus, focus returns to the
    /// first center pane.
    pub open spec fn dock_set_aside(self, side: DockSide, visibility: DockVisibility) -> Self {
        let v = self.with_visibility(side, visibility);
        if self.focused == PanelLocation::Dock(side) {
            v.focus_workbench()
        } else {
            v
        }
    }

    /// The focused center pane split vertically with a new empty pane,
    /// which takes focus; a focused dock changes nothing.
    pub open spec fn split_focused(self) -> Self {
        match self.focused {
            PanelLocation::Center(pane) => {
                let (g, r) = model_split_node(self.grid, SplitAxis::Vertical, Some(pane), empty_pane(), false);
                WorkspaceView {
                    grid: g,
                    focused: match r {
                        Some(np) => PanelLocation::Center(np),
                        None => self.focused,
                    },
                    ..self
                }
            },
            PanelLocation::Dock(_) => self,
        }
    }

    /// The theme mode flipped, and the theme resolved from it.
    pub open spec fn theme_toggled(self) -> Self {
        WorkspaceView { theme_mode: toggled(self.theme_mode), theme: theme_of(toggled(self.theme_mode)), ..self }
    }

    /// Toggling the theme twice gives the view back, when its theme is the
    /// one of its mode (as every workspace's is).
    pub proof fn law_theme_toggle_twice(self)
        requires
            self.theme == theme_of(self.theme_mode),
        ensures
            self.theme_toggled().theme_toggled() == self,
            self.theme_toggled().theme_mode != self.theme_mode,
    {
        crate::shared::design::lemma_toggle_involutive(self.theme_mode);
    }

    /// Splitting the focused center pane puts a fresh, empty pane beside it
    /// (a vertical split, the old pane left as the first child and the new
    /// one right as the second, each taking half), and the new pane takes
    /// focus; every other pane and every dock stays as it was. When the id
    /// counter is exhausted nothing is split and focus stays.
    pub proof fn law_split_focused_beside(self, p: Pane)
        requires
            self.wf(),
            self.focused == PanelLocation::Center(p),
            self.grid.panes.contains_key(p),
        ensures
            ({
                let w = self.split_focused();
                let q = Pane((self.grid.last_id + 1) as usize);
                self.grid.last_id + 1 < usize::MAX ==> {
                    &&& !self.grid.panes.contains_key(q)
                    &&& w.grid.layout == self.grid.layout.replace_leaf(
                        p,
                        Node::Split {
                            axis: SplitAxis::Vertical,
                            ratio_bits: HALF_RATIO_BITS,
                            a: Box::new(Node::Pane(p)),
                            b: Box::new(Node::Pane(q)),
                        },
                    )
                    &&& w.grid.panes == self.grid.panes.insert(
                        q,
                        PaneView { tabs: Seq::empty(), active: 0 },
                    )
                    &&& w.focused == PanelLocation::Center(q)
                    &&& w.left == self.left && w.right == self.right && w.bottom == self.bottom
                }
            }),
            self.grid.last_id + 1 >= usize::MAX ==> {
                &&& self.split_focused().grid.layout == self.grid.layout
                &&& self.split_focused().grid.panes == self.grid.panes
                &&& self.split_focused().focused == self.focused
            },
    {
        reveal(model_split_node);
        assert(self.grid.layout.leaves().contains(p));
        let q = Pane((self.grid.last_id + 1) as usize);
        if self.grid.panes.contains_key(q) {
            assert(q.0 <= self.grid.last_id);
        }
    }

    /// The structure every operation keeps: the tree's leaves are exactly
    /// the center panes, without duplicates, ids stay below the counter,
    /// and every tab stack's active index is in range.
    pub open spec fn wf(self) -> bool {
        &&& self.grid.layout.leaves().no_duplicates()
        &&& forall|p: Pane| #[trigger]
            self.grid.layout.leaves().contains(p) <==> self.grid.panes.contains_key(p)
        &&& forall|p: Pane| #[trigger] self.grid.panes.contains_key(p) ==> p.0 <= self.grid.last_id
        &&& self.grid.panes.dom().finite()
        &&& forall|p: Pane| #[trigger] self.grid.panes.contains_key(p) ==> self.grid.panes[p].wf()
        &&& self.left.tabs.wf()
        &&& self.right.tabs.wf()
        &&& self.bottom.tabs.wf()
    }
}

/// Opening the dock on `side`: it becomes open; an empty dock with a
/// registered default surface gets one built into it and takes focus, an
/// empty dock without one stays empty and unfocused, and a dock with tabs
/// takes focus.
pub open spec fn dock_opened<P: Panel>(v: WorkspaceView<P>, s: StoresModel, side: DockSide, w: WorkspaceView<P>, t: StoresModel) -> bool {
    let v1 = v.with_visibility(side, DockVisibility::Open);
    if v.dock(side).tabs.tabs.len() == 0 {
        match v.surface(side) {
            Some(surf) => {
                &&& w.dock(side).tabs.tabs.len() == 1
                &&& P::build_post(surf, s, w.dock(side).tabs.tabs[0], t)
                &&& w == WorkspaceView {
                    focused: PanelLocation::Dock(side),
                    ..v1.with_pane(PanelLocation::Dock(side), PaneView { tabs: w.dock(side).tabs.tabs, active: 0 })
                }
            },
            None => w == v1 && t == s,
        }
    } else {
        w == WorkspaceView { focused: PanelLocation::Dock(side), ..v1 } && t == s
    }
}

/// What happens to a location that may have lost its last tab: an empty
/// center pane is refilled from the scratch surface (and focused) when
/// one is registered, or else closed, its sibling taking focus; an empty
/// dock is hidden, returning focus to the workbench when it had it. A
/// location with tabs, or one that does not exist, is left alone.
pub open spec fn cleaned_up<P: Panel>(v: WorkspaceView<P>, s: StoresModel, location: PanelLocation, w: WorkspaceView<P>, t: StoresModel) -> bool {
    let empty = match v.pane_at(location) {
        Some(pv) => pv.tabs.len() == 0,
        None => false,
    };
    if !empty {
        w == v && t == s
    } else {
        match location {
            PanelLocation::Center(pane) => match v.scratch_surface {
                Some(surf) => {
                    &&& w.pane_at(location) matches Some(pw)
                    &&& pw.tabs.len() == 1
                    &&& pw.active == 0
                    &&& P::build_post(surf, s, pw.tabs[0], t)
                    &&& w == WorkspaceView { focused: location, ..v.with_pane(location, pw) }
                },
                None => {
                    let (g, r) = model_close(v.grid, pane);
                    &&& t == s
                    &&& w == WorkspaceView {
                        grid: g,
                        focused: match r {
                            Some((_, sibling)) => PanelLocation::Center(sibling),
                            None => v.focused,
                        },
                        ..v
                    }
                },
            },
            PanelLocation::Dock(side) => t == s && w == v.dock_set_aside(side, DockVisibility::Hidden),
        }
    }
}

/// Closing tab `tab` at `location` right away: the panel leaves its stack
/// (later tabs shift down, the active index follows), its close hook acts
/// on the stores, and the location is cleaned up. An absent location or
/// tab changes nothing.
pub open spec fn tab_closed<P: Panel>(v: WorkspaceView<P>, s: StoresModel, location: PanelLocation, tab: usize, w: WorkspaceView<P>, t: StoresModel) -> bool {
    match v.pane_at(location) {
        Some(pv) => if tab < pv.tabs.len() {
            let rest = pv.tabs.remove(tab as int);
            let v1 = v.with_pane(
                location,
                PaneView { tabs: rest, active: active_after_remove(pv.active as int, tab as int, rest.len() as int) as usize },
            );
            cleaned_up(v1, pv.tabs[tab as int].closed_stores(s), location, w, t)
        } else {
            w == v && t == s
        },
        None => w == v && t == s,
    }
}

/// A request to close tab `tab` at `location`: a panel that asks for
/// confirmation gets a pending prompt, any other closes right away.
pub open spec fn close_requested<P: Panel>(v: WorkspaceView<P>, s: StoresModel, location: PanelLocation, tab: usize, w: WorkspaceView<P>, t: StoresModel) -> bool {
    match v.pane_at(location) {
        Some(pv) => if tab < pv.tabs.len() && pv.tabs[tab as int].close_prompt_spec() is Some {
            &&& t == s
            &&& w == WorkspaceView {
                close_confirmation: Some(ConfirmView {
                    location,
                    tab,
                    message: pv.tabs[tab as int].close_prompt_spec().unwrap(),
                }),
                ..v
            }
        } else {
            tab_closed(v, s, location, tab, w, t)
        },
        None => w == v && t == s,
    }
}

/// Closing the focused location's active tab.
pub open spec fn active_tab_closed<P: Panel>(v: WorkspaceView<P>, s: StoresModel, w: WorkspaceView<P>, t: StoresModel) -> bool {
    match v.pane_at(v.focused) {
        Some(pv) => close_requested(v, s, v.focused, pv.active, w, t),
        None => w == v && t == s,
    }
}

/// A workspace command. Collapsing acts on an open dock only; a hidden or
/// collapsed dock is left as it is.
pub open spec fn commanded<P: Panel>(v: WorkspaceView<P>, s: StoresModel, command: Command, w: WorkspaceView<P>, t: StoresModel) -> bool {
    match command {
        Command::OpenDock(side) => dock_opened(v, s, side, w, t),
        Command::CollapseDock(side) => t == s && if v.dock(side).visibility == DockVisibility::Open {
            w == v.dock_set_aside(side, DockVisibility::Collapsed)
        } else {
            w == v
        },
        Command::HideDock(side) => w == v.dock_set_aside(side, DockVisibility::Hidden) && t == s,
        Command::SplitFocused => w == v.split_focused() && t == s,
        Command::CloseActiveTab => active_tab_closed(v, s, w, t),
    }
}

/// Placing a dragged `panel` at `target`, given where it came from. A tab
/// strip drop inserts it (an index past the source tab in the same strip
/// counts the removed tab out) and makes it active; an edge drop splits
/// the target pane, the panel's new pane going first for left/up (the
/// target pane keeps focus) and second for right/down (the new pane takes
/// focus); a dock drop appends it, opens and focuses the dock; a drop
/// outside every zone queues it for a new window. The panel comes back
/// when the strip's location or the split target does not exist.
pub open spec fn committed<P: Panel>(
    v: WorkspaceView<P>,
    target: DropTarget,
    source: Option<(PanelLocation, usize)>,
    panel: P,
) -> (WorkspaceView<P>, Option<P>) {
    match target {
        DropTarget::TabStrip(st) => {
            let insert_at: int = match source {
                Some((l, t)) => if l == st.location && t < st.index { st.index - 1 } else { st.index as int },
                None => st.index as int,
            };
            match v.pane_at(st.location) {
                None => (v, Some(panel)),
                Some(pv) => {
                    let at: int = if insert_at < pv.tabs.len() { insert_at } else { pv.tabs.len() as int };
                    (
                        WorkspaceView {
                            focused: st.location,
                            ..v.with_pane(st.location, PaneView { tabs: pv.tabs.insert(at, panel), active: at as usize })
                        },
                        None,
                    )
                },
            }
        },
        DropTarget::SplitPane(sp) => {
            let (g, r) = model_split_node(v.grid, direction_axis(sp.direction), Some(sp.pane), empty_pane(), false);
            match r {
                None => (WorkspaceView { grid: g, ..v }, Some(panel)),
                Some(np) => {
                    let g1 = GridModel { panes: g.panes.insert(np, PaneView { tabs: seq![panel], active: 0 }), ..g };
                    let g2 = if direction_leads(sp.direction) { model_swap(g1, np, sp.pane) } else { g1 };
                    (
                        WorkspaceView {
                            grid: g2,
                            focused: PanelLocation::Center(if direction_leads(sp.direction) { sp.pane } else { np }),
                            ..v
                        },
                        None,
                    )
                },
            }
        },
        DropTarget::Dock(side) => {
            let d = v.dock(side);
            (
                WorkspaceView {
                    focused: PanelLocation::Dock(side),
                    ..v.with_dock(
                        side,
                        DockView {
                            tabs: PaneView { tabs: d.tabs.tabs.push(panel), active: d.tabs.tabs.len() as usize },
                            visibility: DockVisibility::Open,
                            ..d
                        },
                    )
                },
                None,
            )
        },
        DropTarget::Nowhere => (WorkspaceView { torn_off_panel: Some(panel), ..v }, None),
    }
}

/// A tab dropped on an edge of a center pane splits that pane in two
/// halves, across the edge: a left or right edge splits it vertically, a
/// top or bottom edge horizontally. The dropped panel gets a new pane of
/// its own on the side of the edge it was dropped on: first (left, above)
/// for a left or top edge, and the target pane keeps focus; second (right,
/// below) for a right or bottom edge, and the new pane takes focus. No
/// other pane or dock changes, and the panel is not handed back.
pub proof fn law_edge_drop_side<P: Panel>(
    v: WorkspaceView<P>,
    t: Pane,
    d: Direction,
    source: Option<(PanelLocation, usize)>,
    panel: P,
)
    requires
        v.wf(),
        v.grid.panes.contains_key(t),
        v.grid.last_id + 1 < usize::MAX,
    ensures
        ({
            let (w, back) = committed(
                v,
                DropTarget::SplitPane(SplitPaneTarget { pane: t, direction: d }),
                source,
                panel,
            );
            let q = Pane((v.grid.last_id + 1) as usize);
            let axis = if d is Left || d is Right {
                SplitAxis::Vertical
            } else {
                SplitAxis::Horizontal
            };
            &&& back is None
            &&& !v.grid.panes.contains_key(q)
            &&& w.grid.panes == v.grid.panes.insert(q, PaneView { tabs: seq![panel], active: 0 })
            &&& w.left == v.left && w.right == v.right && w.bottom == v.bottom
            &&& (d is Left || d is Up) ==> {
                &&& w.grid.layout == v.grid.layout.replace_leaf(
                    t,
                    Node::Split {
                        axis,
                        ratio_bits: HALF_RATIO_BITS,
                        a: Box::new(Node::Pane(q)),
                        b: Box::new(Node::Pane(t)),
                    },
                )
                &&& w.focused == PanelLocation::Center(t)
            }
            &&& (d is Right || d is Down) ==> {
                &&& w.grid.layout == v.grid.layout.replace_leaf(
                    t,
                    Node::Split {
                        axis,
                        ratio_bits: HALF_RATIO_BITS,
                        a: Box::new(Node::Pane(t)),
                        b: Box::new(Node::Pane(q)),
                    },
                )
                &&& w.focused == PanelLocation::Center(q)
            }
        }),
{
    reveal(model_split_node);
    reveal(model_swap);
    assert(v.grid.layout.leaves().contains(t));
    let q = Pane((v.grid.last_id + 1) as usize);
    if v.grid.panes.contains_key(q) {
        assert(q.0 <= v.grid.last_id);
    }
    assert(!v.grid.layout.leaves().contains(q));
    let axis = direction_axis(d);
    let with = Node::Split {
        axis,
        ratio_bits: HALF_RATIO_BITS,
        a: Box::new(Node::Pane(t)),
        b: Box::new(Node::Pane(q)),
    };
    lemma_replace_then_swap(v.grid.layout, t, q, with);
    assert(q != t);
    assert(swapped(t, q, t) == q);
    assert(swapped(q, q, t) == t);
    assert(Node::Pane(t).swap_leaves(q, t) == Node::Pane(q));
    assert(Node::Pane(q).swap_leaves(q, t) == Node::Pane(t));
    let target = DropTarget::SplitPane(SplitPaneTarget { pane: t, direction: d });
    let (g, r) = model_split_node(v.grid, axis, Some(t), empty_pane::<P>(), false);
    assert(r == Some(q));
    assert(g.layout == v.grid.layout.replace_leaf(t, with));
    let g1 = GridModel { panes: g.panes.insert(q, PaneView { tabs: seq![panel], active: 0 }), ..g };
    assert(g1.panes =~= v.grid.panes.insert(q, PaneView { tabs: seq![panel], active: 0 }));
    let (w, back) = committed(v, target, source, panel);
    assert(back is None);
    assert(w.grid.panes == g1.panes);
    if direction_leads(d) {
        assert(w.grid.layout == g1.layout.swap_leaves(q, t));
        assert(with.swap_leaves(q, t) == Node::Split {
            axis,
            ratio_bits: HALF_RATIO_BITS,
            a: Box::new(Node::Pane(q)),
            b: Box::new(Node::Pane(t)),
        });
    } else {
        assert(w.grid == g1);
    }
}

/// A panel put back at `tab` (clamped to the end) of the stack at
/// `source`, active; nothing when the location is gone.
pub open spec fn restored_at<P: Panel>(v: WorkspaceView<P>, source: PanelLocation, tab: usize, panel: P) -> WorkspaceView<P> {
    match v.pane_at(source) {
        Some(pv) => {
            let at: int = if tab < pv.tabs.len() { tab as int } else { pv.tabs.len() as int };
            v.with_pane(source, PaneView { tabs: pv.tabs.insert(at, panel), active: at as usize })
        },
        None => v,
    }
}

/// The tab at `tab` of `location` taken out for a drag: the stack keeps
/// its active index, clamped to the last tab.
pub open spec fn tab_taken<P: Panel>(v: WorkspaceView<P>, location: PanelLocation, tab: usize) -> (WorkspaceView<P>, Option<P>) {
    match v.pane_at(location) {
        Some(pv) => if tab < pv.tabs.len() {
            let rest = pv.tabs.remove(tab as int);
            (
                v.with_pane(
                    location,
                    PaneView {
                        tabs: rest,
                        active: if pv.active >= rest.len() && rest.len() > 0 { (rest.len() - 1) as usize } else { pv.active },
                    },
                ),
                Some(pv.tabs[tab as int]),
            )
        } else {
            (v, None)
        },
        None => (v, None),
    }
}

/// A finished tab drag: without a target and without movement it is a
/// click that selects the tab; otherwise the tab leaves its stack and is
/// placed at the target, going back to where it was when it cannot be
/// placed, and the source is tidied when it was emptied.
pub open spec fn drag_applied<P: Panel>(v: WorkspaceView<P>, s: StoresModel, drag: DragState, w: WorkspaceView<P>, t: StoresModel) -> bool {
    if drag.target is Nowhere && !drag.pointer_moved {
        w == v.tab_selected(drag.source_location, drag.source_tab) && t == s
    } else {
        let (v1, taken) = tab_taken(v, drag.source_location, drag.source_tab);
        match taken {
            None => w == v && t == s,
            Some(panel) => {
                let (v2, back) = committed(v1, drag.target, Some((drag.source_location, drag.source_tab)), panel);
                match back {
                    Some(p) => w == restored_at(v2, drag.source_location, drag.source_tab, p) && t == s,
                    None => cleaned_up(v2, s, drag.source_location, w, t),
                }
            },
        }
    }
}

/// A panel message delivered to tab `tab` at `location`: the panel acts
/// as it states; a stale location or tab changes nothing.
pub open spec fn panel_routed<P: Panel>(v: WorkspaceView<P>, s: StoresModel, location: PanelLocation, tab: usize, message: P::Message, w: WorkspaceView<P>, t: StoresModel) -> bool {
    match v.pane_at(location) {
        Some(pv) => if tab < pv.tabs.len() {
            exists|q: P| #[trigger] P::update_post(pv.tabs[tab as int], message, s, q, t)
                && w == v.with_pane(location, PaneView { tabs: pv.tabs.update(tab as int, q), ..pv })
        } else {
            w == v && t == s
        },
        None => w == v && t == s,
    }
}

/// A chord: the focused active panel may swallow it; otherwise the
/// keymap's command for it runs, and an unbound chord changes nothing.
pub open spec fn keyed<P: Panel>(v: WorkspaceView<P>, s: StoresModel, chord: Chord, w: WorkspaceView<P>, t: StoresModel) -> bool {
    let captured = match v.pane_at(v.focused) {
        Some(pv) => pv.active < pv.tabs.len() && pv.tabs[pv.active as int].captures_spec(chord),
        None => false,
    };
    if captured {
        w == v && t == s
    } else {
        match binding_of(v.keymap, chord) {
            Some(command) => commanded(v, s, command, w, t),
            None => w == v && t == s,
        }
    }
}

/// The grid after a whole-pane drop; a center drop where only one of the
/// two panes exists changes nothing.
pub open spec fn grid_dropped<T>(g: GridModel<T>, pane: Pane, target: PaneDropTarget) -> GridModel<T> {
    if target matches PaneDropTarget::Pane(t, crate::workspace::workspace_pane_grid::Region::Center)
        && g.panes.contains_key(pane) != g.panes.contains_key(t) {
        g
    } else {
        model_drop(g, pane, target)
    }
}

/// The palette closed and cleared.
pub open spec fn palette_dismissed<P: Panel>(v: WorkspaceView<P>) -> WorkspaceView<P> {
    WorkspaceView {
        palette_open: false,
        palette_query: Seq::empty(),
        palette_results: Seq::empty(),
        palette_selected: 0,
        ..v
    }
}

/// The command a click on palette row `index` picks: the row, clamped to
/// the last result; none when there are no results.
pub open spec fn palette_pick<P: Panel>(v: WorkspaceView<P>, index: usize) -> Option<CommandId> {
    if v.palette_results.len() == 0 {
        None
    } else if index < v.palette_results.len() {
        Some(v.palette_results[index as int].1)
    } else {
        Some(v.palette_results[v.palette_results.len() - 1].1)
    }
}

/// Running a palette command: workspace commands run as commands, the
/// theme toggles, and a new window is left to the application root.
pub open spec fn palette_ran<P: Panel>(v: WorkspaceView<P>, s: StoresModel, id: CommandId, w: WorkspaceView<P>, t: StoresModel) -> bool {
    match id {
        CommandId::OpenDock(side) => commanded(v, s, Command::OpenDock(side), w, t),
        CommandId::CollapseDock(side) => commanded(v, s, Command::CollapseDock(side), w, t),
        CommandId::HideDock(side) => commanded(v, s, Command::HideDock(side), w, t),
        CommandId::SplitFocused => commanded(v, s, Command::SplitFocused, w, t),
        CommandId::CloseActiveTab => commanded(v, s, Command::CloseActiveTab, w, t),
        CommandId::ToggleTheme => w == v.theme_toggled() && t == s,
        CommandId::NewWindow => w == (WorkspaceView { pending_app_command: Some(CommandId::NewWindow), ..v }) && t == s,
    }
}

/// The reducer. While a close confirmation is pending only its answer
/// (discard closes the stored tab, cancel drops the prompt) and window
/// resizes get through; everything else is ignored.
pub open spec fn updated_by<P: Panel>(v: WorkspaceView<P>, s: StoresModel, message: WorkspaceMessage<P::Message>, w: WorkspaceView<P>, t: StoresModel) -> bool {
    if v.close_confirmation is Some {
        let c = v.close_confirmation.unwrap();
        let v0 = WorkspaceView { close_confirmation: None, ..v };
        match message {
            WorkspaceMessage::ConfirmCloseDiscard { .. } => tab_closed(v0, s, c.location, c.tab, w, t),
            WorkspaceMessage::ConfirmCloseCancel => w == v0 && t == s,
            WorkspaceMessage::WindowResized(size) => w == (WorkspaceView { window_size: size, ..v }) && t == s,
            _ => w == v && t == s,
        }
    } else {
        match message {
            WorkspaceMessage::Panel { location, tab, message } => panel_routed(v, s, location, tab, message, w, t),
            WorkspaceMessage::TabSelected { location, tab } => w == v.tab_selected(location, tab) && t == s,
            WorkspaceMessage::TabHoverChanged { location } => w == (WorkspaceView { hovered_tab: location, ..v }) && t == s,
            WorkspaceMessage::TabCloseRequested { location, tab } => close_requested(v, s, location, tab, w, t),
            WorkspaceMessage::PaneClicked(pane) => w == (WorkspaceView { focused: PanelLocation::Center(pane), ..v }) && t == s,
            WorkspaceMessage::DockFocused(location) => w == v.dock_focused(location) && t == s,
            WorkspaceMessage::Key(chord) => keyed(v, s, chord, w, t),
            WorkspaceMessage::Command(command) => commanded(v, s, command, w, t),
            WorkspaceMessage::TogglePalette => t == s && w == (if v.palette_open {
                palette_dismissed(v)
            } else {
                WorkspaceView {
                    palette_open: true,
                    palette_results: palette_results(v.all_commands, v.palette_query),
                    palette_selected: 0,
                    ..v
                }
            }),
            WorkspaceMessage::PaletteQueryChanged(q) => t == s && w == (WorkspaceView {
                palette_query: q@,
                palette_results: palette_results(v.all_commands, q@),
                palette_selected: 0,
                ..v
            }),
            WorkspaceMessage::PaletteItemClicked(index) => match palette_pick(v, index) {
                Some(id) => palette_ran(palette_dismissed(v), s, id, w, t),
                None => w == palette_dismissed(v) && t == s,
            },
            WorkspaceMessage::ToggleTheme => w == v.theme_toggled() && t == s,
            WorkspaceMessage::NewWindow => w == v && t == s,
            WorkspaceMessage::PaneDropped { pane, target } => t == s && w == (WorkspaceView {
                grid: grid_dropped(v.grid, pane, target),
                focused: PanelLocation::Center(pane),
                ..v
            }),
            WorkspaceMessage::TabDragStarted { location, tab } => t == s && w == (WorkspaceView {
                drag_state: Some(DragState {
                    source_location: location,
                    source_tab: tab,
                    target: DropTarget::Nowhere,
                    target_window: None,
                    cursor_window: None,
                    cursor: PointBits { x_bits: 0, y_bits: 0 },
                    pointer_moved: false,
                }),
                ..v
            }),
            WorkspaceMessage::CursorMoved { cursor, target } => t == s && w == (match v.drag_state {
                Some(d) => WorkspaceView { drag_state: Some(DragState { pointer_moved: true, cursor, target, ..d }), ..v },
                None => v,
            }),
            WorkspaceMessage::TabDragDropped => match v.drag_state {
                Some(d) => drag_applied(WorkspaceView { drag_state: None, ..v }, s, d, w, t),
                None => w == v && t == s,
            },
            WorkspaceMessage::WindowResized(size) => w == (WorkspaceView { window_size: size, ..v }) && t == s,
            WorkspaceMessage::ConfirmCloseDiscard { location, tab } => tab_closed(v, s, location, tab, w, t),
            WorkspaceMessage::ConfirmCloseCancel => w == v && t == s,
        }
    }
}

/// After a restore, an open dock without tabs gets its default surface
/// built into it, or is hidden when it has none; any other dock is left
/// alone.
pub open spec fn dock_populated<P: Panel>(v: WorkspaceView<P>, s: StoresModel, side: DockSide, w: WorkspaceView<P>, t: StoresModel) -> bool {
    let d = v.dock(side);
    if d.visibility == DockVisibility::Open && d.tabs.tabs.len() == 0 {
        match v.surface(side) {
            Some(surf) => {
                &&& w.dock(side).tabs.tabs.len() == 1
                &&& P::build_post(surf, s, w.dock(side).tabs.tabs[0], t)
                &&& w == v.with_pane(PanelLocation::Dock(side), PaneView { tabs: w.dock(side).tabs.tabs, active: 0 })
            },
            None => w == v.with_visibility(side, DockVisibility::Hidden) && t == s,
        }
    } else {
        w == v && t == s
    }
}

/// One pane of a scratch fallback pass: an empty center pane is refilled
/// from the scratch surface and focused; anything else is left alone.
pub open spec fn scratch_step<P: Panel>(v: WorkspaceView<P>, s: StoresModel, pane: Pane, w: WorkspaceView<P>, t: StoresModel) -> bool {
    let location = PanelLocation::Center(pane);
    let empty = match v.pane_at(location) {
        Some(pv) => pv.tabs.len() == 0,
        None => false,
    };
    if empty && v.scratch_surface is Some {
        &&& w.pane_at(location) matches Some(pw)
        &&& pw.tabs.len() == 1
        &&& pw.active == 0
        &&& P::build_post(v.scratch_surface.unwrap(), s, pw.tabs[0], t)
        &&& w == WorkspaceView { focused: location, ..v.with_pane(location, pw) }
    } else {
        w == v && t == s
    }
}

/// A scratch fallback pass over `panes`, in order: `trace` holds the view
/// and stores before each pane and after the last.
pub open spec fn scratch_trace<P: Panel>(trace: Seq<(WorkspaceView<P>, StoresModel)>, panes: Seq<Pane>) -> bool {
    &&& trace.len() == panes.len() + 1
    &&& forall|i: int|
        0 <= i < panes.len() ==> scratch_step(trace[i].0, trace[i].1, #[trigger] panes[i], trace[i + 1].0, trace[i + 1].1)
}

/// The center panes of `v` in ascending id order.
pub open spec fn pane_order<P: Panel>(v: WorkspaceView<P>) -> Seq<Pane> {
    choose|order: Seq<Pane>| ascending_panes(v, order)
}

/// The dirty tabs of a window in collection order: center panes by
/// ascending id, then the left, right and bottom docks.
pub open spec fn window_dirty<P: Panel>(v: WorkspaceView<P>) -> Seq<(PanelLocation, usize, Seq<char>, Seq<char>)> {
    dirty_panels(v, pane_order(v))
}

/// Two strictly increasing runs of the same panes are the same run.
pub proof fn lemma_increasing_unique(a: Seq<Pane>, b: Seq<Pane>)
    requires
        forall|i: int, j: int| 0 <= i < j < a.len() ==> (#[trigger] a[i]).0 < (#[trigger] a[j]).0,
        forall|i: int, j: int| 0 <= i < j < b.len() ==> (#[trigger] b[i]).0 < (#[trigger] b[j]).0,
        forall|p: Pane| #[trigger] a.contains(p) <==> b.contains(p),
    ensures
        a == b,
    decreases a.len(),
{
    if a.len() == 0 {
        if b.len() > 0 {
            assert(b.contains(b[0]));
            assert(a.contains(b[0]));
            assert(false);
        }
        assert(a =~= b);
    } else {
        assert(a.contains(a[0]));
        assert(b.contains(a[0]));
        let j = choose|j: int| 0 <= j < b.len() && b[j] == a[0];
        assert(b.contains(b[0]));
        assert(a.contains(b[0]));
        let k = choose|k: int| 0 <= k < a.len() && a[k] == b[0];
        if j > 0 {
            assert(b[0].0 < b[j].0);
            if k > 0 {
                assert(a[0].0 < a[k].0);
            }
            assert(false);
        }
        let a1 = a.drop_first();
        let b1 = b.drop_first();
        assert forall|p: Pane| #[trigger] a1.contains(p) <==> b1.contains(p) by {
            if a1.contains(p) {
                let i = choose|i: int| 0 <= i < a1.len() && a1[i] == p;
                assert(a[i + 1] == p);
                assert(a[0].0 < a[i + 1].0);
                assert(a.contains(p));
                assert(b.contains(p));
                let m = choose|m: int| 0 <= m < b.len() && b[m] == p;
                assert(m != 0);
                assert(b1[m - 1] == p);
            }
            if b1.contains(p) {
                let i = choose|i: int| 0 <= i < b1.len() && b1[i] == p;
                assert(b[i + 1] == p);
                assert(b[0].0 < b[i + 1].0);
                assert(b.contains(p));
                assert(a.contains(p));
                let m = choose|m: int| 0 <= m < a.len() && a[m] == p;
                assert(m != 0);
                assert(a1[m - 1] == p);
            }
        }
        lemma_increasing_unique(a1, b1);
        assert(a =~= b) by {
            assert forall|i: int| 0 <= i < a.len() implies a[i] == b[i] by {
                if i > 0 {
                    assert(a[i] == a1[i - 1]);
                    assert(b[i] == b1[i - 1]);
                }
            }
        }
    }
}

/// Discarding the listed tabs, last first: `trace` holds the view and
/// stores before each close and after the last.
pub open spec fn discard_trace<P: Panel>(trace: Seq<(WorkspaceView<P>, StoresModel)>, ds: Seq<(PanelLocation, usize, Seq<char>, Seq<char>)>) -> bool {
    let n = ds.len();
    &&& trace.len() == n + 1
    &&& forall|i: int|
        0 <= i < n ==> tab_closed(trace[i].0, trace[i].1, #[trigger] ds[n - 1 - i].0, ds[n - 1 - i].1, trace[i + 1].0, trace[i + 1].1)
}

/// The left, right and bottom docks populated in turn.
pub open spec fn docks_populated<P: Panel>(v: WorkspaceView<P>, s: StoresModel, w: WorkspaceView<P>, t: StoresModel) -> bool {
    exists|v1: WorkspaceView<P>, s1: StoresModel, v2: WorkspaceView<P>, s2: StoresModel|
        #[trigger] dock_populated(v, s, DockSide::Left, v1, s1)
        && #[trigger] dock_populated(v1, s1, DockSide::Right, v2, s2)
        && dock_populated(v2, s2, DockSide::Bottom, w, t)
}

/// A scratch fallback pass over every center pane of `v`, by ascending
/// id, leaving `w` and stores `t`.
pub open spec fn scratch_fallback<P: Panel>(v: WorkspaceView<P>, s: StoresModel, w: WorkspaceView<P>, t: StoresModel) -> bool {
    exists|ids: Seq<Pane>, trace: Seq<(WorkspaceView<P>, StoresModel)>| {
        &&& ids.no_duplicates()
        &&& (forall|p: Pane| #[trigger] ids.contains(p) <==> v.grid.panes.contains_key(p))
        &&& (forall|i: int, j: int| 0 <= i < j < ids.len() ==> (#[trigger] ids[i]).0 < (#[trigger] ids[j]).0)
        &&& #[trigger] scratch_trace(trace, ids)
        &&& trace[0] == (v, s)
        &&& trace.last() == (w, t)
    }
}

/// Facts about replacing tab stacks in a view.
pub proof fn lemma_with_pane<P: Panel>(v: WorkspaceView<P>, location: PanelLocation, a: PaneView<P>, b: PaneView<P>)
    ensures
        v.with_pane(location, a).with_pane(location, b) == v.with_pane(location, b),
        v.pane_at(location) is Some ==> v.with_pane(location, v.pane_at(location).unwrap()) == v,
        v.pane_at(location) is Some ==> v.with_pane(location, a).pane_at(location) == Some(a),
{
    match location {
        PanelLocation::Center(p) => {
            assert(v.grid.panes.insert(p, a).insert(p, b) =~= v.grid.panes.insert(p, b));
            if v.grid.panes.contains_key(p) {
                assert(v.grid.panes.insert(p, v.grid.panes[p]) =~= v.grid.panes);
            }
        },
        PanelLocation::Dock(side) => {},
    }
}

/// Per-window workspace shell state.
pub struct Workspace<P: Panel> {
    /// The split tree of center panes and their tab stacks.
    pub panes: PaneGrid<PaneState<P>>,
    /// The edge docks.
    pub docks: Docks<P>,
    /// Chord-to-command bindings.
    pub keymap: Keymap,
    /// The one focused location.
    pub focused: PanelLocation,
    pub theme: OpenZoneTheme,
    pub theme_mode: ThemeMode,
    /// The active tab drag, while the user drags a tab.
    pub drag_state: Option<DragState>,
    /// The latest window size, carried for hit testing.
    pub window_size: SizeBits,
    /// Drop preview while another window's tab hovers over this one.
    pub cross_window_drop_preview: Option<CrossWindowDropPreview>,
    /// A panel waiting for a new window after a tear-off drop.
    pub(crate) torn_off_panel: Option<P>,
    /// What refills a center pane that lost its last tab.
    pub(crate) scratch_surface: Option<P::Surface>,
    /// The default surfaces of the three docks.
    pub(crate) left_surface: Option<P::Surface>,
    pub(crate) right_surface: Option<P::Surface>,
    pub(crate) bottom_surface: Option<P::Surface>,
    /// A pending close confirmation for a dirty tab.
    pub close_confirmation: Option<CloseConfirmation>,
    /// The command palette.
    pub palette: PaletteState,
    /// The palette's catalog.
    pub all_commands: Vec<CommandItem>,
    /// A palette command the application root must carry out.
    pub pending_app_command: Option<CommandId>,
    /// The tab under the pointer.
    pub hovered_tab: Option<(PanelLocation, usize)>,
}

impl<P: Panel> View for Workspace<P> {
    type V = WorkspaceView<P>;

    closed spec fn view(&self) -> WorkspaceView<P> {
        WorkspaceView {
            grid: map_grid(self.panes.model(), |ps: PaneState<P>| ps@),
            left: dock_view(self.docks.left),
            right: dock_view(self.docks.right),
            bottom: dock_view(self.docks.bottom),
            keymap: self.keymap.bindings(),
            focused: self.focused,
            theme: self.theme,
            theme_mode: self.theme_mode,
            drag_state: self.drag_state,
            window_size: self.window_size,
            cross_window_drop_preview: self.cross_window_drop_preview,
            torn_off_panel: self.torn_off_panel,
            scratch_surface: self.scratch_surface,
            left_surface: self.left_surface,
            right_surface: self.right_surface,
            bottom_surface: self.bottom_surface,
            close_confirmation: match self.close_confirmation {
                Some(c) => Some(c.view()),
                None => None,
            },
            palette_open: self.palette.open,
            palette_query: self.palette.query@,
            palette_results: self.palette.results(),
            palette_selected: self.palette.selected,
            all_commands: item_views(self.all_commands@),
            pending_app_command: self.pending_app_command,
            hovered_tab: self.hovered_tab,
        }
    }
}

impl<P: Panel> Workspace<P> {
    /// The split tree, docks and keymap are well formed and every tab
    /// stack's active index is in range.
    pub closed spec fn wf(&self) -> bool {
        &&& self.panes.wf()
        &&& self.docks.wf()
        &&& self.keymap.wf()
        &&& forall|p: Pane| #[trigger]
            self.panes.model().panes.contains_key(p) ==> self.panes.model().panes[p].wf()
    }

    /// How the view is made of the fields.
    pub(crate) proof fn lemma_view_parts(&self)
        requires
            self.wf(),
        ensures
            self.panes.wf(),
            self@.grid == crate::workspace::workspace_pane_grid::map_grid(self.panes.model(), |ps: PaneState<P>| ps@),
            self@.grid.panes == self.panes.model().panes.map_values(|ps: PaneState<P>| ps@),
            self@.grid.layout == self.panes.model().layout,
            self@.left == dock_view(self.docks.left),
            self@.right == dock_view(self.docks.right),
            self@.bottom == dock_view(self.docks.bottom),
            self@.focused == self.focused,
            self@.palette_open == self.palette.open,
            (self@.close_confirmation is Some) == (self.close_confirmation is Some),
            self@.drag_state == self.drag_state,
            self@.hovered_tab == self.hovered_tab,
            self@.cross_window_drop_preview == self.cross_window_drop_preview,
            self@.theme == self.theme,
            self.panes.model().layout.leaves().no_duplicates(),
            forall|q: Pane| #[trigger] self.panes.model().layout.leaves().contains(q) ==> self.panes.model().panes.contains_key(q),
    {
        self.panes.lemma_wf();
    }

    /// A well-formed workspace has a well-formed view.
    pub proof fn lemma_wf(&self)
        requires
            self.wf(),
        ensures
            self@.wf(),
    {
        self.panes.lemma_wf();
        let m = self.panes.model();
        let v = self@;
        assert(v.grid.panes.dom() =~= m.panes.dom());
        assert forall|p: Pane| #[trigger] v.grid.panes.contains_key(p) implies v.grid.panes[p].wf() by {
            assert(m.panes.contains_key(p));
            assert(v.grid.panes[p] == m.panes[p]@);
        }
    }
}


/// The theme every new workspace starts with for a mode.
pub open spec fn theme_of(mode: ThemeMode) -> OpenZoneTheme {
    OpenZoneTheme { mode }
}

/// A workspace at rest in theme mode `mode`: the shipped keymap, the mode's
/// theme, no drag, preview, torn-off tab, close prompt, pending root
/// command or hovered tab, and a closed, empty palette.
pub open spec fn at_rest<P: Panel>(w: WorkspaceView<P>, mode: ThemeMode) -> bool {
    &&& forall|c: Chord| #[trigger] binding_of(w.keymap, c) == crate::workspace::workspace_command::shipped_binding(c)
    &&& w.theme == theme_of(mode)
    &&& w.theme_mode == mode
    &&& w.drag_state is None
    &&& w.cross_window_drop_preview is None
    &&& w.torn_off_panel is None
    &&& w.close_confirmation is None
    &&& !w.palette_open && w.palette_query.len() == 0 && w.palette_results.len() == 0 && w.palette_selected == 0
    &&& w.pending_app_command is None
    &&& w.hovered_tab is None
}

/// `w` agrees with `v` on everything [`at_rest`] speaks of.
pub open spec fn same_rest<P: Panel>(v: WorkspaceView<P>, w: WorkspaceView<P>) -> bool {
    &&& w.keymap == v.keymap
    &&& w.theme == v.theme
    &&& w.theme_mode == v.theme_mode
    &&& w.drag_state == v.drag_state
    &&& w.cross_window_drop_preview == v.cross_window_drop_preview
    &&& w.torn_off_panel == v.torn_off_panel
    &&& w.close_confirmation == v.close_confirmation
    &&& w.palette_open == v.palette_open && w.palette_query == v.palette_query
    &&& w.palette_results == v.palette_results && w.palette_selected == v.palette_selected
    &&& w.pending_app_command == v.pending_app_command
    &&& w.hovered_tab == v.hovered_tab
}

/// While a close prompt is pending, every message but discard, cancel and a
/// window resize leaves the workspace and the stores as they were.
pub proof fn law_prompt_blocks<P: Panel>(
    v: WorkspaceView<P>,
    s: StoresModel,
    message: WorkspaceMessage<P::Message>,
    w: WorkspaceView<P>,
    t: StoresModel,
)
    requires
        v.close_confirmation is Some,
        !(message is ConfirmCloseDiscard),
        !(message is ConfirmCloseCancel),
        !(message is WindowResized),
        updated_by(v, s, message, w, t),
    ensures
        w == v,
        t == s,
{
}

/// Agreeing on the rest is kept along a chain, and a workspace at rest
/// stays at rest.
pub proof fn lemma_same_rest<P: Panel>(u: WorkspaceView<P>, v: WorkspaceView<P>, w: WorkspaceView<P>, mode: ThemeMode)
    ensures
        same_rest(u, v) && same_rest(v, w) ==> same_rest(u, w),
        at_rest(u, mode) && same_rest(u, v) ==> at_rest(v, mode),
{
}

/// A scratch fallback pass changes nothing [`at_rest`] speaks of.
pub proof fn lemma_fallback_rest<P: Panel>(v: WorkspaceView<P>, s: StoresModel, w: WorkspaceView<P>, t: StoresModel)
    requires
        scratch_fallback(v, s, w, t),
    ensures
        same_rest(v, w),
{
    let (ids, trace) = choose|ids: Seq<Pane>, trace: Seq<(WorkspaceView<P>, StoresModel)>| {
        &&& ids.no_duplicates()
        &&& (forall|p: Pane| #[trigger] ids.contains(p) <==> v.grid.panes.contains_key(p))
        &&& (forall|i: int, j: int| 0 <= i < j < ids.len() ==> (#[trigger] ids[i]).0 < (#[trigger] ids[j]).0)
        &&& #[trigger] scratch_trace(trace, ids)
        &&& trace[0] == (v, s)
        &&& trace.last() == (w, t)
    };
    lemma_trace_rest(trace, ids);
}

proof fn lemma_trace_rest<P: Panel>(trace: Seq<(WorkspaceView<P>, StoresModel)>, panes: Seq<Pane>)
    requires
        scratch_trace(trace, panes),
    ensures
        same_rest(trace[0].0, trace.last().0),
    decreases panes.len(),
{
    if panes.len() > 0 {
        let n = panes.len() as int;
        let t0 = trace.drop_last();
        let p0 = panes.drop_last();
        assert forall|i: int| 0 <= i < p0.len() implies scratch_step(t0[i].0, t0[i].1, #[trigger] p0[i], t0[i + 1].0, t0[i + 1].1) by {
            assert(scratch_step(trace[i].0, trace[i].1, panes[i], trace[i + 1].0, trace[i + 1].1));
        }
        lemma_trace_rest(t0, p0);
        assert(scratch_step(trace[n - 1].0, trace[n - 1].1, panes[n - 1], trace[n].0, trace[n].1));
        lemma_same_rest(trace[0].0, trace[n - 1].0, trace[n].0, ThemeMode::Dark);
    }
}

/// Populating empty open docks changes nothing [`at_rest`] speaks of.
pub proof fn lemma_populated_rest<P: Panel>(v: WorkspaceView<P>, s: StoresModel, w: WorkspaceView<P>, t: StoresModel)
    requires
        docks_populated(v, s, w, t),
    ensures
        same_rest(v, w),
{
    let (v1, s1, v2, s2) = choose|v1: WorkspaceView<P>, s1: StoresModel, v2: WorkspaceView<P>, s2: StoresModel|
        #[trigger] dock_populated(v, s, DockSide::Left, v1, s1)
        && #[trigger] dock_populated(v1, s1, DockSide::Right, v2, s2)
        && dock_populated(v2, s2, DockSide::Bottom, w, t);
    assert(same_rest(v, v1));
    assert(same_rest(v1, v2));
    assert(same_rest(v2, w));
    lemma_same_rest(v, v1, v2, ThemeMode::Dark);
    lemma_same_rest(v, v2, w, ThemeMode::Dark);
}

impl<P: Panel> Workspace<P> {
    /// A workspace whose center is one pane holding `center` (the focused
    /// pane, `Pane(0)`), framed by `docks`, with the shipped keymap.
    pub fn with_docks(center: PaneState<P>, docks: Docks<P>, theme_mode: ThemeMode) -> (r: Self)
        requires
            center.wf(),
            docks.wf(),
        ensures
            r.wf(),
            r@.grid.layout == crate::workspace::workspace_pane_grid::Node::Pane(Pane(0)),
            r@.grid.panes == Map::<Pane, PaneView<P>>::empty().insert(Pane(0), center@),
            r@.grid.last_id == 1,
            r@.left == dock_view(docks.left),
            r@.right == dock_view(docks.right),
            r@.bottom == dock_view(docks.bottom),
            forall|c: Chord| #[trigger] binding_of(r@.keymap, c) == crate::workspace::workspace_command::shipped_binding(c),
            r@.focused == PanelLocation::Center(Pane(0)),
            r@.theme == theme_of(theme_mode),
            r@.theme_mode == theme_mode,
            r@.drag_state is None,
            r@.window_size == (SizeBits { width_bits: DEFAULT_WINDOW_WIDTH_BITS, height_bits: DEFAULT_WINDOW_HEIGHT_BITS }),
            r@.cross_window_drop_preview is None,
            r@.torn_off_panel is None,
            r@.scratch_surface is None,
            r@.left_surface is None && r@.right_surface is None && r@.bottom_surface is None,
            r@.close_confirmation is None,
            !r@.palette_open && r@.palette_query.len() == 0 && r@.palette_results.len() == 0 && r@.palette_selected == 0,
            r@.all_commands.len() == 0,
            r@.pending_app_command is None,
            r@.hovered_tab is None,
    {
        let (panes, first) = PaneGrid::new(center);
        let keymap = Keymap::default();
        let ws = Workspace {
            panes,
            docks,
            keymap,
            focused: PanelLocation::Center(first),
            theme: OpenZoneTheme::from_mode(theme_mode),
            theme_mode,
            drag_state: None,
            window_size: SizeBits { width_bits: DEFAULT_WINDOW_WIDTH_BITS, height_bits: DEFAULT_WINDOW_HEIGHT_BITS },
            cross_window_drop_preview: None,
            torn_off_panel: None,
            scratch_surface: None,
            left_surface: None,
            right_surface: None,
            bottom_surface: None,
            close_confirmation: None,
            palette: PaletteState::new(),
            all_commands: Vec::new(),
            pending_app_command: None,
            hovered_tab: None,
        };
        proof {
            let m = ws.panes.model();
            assert(m.panes.map_values(|ps: PaneState<P>| ps@) =~= Map::<Pane, PaneView<P>>::empty().insert(Pane(0), center@));
            assert(item_views(ws.all_commands@) =~= Seq::<(Seq<char>, CommandId)>::empty());
            assert(ws.palette.results() =~= Seq::<(Seq<char>, CommandId)>::empty());
            assert forall|c: Chord| #[trigger] binding_of(ws@.keymap, c) == crate::workspace::workspace_command::shipped_binding(c) by {
                assert(ws.keymap.binding(c) == crate::workspace::workspace_command::shipped_binding(c));
            }
        }
        ws
    }

    /// A workspace whose center is one pane holding `tabs`, with empty,
    /// hidden docks.
    pub fn single_pane(tabs: PaneState<P>, theme_mode: ThemeMode) -> (r: Self)
        requires
            tabs.wf(),
        ensures
            r.wf(),
            r@.grid.layout == crate::workspace::workspace_pane_grid::Node::Pane(Pane(0)),
            r@.grid.panes == Map::<Pane, PaneView<P>>::empty().insert(Pane(0), tabs@),
            r@.focused == PanelLocation::Center(Pane(0)),
            r@.left.tabs.tabs.len() == 0 && r@.right.tabs.tabs.len() == 0 && r@.bottom.tabs.tabs.len() == 0,
            r@.left.visibility == DockVisibility::Hidden,
            r@.right.visibility == DockVisibility::Hidden,
            r@.bottom.visibility == DockVisibility::Hidden,
            r@.drag_state is None,
            r@.close_confirmation is None,
            r@.scratch_surface is None,
            r@.left_surface is None && r@.right_surface is None && r@.bottom_surface is None,
            r@.torn_off_panel is None,
            forall|c: Chord| #[trigger] binding_of(r@.keymap, c) == crate::workspace::workspace_command::shipped_binding(c),
            r@.theme == theme_of(theme_mode),
            r@.theme_mode == theme_mode,
            r@.window_size == (SizeBits { width_bits: DEFAULT_WINDOW_WIDTH_BITS, height_bits: DEFAULT_WINDOW_HEIGHT_BITS }),
            r@.cross_window_drop_preview is None,
            !r@.palette_open && r@.palette_query.len() == 0 && r@.palette_results.len() == 0 && r@.palette_selected == 0,
            r@.all_commands.len() == 0,
            r@.pending_app_command is None,
            r@.hovered_tab is None,
    {
        Self::with_docks(tabs, Docks::empty(), theme_mode)
    }

    /// Assemble a workspace from already built parts (a restored layout),
    /// with the shipped keymap.
    pub fn from_parts(panes: PaneGrid<PaneState<P>>, docks: Docks<P>, focused: PanelLocation, theme_mode: ThemeMode) -> (r: Self)
        requires
            panes.wf(),
            docks.wf(),
            forall|p: Pane| #[trigger] panes.model().panes.contains_key(p) ==> panes.model().panes[p].wf(),
        ensures
            r.wf(),
            r@.grid == map_grid(panes.model(), |ps: PaneState<P>| ps@),
            r@.left == dock_view(docks.left),
            r@.right == dock_view(docks.right),
            r@.bottom == dock_view(docks.bottom),
            r@.focused == focused,
            at_rest(r@, theme_mode),
            r@.window_size == (SizeBits { width_bits: DEFAULT_WINDOW_WIDTH_BITS, height_bits: DEFAULT_WINDOW_HEIGHT_BITS }),
            r@.all_commands.len() == 0,
            r@.scratch_surface is None,
            r@.left_surface is None && r@.right_surface is None && r@.bottom_surface is None,
    {
        let ws = Workspace {
            panes,
            docks,
            keymap: Keymap::default(),
            focused,
            theme: OpenZoneTheme::from_mode(theme_mode),
            theme_mode,
            drag_state: None,
            window_size: SizeBits { width_bits: DEFAULT_WINDOW_WIDTH_BITS, height_bits: DEFAULT_WINDOW_HEIGHT_BITS },
            cross_window_drop_preview: None,
            torn_off_panel: None,
            scratch_surface: None,
            left_surface: None,
            right_surface: None,
            bottom_surface: None,
            close_confirmation: None,
            palette: PaletteState::new(),
            all_commands: Vec::new(),
            pending_app_command: None,
            hovered_tab: None,
        };
        proof {
            assert(item_views(ws.all_commands@) =~= Seq::<(Seq<char>, CommandId)>::empty());
            assert(ws.palette.results() =~= Seq::<(Seq<char>, CommandId)>::empty());
            assert forall|c: Chord| #[trigger] binding_of(ws@.keymap, c) == crate::workspace::workspace_command::shipped_binding(c) by {
                assert(ws.keymap.binding(c) == crate::workspace::workspace_command::shipped_binding(c));
            }
        }
        ws
    }

    /// Move the tab stack at `location` out, leaving an empty one behind.
    fn take_pane(&mut self, location: PanelLocation) -> (r: Option<PaneState<P>>)
        requires
            old(self).wf(),
        ensures
            final(self).wf(),
            r is None <==> old(self)@.pane_at(location) is None,
            r is None ==> final(self)@ == old(self)@,
            r matches Some(ps) ==> Some(ps@) == old(self)@.pane_at(location) && ps.wf()
                && final(self)@ == old(self)@.with_pane(location, empty_pane()),
    {
        let ghost m0 = self.panes.model();
        match location {
            PanelLocation::Center(pane) => {
                let r = self.panes.replace(pane, PaneState::empty());
                proof {
                    if r is Some {
                        assert(self.panes.model().panes.map_values(|ps: PaneState<P>| ps@) =~= m0.panes.map_values(
                            |ps: PaneState<P>| ps@,
                        ).insert(pane, empty_pane()));
                        assert forall|p: Pane| #[trigger] self.panes.model().panes.contains_key(p) implies self.panes.model().panes[p].wf() by {
                            if p != pane {
                                assert(m0.panes.contains_key(p));
                            }
                        }
                    }
                }
                r
            },
            PanelLocation::Dock(side) => {
                let mut ps = PaneState::empty();
                match side {
                    DockSide::Left => std::mem::swap(&mut ps, &mut self.docks.left.tabs),
                    DockSide::Right => std::mem::swap(&mut ps, &mut self.docks.right.tabs),
                    DockSide::Bottom => std::mem::swap(&mut ps, &mut self.docks.bottom.tabs),
                }
                Some(ps)
            },
        }
    }

    /// Put a tab stack at an existing `location`.
    fn put_pane(&mut self, location: PanelLocation, ps: PaneState<P>)
        requires
            old(self).wf(),
            old(self)@.pane_at(location) is Some,
            ps.wf(),
        ensures
            final(self).wf(),
            final(self)@ == old(self)@.with_pane(location, ps@),
    {
        let ghost m0 = self.panes.model();
        let ghost v = ps@;
        match location {
            PanelLocation::Center(pane) => {
                let _ = self.panes.replace(pane, ps);
                proof {
                    assert(self.panes.model().panes.map_values(|ps: PaneState<P>| ps@) =~= m0.panes.map_values(
                        |ps: PaneState<P>| ps@,
                    ).insert(pane, v));
                    assert forall|p: Pane| #[trigger] self.panes.model().panes.contains_key(p) implies self.panes.model().panes[p].wf() by {
                        if p != pane {
                            assert(m0.panes.contains_key(p));
                        }
                    }
                }
            },
            PanelLocation::Dock(side) => {
                match side {
                    DockSide::Left => self.docks.left.tabs = ps,
                    DockSide::Right => self.docks.right.tabs = ps,
                    DockSide::Bottom => self.docks.bottom.tabs = ps,
                }
            },
        }
    }
}


impl<P: Panel> Workspace<P> {
    /// The tab stack at `location`, if it exists.
    fn pane_ref(&self, location: PanelLocation) -> (r: Option<&PaneState<P>>)
        requires
            self.wf(),
        ensures
            r is None <==> self@.pane_at(location) is None,
            r matches Some(ps) ==> Some(ps@) == self@.pane_at(location) && ps.wf(),
    {
        match location {
            PanelLocation::Center(pane) => self.panes.get(pane),
            PanelLocation::Dock(side) => Some(&self.docks.get(side).tabs),
        }
    }

    /// Whether `location` is focused.
    pub fn is_focused(&self, location: PanelLocation) -> (r: bool)
        ensures
            r == (self@.focused == location),
    {
        self.focused == location
    }

    /// Whether a tab drag is under way.
    pub fn is_tab_drag_active(&self) -> (r: bool)
        ensures
            r == (self@.drag_state is Some),
    {
        self.drag_state.is_some()
    }

    /// Hand over the panel a tear-off drop queued, if any.
    pub fn take_torn_off_panel(&mut self) -> (r: Option<P>)
        ensures
            r == old(self)@.torn_off_panel,
            final(self)@ == (WorkspaceView { torn_off_panel: None, ..old(self)@ }),
            old(self).wf() ==> final(self).wf(),
    {
        let mut r = None;
        std::mem::swap(&mut r, &mut self.torn_off_panel);
        r
    }

    /// Register the surface that refills a center pane that lost its last
    /// tab.
    pub fn set_scratch_factory(&mut self, surface: P::Surface)
        ensures
            final(self)@ == (WorkspaceView { scratch_surface: Some(surface), ..old(self)@ }),
            old(self).wf() ==> final(self).wf(),
    {
        self.scratch_surface = Some(surface);
    }

    /// Hand out the palette command the application root must carry out,
    /// if any.
    pub fn take_pending_app_command(&mut self) -> (r: Option<CommandId>)
        ensures
            r == old(self)@.pending_app_command,
            final(self)@ == (WorkspaceView { pending_app_command: None, ..old(self)@ }),
            old(self).wf() ==> final(self).wf(),
    {
        self.pending_app_command.take()
    }

    /// The active tab drag, if any.
    pub fn current_drag(&self) -> (r: Option<DragState>)
        ensures
            r == self@.drag_state,
    {
        self.drag_state
    }

    /// End the active tab drag and hand it out, if any.
    pub fn take_drag_state(&mut self) -> (r: Option<DragState>)
        ensures
            r == old(self)@.drag_state,
            final(self)@ == (WorkspaceView { drag_state: None, ..old(self)@ }),
            old(self).wf() ==> final(self).wf(),
    {
        self.drag_state.take()
    }

    /// The same workspace sized for a window of `size`.
    pub fn with_window_size(self, size: SizeBits) -> (r: Self)
        ensures
            r@ == (WorkspaceView { window_size: size, ..self@ }),
            self.wf() ==> r.wf(),
    {
        let mut w = self;
        w.window_size = size;
        w
    }

    /// Replace the palette's catalog.
    pub fn set_command_catalog(&mut self, items: Vec<CommandItem>)
        ensures
            final(self)@ == (WorkspaceView { all_commands: item_views(items@), ..old(self)@ }),
            old(self).wf() ==> final(self).wf(),
    {
        self.all_commands = items;
    }

    /// Register the default surface of the dock on `side`.
    pub fn set_dock_factory(&mut self, side: DockSide, surface: P::Surface)
        ensures
            final(self)@ == (match side {
                DockSide::Left => WorkspaceView { left_surface: Some(surface), ..old(self)@ },
                DockSide::Right => WorkspaceView { right_surface: Some(surface), ..old(self)@ },
                DockSide::Bottom => WorkspaceView { bottom_surface: Some(surface), ..old(self)@ },
            }),
            old(self).wf() ==> final(self).wf(),
    {
        match side {
            DockSide::Left => self.left_surface = Some(surface),
            DockSide::Right => self.right_surface = Some(surface),
            DockSide::Bottom => self.bottom_surface = Some(surface),
        }
    }

    /// Whether the dock on `side` has a default surface.
    pub fn has_dock_factory(&self, side: DockSide) -> (r: bool)
        ensures
            r == (self@.surface(side) is Some),
    {
        match side {
            DockSide::Left => self.left_surface.is_some(),
            DockSide::Right => self.right_surface.is_some(),
            DockSide::Bottom => self.bottom_surface.is_some(),
        }
    }

    fn surface_for(&self, side: DockSide) -> (r: Option<P::Surface>)
        ensures
            r == self@.surface(side),
    {
        match side {
            DockSide::Left => self.left_surface,
            DockSide::Right => self.right_surface,
            DockSide::Bottom => self.bottom_surface,
        }
    }

    /// Record the drop target the application root resolved for the
    /// active drag; nothing happens without a drag.
    pub fn update_drag_target(&mut self, target: DropTarget, cursor: PointBits, target_window: Option<u64>, cursor_window: u64)
        ensures
            final(self)@ == (match old(self)@.drag_state {
                Some(d) => WorkspaceView {
                    drag_state: Some(DragState {
                        pointer_moved: true,
                        cursor,
                        target,
                        target_window,
                        cursor_window: Some(cursor_window),
                        ..d
                    }),
                    ..old(self)@
                },
                None => old(self)@,
            }),
            old(self).wf() ==> final(self).wf(),
    {
        if let Some(d) = self.drag_state {
            self.drag_state = Some(DragState {
                pointer_moved: true,
                cursor,
                target,
                target_window,
                cursor_window: Some(cursor_window),
                ..d
            });
        }
    }

    pub fn clear_cross_window_drop_preview(&mut self)
        ensures
            final(self)@ == (WorkspaceView { cross_window_drop_preview: None, ..old(self)@ }),
            old(self).wf() ==> final(self).wf(),
    {
        self.cross_window_drop_preview = None;
    }

    pub fn set_cross_window_drop_preview(&mut self, preview: CrossWindowDropPreview)
        ensures
            final(self)@ == (WorkspaceView { cross_window_drop_preview: Some(preview), ..old(self)@ }),
            old(self).wf() ==> final(self).wf(),
    {
        self.cross_window_drop_preview = Some(preview);
    }

    /// The title of tab `tab` at `location`, if it exists.
    pub fn tab_title(&self, location: PanelLocation, tab: usize) -> (r: Option<String>)
        requires
            self.wf(),
        ensures
            match self@.pane_at(location) {
                Some(pv) => if tab < pv.tabs.len() {
                    r matches Some(title) && title@ == pv.tabs[tab as int].title_spec()
                } else {
                    r is None
                },
                None => r is None,
            },
    {
        match self.pane_ref(location) {
            Some(ps) => if tab < ps.tabs.len() {
                Some(ps.tabs[tab].title())
            } else {
                None
            },
            None => None,
        }
    }

    /// Focus the first center pane, when there is one.
    fn return_focus_to_workbench(&mut self)
        requires
            old(self).wf(),
        ensures
            final(self).wf(),
            final(self)@ == old(self)@.focus_workbench(),
    {
        proof {
            self.panes.lemma_wf();
            assert(self@.grid.panes.dom() =~= self.panes.model().panes.dom());
        }
        if let Some(pane) = self.panes.first_pane() {
            self.focused = PanelLocation::Center(pane);
        }
    }

    /// Select a tab (see [`WorkspaceView::tab_selected`]).
    pub fn select_tab(&mut self, location: PanelLocation, tab: usize)
        requires
            old(self).wf(),
        ensures
            final(self).wf(),
            final(self)@ == old(self)@.tab_selected(location, tab),
    {
        let ghost v0 = self@;
        self.focused = location;
        let ghost v1 = self@;
        assert(v1 == WorkspaceView { focused: location, ..v0 });
        if let Some(mut ps) = self.take_pane(location) {
            ps.select(tab);
            self.put_pane(location, ps);
            proof {
                lemma_with_pane(v1, location, empty_pane(), ps@);
            }
        }
    }

    /// Focus a location from the dock chrome (see
    /// [`WorkspaceView::dock_focused`]).
    pub fn focus_dock(&mut self, location: PanelLocation)
        requires
            old(self).wf(),
        ensures
            final(self).wf(),
            final(self)@ == old(self)@.dock_focused(location),
    {
        self.focused = location;
        if let PanelLocation::Dock(side) = location {
            let dock = self.docks.get(side);
            if dock.is_collapsed() && !dock.is_empty() {
                self.docks.set_visibility(side, DockVisibility::Open);
            }
        }
    }

    /// Collapse or hide the dock on `side` (see
    /// [`WorkspaceView::dock_set_aside`]).
    fn set_dock_aside(&mut self, side: DockSide, visibility: DockVisibility)
        requires
            old(self).wf(),
        ensures
            final(self).wf(),
            final(self)@ == old(self)@.dock_set_aside(side, visibility),
    {
        let was_focused = self.focused == PanelLocation::Dock(side);
        self.docks.set_visibility(side, visibility);
        if was_focused {
            self.return_focus_to_workbench();
        }
    }

    /// Split the focused center pane (see [`WorkspaceView::split_focused`]).
    fn split_focused(&mut self)
        requires
            old(self).wf(),
        ensures
            final(self).wf(),
            final(self)@ == old(self)@.split_focused(),
    {
        if let PanelLocation::Center(pane) = self.focused {
            let ghost m0 = self.panes.model();
            let empty = PaneState::empty();
            let ghost e = empty;
            let r = self.panes.split(SplitAxis::Vertical, pane, empty);
            proof {
                crate::workspace::workspace_pane_grid::lemma_map_split(
                    m0,
                    SplitAxis::Vertical,
                    Some(pane),
                    e,
                    false,
                    |ps: PaneState<P>| ps@,
                );
                assert(e@ == empty_pane::<P>());
                assert forall|p: Pane| #[trigger] self.panes.model().panes.contains_key(p) implies self.panes.model().panes[p].wf() by {
                    reveal(model_split_node);
                    if p != r.unwrap_or(Pane(0)) || r is None {
                        assert(m0.panes.contains_key(p));
                    }
                }
            }
            if let Some(new_pane) = r {
                self.focused = PanelLocation::Center(new_pane);
            }
        }
    }

    /// Flip the theme mode.
    pub fn toggle_theme(&mut self)
        ensures
            final(self)@ == old(self)@.theme_toggled(),
            old(self).wf() ==> final(self).wf(),
    {
        self.theme_mode = self.theme_mode.toggle();
        self.theme = OpenZoneTheme::from_mode(self.theme_mode);
    }
}


impl<P: Panel> Workspace<P> {
    /// Open the dock on `side` (see [`dock_opened`]).
    fn open_dock(&mut self, side: DockSide, stores: &mut AppStores)
        requires
            old(self).wf(),
            old(stores).wf(),
            P::room(old(stores).model(), 1),
        ensures
            final(self).wf(),
            final(stores).wf(),
            dock_opened(old(self)@, old(stores).model(), side, final(self)@, final(stores).model()),
            forall|n: nat|
                P::room(old(stores).model(), n + 1) ==> #[trigger] P::room(final(stores).model(), n),
    {
        let ghost v0 = self@;
        let ghost s0 = stores.model();
        proof {
            assert forall|n: nat| P::room(s0, n + 1) implies #[trigger] P::room(s0, n) by {
                P::lemma_room_mono(s0, n + 1, n);
            }
        }
        self.docks.set_visibility(side, DockVisibility::Open);
        if self.docks.get(side).is_empty() {
            if let Some(surface) = self.surface_for(side) {
                let panel = P::build(surface, stores);
                let ghost q = panel;
                let mut ps = PaneState::empty();
                ps.tabs.push(panel);
                match side {
                    DockSide::Left => self.docks.left.tabs = ps,
                    DockSide::Right => self.docks.right.tabs = ps,
                    DockSide::Bottom => self.docks.bottom.tabs = ps,
                }
                self.focused = PanelLocation::Dock(side);
                proof {
                    assert(self@.dock(side).tabs.tabs =~= seq![q]);
                }
            }
        } else {
            self.focused = PanelLocation::Dock(side);
        }
    }

    /// Tidy a location that may have lost its last tab (see
    /// [`cleaned_up`]).
    fn cleanup_empty_source(&mut self, location: PanelLocation, stores: &mut AppStores)
        requires
            old(self).wf(),
            old(stores).wf(),
            P::room(old(stores).model(), 1),
        ensures
            final(self).wf(),
            final(stores).wf(),
            cleaned_up(old(self)@, old(stores).model(), location, final(self)@, final(stores).model()),
            forall|n: nat|
                P::room(old(stores).model(), n + 1) ==> #[trigger] P::room(final(stores).model(), n),
    {
        let ghost v0 = self@;
        let ghost s0 = stores.model();
        proof {
            assert forall|n: nat| P::room(s0, n + 1) implies #[trigger] P::room(s0, n) by {
                P::lemma_room_mono(s0, n + 1, n);
            }
        }
        let is_empty = match self.pane_ref(location) {
            Some(ps) => ps.is_empty(),
            None => false,
        };
        if !is_empty {
            return;
        }
        match location {
            PanelLocation::Center(pane) => {
                match self.scratch_surface {
                    Some(surface) => self.refill_pane(location, surface, stores),
                    None => self.collapse_center_pane(pane),
                }
            },
            PanelLocation::Dock(side) => {
                self.set_dock_aside(side, DockVisibility::Hidden);
            },
        }
    }

    /// Put a freshly built surface into the empty stack at `location` and
    /// focus it.
    fn refill_pane(&mut self, location: PanelLocation, surface: P::Surface, stores: &mut AppStores)
        requires
            old(self).wf(),
            old(stores).wf(),
            P::room(old(stores).model(), 1),
            old(self)@.pane_at(location) is Some,
        ensures
            final(self).wf(),
            final(stores).wf(),
            final(self)@.pane_at(location) matches Some(pw) && pw.tabs.len() == 1 && pw.active == 0
                && P::build_post(surface, old(stores).model(), pw.tabs[0], final(stores).model())
                && final(self)@ == (WorkspaceView { focused: location, ..old(self)@.with_pane(location, pw) }),
            forall|n: nat|
                P::room(old(stores).model(), n + 1) ==> #[trigger] P::room(final(stores).model(), n),
    {
        let ghost v0 = self@;
        let panel = P::build(surface, stores);
        let ghost q = panel;
        let mut ps = PaneState::empty();
        ps.tabs.push(panel);
        let ghost pw = ps@;
        self.put_pane(location, ps);
        self.focused = location;
        proof {
            assert(pw.tabs =~= seq![q]);
            lemma_with_pane(v0, location, pw, pw);
        }
    }

    /// Close the center pane `pane`; its sibling takes focus.
    fn collapse_center_pane(&mut self, pane: Pane)
        requires
            old(self).wf(),
        ensures
            final(self).wf(),
            ({
                let (g, r) = model_close(old(self)@.grid, pane);
                final(self)@ == (WorkspaceView {
                    grid: g,
                    focused: match r {
                        Some((_, sibling)) => PanelLocation::Center(sibling),
                        None => old(self)@.focused,
                    },
                    ..old(self)@
                })
            }),
    {
        let ghost m0 = self.panes.model();
        proof {
            self.panes.lemma_wf_close(pane);
            crate::workspace::workspace_pane_grid::lemma_map_close(m0, pane, |ps: PaneState<P>| ps@);
        }
        let r = self.panes.close(pane);
        proof {
            assert forall|p: Pane| #[trigger] self.panes.model().panes.contains_key(p) implies self.panes.model().panes[p].wf() by {
                assert(m0.panes.contains_key(p));
            }
        }
        if let Some((_, sibling)) = r {
            self.focused = PanelLocation::Center(sibling);
        }
    }

    /// Close tab `tab` at `location` right away (see [`tab_closed`]).
    pub fn close_tab_immediately(&mut self, location: PanelLocation, tab: usize, stores: &mut AppStores)
        requires
            old(self).wf(),
            old(stores).wf(),
            P::room(old(stores).model(), 1),
        ensures
            final(self).wf(),
            final(stores).wf(),
            tab_closed(old(self)@, old(stores).model(), location, tab, final(self)@, final(stores).model()),
            forall|n: nat|
                P::room(old(stores).model(), n + 1) ==> #[trigger] P::room(final(stores).model(), n),
    {
        let ghost v0 = self@;
        let ghost s0 = stores.model();
        proof {
            assert forall|n: nat| P::room(s0, n + 1) implies #[trigger] P::room(s0, n) by {
                P::lemma_room_mono(s0, n + 1, n);
            }
        }
        let taken = self.take_pane(location);
        match taken {
            None => {},
            Some(mut ps) => {
                let ghost pv = ps@;
                let removed = ps.close_tab(tab);
                match removed {
                    None => {
                        self.put_pane(location, ps);
                        proof {
                            lemma_with_pane(v0, location, empty_pane(), pv);
                        }
                    },
                    Some(mut panel) => {
                        let ghost rest = ps@;
                        self.put_pane(location, ps);
                        let ghost v1 = self@;
                        proof {
                            lemma_with_pane(v0, location, empty_pane(), rest);
                            assert(rest.tabs =~= pv.tabs.remove(tab as int));
                        }
                        panel.on_close(stores);
                        self.cleanup_empty_source(location, stores);
                    },
                }
            },
        }
    }

    /// Close the listed tabs without asking, last listed first so that
    /// earlier entries keep their indices.
    pub fn discard_dirty_panels(&mut self, panels: Vec<DirtyPanel>, stores: &mut AppStores)
        requires
            old(self).wf(),
            old(stores).wf(),
            P::room(old(stores).model(), panels@.len() as nat),
        ensures
            final(self).wf(),
            final(stores).wf(),
            exists|trace: Seq<(WorkspaceView<P>, StoresModel)>| {
                &&& #[trigger] discard_trace(trace, dirty_views(panels@))
                &&& trace[0] == (old(self)@, old(stores).model())
                &&& trace.last() == (final(self)@, final(stores).model())
            },
            forall|m: nat| P::room(old(stores).model(), (m + panels@.len()) as nat) ==> #[trigger] P::room(final(stores).model(), m),
    {
        let ghost ds = dirty_views(panels@);
        let ghost mut trace: Seq<(WorkspaceView<P>, StoresModel)> = seq![(self@, stores.model())];
        let n = panels.len();
        let mut k: usize = n;
        while k > 0
            invariant
                self.wf(),
                stores.wf(),
                n == panels@.len(),
                ds == dirty_views(panels@),
                k <= n,
                P::room(stores.model(), k as nat),
                forall|m: nat| P::room(old(stores).model(), (m + n) as nat) ==> #[trigger] P::room(stores.model(), (m + k) as nat),
                trace.len() == n - k + 1,
                trace[0] == (old(self)@, old(stores).model()),
                trace.last() == (self@, stores.model()),
                forall|i: int| 0 <= i < n - k ==> tab_closed(trace[i].0, trace[i].1, #[trigger] ds[n - 1 - i].0, ds[n - 1 - i].1, trace[i + 1].0, trace[i + 1].1),
            decreases k,
        {
            k = k - 1;
            let location = panels[k].location;
            let tab = panels[k].tab;
            proof {
                P::lemma_room_mono(stores.model(), (k + 1) as nat, 1);
            }
            let ghost before = (self@, stores.model());
            let ghost sb = stores.model();
            self.close_tab_immediately(location, tab, stores);
            proof {
                assert(P::room(stores.model(), k as nat));
                assert forall|m: nat| P::room(old(stores).model(), (m + n) as nat) implies #[trigger] P::room(stores.model(), (m + k) as nat) by {
                    assert(P::room(sb, (m + (k + 1)) as nat));
                    assert(P::room(sb, ((m + k) as nat) + 1));
                }
                let t0 = trace;
                trace = trace.push((self@, stores.model()));
                assert forall|i: int| 0 <= i < n - k implies tab_closed(trace[i].0, trace[i].1, #[trigger] ds[n - 1 - i].0, ds[n - 1 - i].1, trace[i + 1].0, trace[i + 1].1) by {
                    if i < n - k - 1 {
                        assert(trace[i] == t0[i] && trace[i + 1] == t0[i + 1]);
                    } else {
                        assert(n - 1 - i == k);
                        assert(trace[i] == before);
                    }
                }
            }
        }
        proof {
            assert(discard_trace(trace, ds));
            assert forall|m: nat| P::room(old(stores).model(), (m + panels@.len()) as nat) implies #[trigger] P::room(stores.model(), m) by {
                assert(P::room(stores.model(), (m + k) as nat));
            }
        }
    }

    /// Ask to close tab `tab` at `location` (see [`close_requested`]).
    pub fn request_close(&mut self, location: PanelLocation, tab: usize, stores: &mut AppStores)
        requires
            old(self).wf(),
            old(stores).wf(),
            P::room(old(stores).model(), 1),
        ensures
            final(self).wf(),
            final(stores).wf(),
            close_requested(old(self)@, old(stores).model(), location, tab, final(self)@, final(stores).model()),
            forall|n: nat|
                P::room(old(stores).model(), n + 1) ==> #[trigger] P::room(final(stores).model(), n),
    {
        let prompt = match self.pane_ref(location) {
            Some(ps) => if tab < ps.tabs.len() {
                match ps.tabs[tab].close_request() {
                    crate::workspace::workspace_panel::CloseRequest::Confirm { message } => Some(message),
                    crate::workspace::workspace_panel::CloseRequest::Allowed => None,
                }
            } else {
                None
            },
            None => None,
        };
        match prompt {
            Some(message) => {
                self.close_confirmation = Some(CloseConfirmation { location, tab, message });
                proof {
                    assert forall|n: nat| P::room(stores.model(), n + 1) implies #[trigger] P::room(stores.model(), n) by {
                        P::lemma_room_mono(stores.model(), n + 1, n);
                    }
                }
            },
            None => self.close_tab_immediately(location, tab, stores),
        }
    }

    /// Close the focused location's active tab (see [`active_tab_closed`]).
    fn close_active_tab(&mut self, stores: &mut AppStores)
        requires
            old(self).wf(),
            old(stores).wf(),
            P::room(old(stores).model(), 1),
        ensures
            final(self).wf(),
            final(stores).wf(),
            active_tab_closed(old(self)@, old(stores).model(), final(self)@, final(stores).model()),
            forall|n: nat|
                P::room(old(stores).model(), n + 1) ==> #[trigger] P::room(final(stores).model(), n),
    {
        let focused = self.focused;
        let active = match self.pane_ref(focused) {
            Some(ps) => Some(ps.active),
            None => None,
        };
        match active {
            Some(tab) => self.request_close(focused, tab, stores),
            None => {
                proof {
                    assert forall|n: nat| P::room(stores.model(), n + 1) implies #[trigger] P::room(stores.model(), n) by {
                        P::lemma_room_mono(stores.model(), n + 1, n);
                    }
                }
            },
        }
    }

    /// Carry out a workspace command (see [`commanded`]).
    pub fn apply_command(&mut self, command: Command, stores: &mut AppStores)
        requires
            old(self).wf(),
            old(stores).wf(),
            P::room(old(stores).model(), 1),
        ensures
            final(self).wf(),
            final(stores).wf(),
            commanded(old(self)@, old(stores).model(), command, final(self)@, final(stores).model()),
            forall|n: nat|
                P::room(old(stores).model(), n + 1) ==> #[trigger] P::room(final(stores).model(), n),
    {
        proof {
            assert forall|n: nat| P::room(stores.model(), n + 1) implies #[trigger] P::room(stores.model(), n) by {
                P::lemma_room_mono(stores.model(), n + 1, n);
            }
        }
        match command {
            Command::OpenDock(side) => self.open_dock(side, stores),
            Command::CollapseDock(side) => {
                if self.docks.get(side).visibility == DockVisibility::Open {
                    self.set_dock_aside(side, DockVisibility::Collapsed);
                }
            },
            Command::HideDock(side) => self.set_dock_aside(side, DockVisibility::Hidden),
            Command::SplitFocused => self.split_focused(),
            Command::CloseActiveTab => self.close_active_tab(stores),
        }
    }
}


impl<P: Panel> Workspace<P> {
    /// Place a dragged panel at `target` (see [`committed`]); the panel
    /// comes back when it cannot be placed.
    fn commit_drop(&mut self, target: DropTarget, source: Option<(PanelLocation, usize)>, panel: P) -> (r: Option<P>)
        requires
            old(self).wf(),
        ensures
            final(self).wf(),
            (final(self)@, r) == committed(old(self)@, target, source, panel),
    {
        let ghost v0 = self@;
        match target {
            DropTarget::TabStrip(st) => {
                let mut insert_at = st.index;
                if let Some((l, t)) = source {
                    if l == st.location && t < insert_at {
                        insert_at = insert_at - 1;
                    }
                }
                match self.take_pane(st.location) {
                    None => Some(panel),
                    Some(mut ps) => {
                        let ghost pv = ps@;
                        let _ = ps.insert_active(insert_at, panel);
                        let ghost pw = ps@;
                        self.put_pane(st.location, ps);
                        self.focused = st.location;
                        proof {
                            lemma_with_pane(v0, st.location, empty_pane(), pw);
                        }
                        None
                    },
                }
            },
            DropTarget::SplitPane(sp) => self.commit_split(sp.pane, sp.direction, panel),
            DropTarget::Dock(side) => {
                match side {
                    DockSide::Left => {
                        self.docks.left.tabs.tabs.push(panel);
                        self.docks.left.tabs.active = self.docks.left.tabs.tabs.len() - 1;
                        self.docks.left.visibility = DockVisibility::Open;
                    },
                    DockSide::Right => {
                        self.docks.right.tabs.tabs.push(panel);
                        self.docks.right.tabs.active = self.docks.right.tabs.tabs.len() - 1;
                        self.docks.right.visibility = DockVisibility::Open;
                    },
                    DockSide::Bottom => {
                        self.docks.bottom.tabs.tabs.push(panel);
                        self.docks.bottom.tabs.active = self.docks.bottom.tabs.tabs.len() - 1;
                        self.docks.bottom.visibility = DockVisibility::Open;
                    },
                }
                self.focused = PanelLocation::Dock(side);
                None
            },
            DropTarget::Nowhere => {
                self.torn_off_panel = Some(panel);
                None
            },
        }
    }

    /// The split-pane arm of [`Workspace::commit_drop`].
    fn commit_split(&mut self, pane: Pane, direction: crate::workspace::workspace_drag::Direction, panel: P) -> (r: Option<P>)
        requires
            old(self).wf(),
        ensures
            final(self).wf(),
            (final(self)@, r) == committed(
                old(self)@,
                DropTarget::SplitPane(crate::workspace::workspace_drag::SplitPaneTarget { pane, direction }),
                None,
                panel,
            ),
    {
        let ghost v0 = self@;
        let ghost m0 = self.panes.model();
        proof {
            if m0.layout.leaves().contains(pane) {
                self.panes.lemma_wf_leaf(pane);
            }
        }
        let empty = PaneState::empty();
        let ghost e = empty;
        let axis = direction.axis();
        let r = self.panes.split(axis, pane, empty);
        let ghost m1 = self.panes.model();
        proof {
            crate::workspace::workspace_pane_grid::lemma_map_split(m0, axis, Some(pane), e, false, |ps: PaneState<P>| ps@);
            assert(e@ == empty_pane::<P>());
        }
        match r {
            None => {
                proof {
                    reveal(model_split_node);
                    assert forall|p: Pane| #[trigger] self.panes.model().panes.contains_key(p) implies self.panes.model().panes[p].wf() by {
                        assert(m0.panes.contains_key(p));
                    }
                }
                Some(panel)
            },
            Some(new_pane) => {
                let mut tabs: Vec<P> = Vec::new();
                tabs.push(panel);
                let ps = PaneState::new(tabs);
                let ghost pv = ps@;
                let ghost psg = ps;
                let _ = self.panes.replace(new_pane, ps);
                let ghost m2 = self.panes.model();
                proof {
                    assert(pv.tabs =~= seq![panel]);
                    assert(m1.panes.contains_key(new_pane));
                    assert(m2.panes == m1.panes.insert(new_pane, psg));
                    assert(m2.panes.map_values(|ps: PaneState<P>| ps@) =~= m1.panes.map_values(|ps: PaneState<P>| ps@).insert(new_pane, pv));
                    reveal(model_split_node);
                    assert(m0.layout.leaves().contains(pane));
                    assert(m2.panes.contains_key(pane));
                }
                if direction.leads() {
                    proof {
                        crate::workspace::workspace_pane_grid::lemma_map_swap(m2, new_pane, pane, |ps: PaneState<P>| ps@);
                    }
                    self.panes.swap(new_pane, pane);
                    self.focused = PanelLocation::Center(pane);
                } else {
                    self.focused = PanelLocation::Center(new_pane);
                }
                proof {
                    assert forall|p: Pane| #[trigger] self.panes.model().panes.contains_key(p) implies self.panes.model().panes[p].wf() by {
                        if p != new_pane {
                            assert(m0.panes.contains_key(p));
                        }
                    }
                }
                None
            },
        }
    }

    /// Put a panel back at its source (see [`restored_at`]).
    fn restore_tab_at_source(&mut self, source: PanelLocation, tab: usize, panel: P)
        requires
            old(self).wf(),
        ensures
            final(self).wf(),
            final(self)@ == restored_at(old(self)@, source, tab, panel),
    {
        let ghost v0 = self@;
        if let Some(mut ps) = self.take_pane(source) {
            let _ = ps.insert_active(tab, panel);
            let ghost pw = ps@;
            self.put_pane(source, ps);
            proof {
                lemma_with_pane(v0, source, empty_pane(), pw);
            }
        }
    }

    /// Take tab `tab` of `location` out (see [`tab_taken`]).
    fn take_tab_at(&mut self, location: PanelLocation, tab: usize) -> (r: Option<P>)
        requires
            old(self).wf(),
        ensures
            final(self).wf(),
            (final(self)@, r) == tab_taken(old(self)@, location, tab),
    {
        let ghost v0 = self@;
        match self.take_pane(location) {
            None => None,
            Some(mut ps) => {
                let ghost pv = ps@;
                let r = ps.take_tab(tab);
                let ghost pw = ps@;
                self.put_pane(location, ps);
                proof {
                    lemma_with_pane(v0, location, empty_pane(), pw);
                    if r is None {
                        lemma_with_pane(v0, location, pw, pw);
                    }
                }
                r
            },
        }
    }

    /// Finish a tab drag (see [`drag_applied`]).
    fn apply_drop(&mut self, drag: DragState, stores: &mut AppStores)
        requires
            old(self).wf(),
            old(stores).wf(),
            P::room(old(stores).model(), 1),
        ensures
            final(self).wf(),
            final(stores).wf(),
            drag_applied(old(self)@, old(stores).model(), drag, final(self)@, final(stores).model()),
            forall|n: nat|
                P::room(old(stores).model(), n + 1) ==> #[trigger] P::room(final(stores).model(), n),
    {
        proof {
            assert forall|n: nat| P::room(stores.model(), n + 1) implies #[trigger] P::room(stores.model(), n) by {
                P::lemma_room_mono(stores.model(), n + 1, n);
            }
        }
        if drag.target == DropTarget::Nowhere && !drag.pointer_moved {
            self.select_tab(drag.source_location, drag.source_tab);
            return;
        }
        let source = drag.source_location;
        let tab = drag.source_tab;
        match self.take_tab_at(source, tab) {
            None => {},
            Some(panel) => {
                match self.commit_drop(drag.target, Some((source, tab)), panel) {
                    Some(back) => self.restore_tab_at_source(source, tab, back),
                    None => self.cleanup_empty_source(source, stores),
                }
            },
        }
    }

    /// Remove the dragged tab from this window without placing it.
    pub fn extract_dragged_panel(&mut self, drag: &DragState) -> (r: Option<P>)
        requires
            old(self).wf(),
        ensures
            final(self).wf(),
            (final(self)@, r) == tab_taken(old(self)@, drag.source_location, drag.source_tab),
    {
        self.take_tab_at(drag.source_location, drag.source_tab)
    }

    /// Place a panel dragged from another window; it comes back when the
    /// target cannot take it.
    pub fn apply_incoming_panel_drop(&mut self, panel: P, target: DropTarget) -> (r: Option<P>)
        requires
            old(self).wf(),
        ensures
            final(self).wf(),
            (final(self)@, r) == committed(old(self)@, target, None, panel),
    {
        self.commit_drop(target, None, panel)
    }

    /// Put a dragged panel back where it came from.
    pub fn restore_dragged_panel(&mut self, source: PanelLocation, tab: usize, panel: P)
        requires
            old(self).wf(),
        ensures
            final(self).wf(),
            final(self)@ == restored_at(old(self)@, source, tab, panel),
    {
        self.restore_tab_at_source(source, tab, panel);
    }

    /// Tidy the source of a tab dragged to another window.
    pub fn cleanup_after_drag_source(&mut self, location: PanelLocation, stores: &mut AppStores)
        requires
            old(self).wf(),
            old(stores).wf(),
            P::room(old(stores).model(), 1),
        ensures
            final(self).wf(),
            final(stores).wf(),
            cleaned_up(old(self)@, old(stores).model(), location, final(self)@, final(stores).model()),
    {
        self.cleanup_empty_source(location, stores);
    }

    /// Finish a drag that stayed in this window, tear-off included.
    pub fn finish_local_tab_drag(&mut self, drag: DragState, stores: &mut AppStores)
        requires
            old(self).wf(),
            old(stores).wf(),
            P::room(old(stores).model(), 1),
        ensures
            final(self).wf(),
            final(stores).wf(),
            drag_applied(old(self)@, old(stores).model(), drag, final(self)@, final(stores).model()),
    {
        self.apply_drop(drag, stores);
    }
}


impl<P: Panel> Workspace<P> {
    /// Deliver a panel message (see [`panel_routed`]).
    fn route_to_panel(&mut self, location: PanelLocation, tab: usize, message: P::Message, stores: &mut AppStores)
        requires
            old(self).wf(),
            old(stores).wf(),
        ensures
            final(self).wf(),
            final(stores).wf(),
            panel_routed(old(self)@, old(stores).model(), location, tab, message, final(self)@, final(stores).model()),
            forall|n: nat| #[trigger] P::room(old(stores).model(), n) ==> P::room(final(stores).model(), n),
    {
        let ghost v0 = self@;
        let ghost s0 = stores.model();
        match self.take_pane(location) {
            None => {},
            Some(mut ps) => {
                let ghost pv = ps@;
                if tab < ps.tabs.len() {
                    let mut panel = ps.tabs.remove(tab);
                    let ghost p0 = panel;
                    panel.update(message, stores);
                    let ghost q = panel;
                    ps.tabs.insert(tab, panel);
                    let ghost pw = ps@;
                    self.put_pane(location, ps);
                    proof {
                        assert(pw.tabs =~= pv.tabs.update(tab as int, q));
                        assert(p0 == pv.tabs[tab as int]);
                        lemma_with_pane(v0, location, empty_pane(), pw);
                        assert(P::update_post(pv.tabs[tab as int], message, s0, q, stores.model()));
                    }
                } else {
                    self.put_pane(location, ps);
                    proof {
                        lemma_with_pane(v0, location, empty_pane(), pv);
                    }
                }
            },
        }
    }

    /// Route a chord (see [`keyed`]).
    fn handle_key(&mut self, chord: Chord, stores: &mut AppStores)
        requires
            old(self).wf(),
            old(stores).wf(),
            P::room(old(stores).model(), 1),
        ensures
            final(self).wf(),
            final(stores).wf(),
            keyed(old(self)@, old(stores).model(), chord, final(self)@, final(stores).model()),
            forall|n: nat|
                P::room(old(stores).model(), n + 1) ==> #[trigger] P::room(final(stores).model(), n),
    {
        proof {
            assert forall|n: nat| P::room(stores.model(), n + 1) implies #[trigger] P::room(stores.model(), n) by {
                P::lemma_room_mono(stores.model(), n + 1, n);
            }
        }
        let captured = match self.pane_ref(self.focused) {
            Some(ps) => match ps.active_panel() {
                Some(panel) => panel.captures_chord(chord),
                None => false,
            },
            None => false,
        };
        if captured {
            return;
        }
        match self.keymap.resolve(chord) {
            Some(command) => self.apply_command(command, stores),
            None => {},
        }
    }

    /// Run a command picked in the palette (see [`palette_ran`]).
    fn run_palette_command(&mut self, id: CommandId, stores: &mut AppStores)
        requires
            old(self).wf(),
            old(stores).wf(),
            P::room(old(stores).model(), 1),
        ensures
            final(self).wf(),
            final(stores).wf(),
            palette_ran(old(self)@, old(stores).model(), id, final(self)@, final(stores).model()),
            forall|n: nat|
                P::room(old(stores).model(), n + 1) ==> #[trigger] P::room(final(stores).model(), n),
    {
        proof {
            assert forall|n: nat| P::room(stores.model(), n + 1) implies #[trigger] P::room(stores.model(), n) by {
                P::lemma_room_mono(stores.model(), n + 1, n);
            }
        }
        match id {
            CommandId::OpenDock(side) => self.apply_command(Command::OpenDock(side), stores),
            CommandId::CollapseDock(side) => self.apply_command(Command::CollapseDock(side), stores),
            CommandId::HideDock(side) => self.apply_command(Command::HideDock(side), stores),
            CommandId::SplitFocused => self.apply_command(Command::SplitFocused, stores),
            CommandId::CloseActiveTab => self.apply_command(Command::CloseActiveTab, stores),
            CommandId::ToggleTheme => self.toggle_theme(),
            CommandId::NewWindow => {
                self.pending_app_command = Some(CommandId::NewWindow);
            },
        }
    }

    /// Dismiss the palette.
    pub fn dismiss_palette(&mut self)
        requires
            old(self).wf(),
        ensures
            final(self).wf(),
            final(self)@ == palette_dismissed(old(self)@),
    {
        self.palette.dismiss();
        proof {
            assert(self.palette.results() =~= Seq::<(Seq<char>, CommandId)>::empty());
            assert(self.palette.query@ =~= Seq::<char>::empty());
        }
    }

    /// Open or dismiss the palette; opening filters the catalog by the
    /// current query.
    fn toggle_palette(&mut self)
        requires
            old(self).wf(),
        ensures
            final(self).wf(),
            final(self)@ == (if old(self)@.palette_open {
                palette_dismissed(old(self)@)
            } else {
                WorkspaceView {
                    palette_open: true,
                    palette_results: palette_results(old(self)@.all_commands, old(self)@.palette_query),
                    palette_selected: 0,
                    ..old(self)@
                }
            }),
    {
        if self.palette.open {
            self.dismiss_palette();
        } else {
            self.palette.open = true;
            self.palette.filter(self.all_commands.as_slice());
        }
    }

    /// Replace the palette query and re-filter.
    fn change_palette_query(&mut self, query: String)
        requires
            old(self).wf(),
        ensures
            final(self).wf(),
            final(self)@ == (WorkspaceView {
                palette_query: query@,
                palette_results: palette_results(old(self)@.all_commands, query@),
                palette_selected: 0,
                ..old(self)@
            }),
    {
        self.palette.query = query;
        self.palette.filter(self.all_commands.as_slice());
    }

    /// Pick palette row `index` and run its command.
    fn click_palette_item(&mut self, index: usize, stores: &mut AppStores)
        requires
            old(self).wf(),
            old(stores).wf(),
            P::room(old(stores).model(), 1),
        ensures
            final(self).wf(),
            final(stores).wf(),
            match palette_pick(old(self)@, index) {
                Some(id) => palette_ran(palette_dismissed(old(self)@), old(stores).model(), id, final(self)@, final(stores).model()),
                None => final(self)@ == palette_dismissed(old(self)@) && final(stores).model() == old(stores).model(),
            },
            forall|n: nat|
                P::room(old(stores).model(), n + 1) ==> #[trigger] P::room(final(stores).model(), n),
    {
        proof {
            assert forall|n: nat| P::room(stores.model(), n + 1) implies #[trigger] P::room(stores.model(), n) by {
                P::lemma_room_mono(stores.model(), n + 1, n);
            }
        }
        let ghost v0 = self@;
        self.palette.select_at(index);
        let picked = self.palette.take_selection();
        proof {
            assert(self.palette.results() =~= Seq::<(Seq<char>, CommandId)>::empty());
            assert(self.palette.query@ =~= Seq::<char>::empty());
            assert(self@ == palette_dismissed(v0));
            if v0.palette_results.len() > 0 {
                let k: int = if index < v0.palette_results.len() { index as int } else { v0.palette_results.len() - 1 };
                assert(v0.palette_results[k] == old(self).palette.filtered@[k]@);
            }
        }
        if let Some(id) = picked {
            self.run_palette_command(id, stores);
        }
    }

    /// Apply a whole-pane drop; the dropped pane takes focus.
    fn drop_pane(&mut self, pane: Pane, target: PaneDropTarget)
        requires
            old(self).wf(),
        ensures
            final(self).wf(),
            final(self)@ == (WorkspaceView {
                grid: grid_dropped(old(self)@.grid, pane, target),
                focused: PanelLocation::Center(pane),
                ..old(self)@
            }),
    {
        let ghost m0 = self.panes.model();
        proof {
            self.panes.lemma_wf_close(pane);
            crate::workspace::workspace_pane_grid::lemma_map_drop(m0, pane, target, |ps: PaneState<P>| ps@);
            assert(self@.grid.panes.dom() =~= m0.panes.dom());
        }
        self.panes.drop(pane, target);
        self.focused = PanelLocation::Center(pane);
        proof {
            assert forall|p: Pane| #[trigger] self.panes.model().panes.contains_key(p) implies self.panes.model().panes[p].wf() by {
                assert(m0.panes.contains_key(p));
            }
        }
    }
}


impl<P: Panel> Workspace<P> {
    /// Fold a message into the workspace: the single mutation path (see
    /// [`updated_by`]).
    pub fn update(&mut self, message: WorkspaceMessage<P::Message>, stores: &mut AppStores)
        requires
            old(self).wf(),
            old(stores).wf(),
            P::room(old(stores).model(), 1),
        ensures
            final(self).wf(),
            final(stores).wf(),
            updated_by(old(self)@, old(stores).model(), message, final(self)@, final(stores).model()),
            forall|n: nat|
                P::room(old(stores).model(), n + 1) ==> #[trigger] P::room(final(stores).model(), n),
    {
        proof {
            assert forall|n: nat| P::room(stores.model(), n + 1) implies #[trigger] P::room(stores.model(), n) by {
                P::lemma_room_mono(stores.model(), n + 1, n);
            }
        }
        if self.close_confirmation.is_some() {
            self.update_while_confirming(message, stores);
            return;
        }
        match message {
            WorkspaceMessage::Panel { location, tab, message } => {
                self.route_to_panel(location, tab, message, stores);
                proof {
                    assert forall|n: nat| P::room(old(stores).model(), n + 1) implies #[trigger] P::room(stores.model(), n) by {
                        P::lemma_room_mono(old(stores).model(), n + 1, n);
                    }
                }
            },
            WorkspaceMessage::TabSelected { location, tab } => self.select_tab(location, tab),
            WorkspaceMessage::TabHoverChanged { location } => {
                self.hovered_tab = location;
            },
            WorkspaceMessage::TabCloseRequested { location, tab } => self.request_close(location, tab, stores),
            WorkspaceMessage::PaneClicked(pane) => {
                self.focused = PanelLocation::Center(pane);
            },
            WorkspaceMessage::DockFocused(location) => self.focus_dock(location),
            WorkspaceMessage::Key(chord) => self.handle_key(chord, stores),
            WorkspaceMessage::Command(command) => self.apply_command(command, stores),
            WorkspaceMessage::TogglePalette => self.toggle_palette(),
            WorkspaceMessage::PaletteQueryChanged(query) => self.change_palette_query(query),
            WorkspaceMessage::PaletteItemClicked(index) => self.click_palette_item(index, stores),
            WorkspaceMessage::ToggleTheme => self.toggle_theme(),
            WorkspaceMessage::NewWindow => {},
            WorkspaceMessage::PaneDropped { pane, target } => self.drop_pane(pane, target),
            WorkspaceMessage::TabDragStarted { location, tab } => {
                self.drag_state = Some(DragState::new(location, tab));
            },
            WorkspaceMessage::CursorMoved { cursor, target } => {
                if let Some(d) = self.drag_state {
                    self.drag_state = Some(DragState { pointer_moved: true, cursor, target, ..d });
                }
            },
            WorkspaceMessage::TabDragDropped => {
                let mut taken = None;
                std::mem::swap(&mut taken, &mut self.drag_state);
                if let Some(drag) = taken {
                    self.apply_drop(drag, stores);
                }
            },
            WorkspaceMessage::WindowResized(size) => {
                self.window_size = size;
            },
            WorkspaceMessage::ConfirmCloseDiscard { location, tab } => {
                self.close_tab_immediately(location, tab, stores);
            },
            WorkspaceMessage::ConfirmCloseCancel => {},
        }
    }

    /// The reducer while a close confirmation is pending.
    fn update_while_confirming(&mut self, message: WorkspaceMessage<P::Message>, stores: &mut AppStores)
        requires
            old(self).wf(),
            old(stores).wf(),
            P::room(old(stores).model(), 1),
            old(self).close_confirmation is Some,
        ensures
            final(self).wf(),
            final(stores).wf(),
            updated_by(old(self)@, old(stores).model(), message, final(self)@, final(stores).model()),
            forall|n: nat|
                P::room(old(stores).model(), n + 1) ==> #[trigger] P::room(final(stores).model(), n),
    {
        proof {
            assert forall|n: nat| P::room(stores.model(), n + 1) implies #[trigger] P::room(stores.model(), n) by {
                P::lemma_room_mono(stores.model(), n + 1, n);
            }
        }
        match message {
            WorkspaceMessage::ConfirmCloseDiscard { .. } => {
                let mut taken = None;
                std::mem::swap(&mut taken, &mut self.close_confirmation);
                if let Some(confirm) = taken {
                    self.close_tab_immediately(confirm.location, confirm.tab, stores);
                }
            },
            WorkspaceMessage::ConfirmCloseCancel => {
                self.close_confirmation = None;
            },
            WorkspaceMessage::WindowResized(size) => {
                self.window_size = size;
            },
            _ => {},
        }
    }
}


impl<P: Panel> Workspace<P> {
    /// Fill or hide one open, empty dock (see [`dock_populated`]).
    pub fn populate_empty_dock(&mut self, side: DockSide, stores: &mut AppStores)
        requires
            old(self).wf(),
            old(stores).wf(),
            P::room(old(stores).model(), 1),
        ensures
            final(self).wf(),
            final(stores).wf(),
            dock_populated(old(self)@, old(stores).model(), side, final(self)@, final(stores).model()),
            forall|n: nat|
                P::room(old(stores).model(), n + 1) ==> #[trigger] P::room(final(stores).model(), n),
    {
        proof {
            assert forall|n: nat| P::room(stores.model(), n + 1) implies #[trigger] P::room(stores.model(), n) by {
                P::lemma_room_mono(stores.model(), n + 1, n);
            }
        }
        let dock = self.docks.get(side);
        if !dock.is_open() || !dock.is_empty() {
            return;
        }
        match self.surface_for(side) {
            Some(surface) => {
                let panel = P::build(surface, stores);
                let ghost q = panel;
                let mut ps = PaneState::empty();
                ps.tabs.push(panel);
                match side {
                    DockSide::Left => self.docks.left.tabs = ps,
                    DockSide::Right => self.docks.right.tabs = ps,
                    DockSide::Bottom => self.docks.bottom.tabs = ps,
                }
                proof {
                    assert(self@.dock(side).tabs.tabs =~= seq![q]);
                }
            },
            None => self.docks.set_visibility(side, DockVisibility::Hidden),
        }
    }

    /// After a restore, fill the open, empty docks from their default
    /// surfaces and hide those that have none (left, right, then bottom).
    pub fn populate_empty_docks(&mut self, stores: &mut AppStores)
        requires
            old(self).wf(),
            old(stores).wf(),
            P::room(old(stores).model(), 3),
        ensures
            final(self).wf(),
            final(stores).wf(),
            docks_populated(old(self)@, old(stores).model(), final(self)@, final(stores).model()),
    {
        let ghost v0 = self@;
        let ghost s0 = stores.model();
        proof {
            P::lemma_room_mono(s0, 3, 1);
        }
        self.populate_empty_dock(DockSide::Left, stores);
        let ghost v1 = self@;
        let ghost s1 = stores.model();
        proof {
            assert(P::room(s0, 2 + 1));
            assert(P::room(s1, 2));
            P::lemma_room_mono(s1, 2, 1);
        }
        self.populate_empty_dock(DockSide::Right, stores);
        let ghost v2 = self@;
        let ghost s2 = stores.model();
        proof {
            assert(P::room(s1, 1 + 1));
            assert(P::room(s2, 1));
        }
        self.populate_empty_dock(DockSide::Bottom, stores);
        proof {
            assert(dock_populated(v0, s0, DockSide::Left, v1, s1));
            assert(dock_populated(v1, s1, DockSide::Right, v2, s2));
        }
    }

    /// The dirty panels of this window: center panes in iteration order,
    /// then the left, right and bottom docks, each stack front to back.
    pub fn collect_dirty_panels(&self) -> (r: Vec<DirtyPanel>)
        requires
            self.wf(),
        ensures
            dirty_views(r@) == window_dirty(self@),
    {
        let mut out: Vec<DirtyPanel> = Vec::new();
        let ids = self.pane_ids();
        proof {
            assert(out@.map_values(|d: DirtyPanel| d.view()) =~= dirty_over(self@, ids@.take(0)));
        }
        let mut k: usize = 0;
        while k < ids.len()
            invariant
                self.wf(),
                k <= ids@.len(),
                out@.map_values(|d: DirtyPanel| d.view()) == dirty_over(self@, ids@.take(k as int)),
            decreases ids.len() - k,
        {
            let location = PanelLocation::Center(ids[k]);
            self.collect_dirty_at(location, &mut out);
            proof {
                assert(ids@.take(k + 1).drop_last() =~= ids@.take(k as int));
                assert(ids@.take(k + 1).last() == ids@[k as int]);
            }
            k = k + 1;
        }
        proof {
            assert(ids@.take(ids@.len() as int) =~= ids@);
        }
        self.collect_dirty_at(PanelLocation::Dock(DockSide::Left), &mut out);
        self.collect_dirty_at(PanelLocation::Dock(DockSide::Right), &mut out);
        self.collect_dirty_at(PanelLocation::Dock(DockSide::Bottom), &mut out);
        proof {
            assert(ascending_panes(self@, ids@));
            let o = pane_order(self@);
            lemma_increasing_unique(o, ids@);
        }
        out
    }

    fn collect_dirty_at(&self, location: PanelLocation, out: &mut Vec<DirtyPanel>)
        requires
            self.wf(),
        ensures
            final(out)@.map_values(|d: DirtyPanel| d.view()) == old(out)@.map_values(|d: DirtyPanel| d.view()) + dirty_at(self@, location),
    {
        let ghost before = out@.map_values(|d: DirtyPanel| d.view());
        match self.pane_ref(location) {
            None => {
                proof {
                    assert(before + dirty_at(self@, location) =~= before);
                }
            },
            Some(ps) => {
                let n = ps.tabs.len();
                let mut tab: usize = 0;
                while tab < n
                    invariant
                        n == ps.tabs@.len(),
                        tab <= n,
                        Some(ps@) == self@.pane_at(location),
                        out@.map_values(|d: DirtyPanel| d.view()) == before + dirty_upto(location, ps.tabs@, tab as int),
                    decreases n - tab,
                {
                    let panel = &ps.tabs[tab];
                    if panel.is_dirty() {
                        let message = match panel.close_request() {
                            crate::workspace::workspace_panel::CloseRequest::Confirm { message } => message,
                            crate::workspace::workspace_panel::CloseRequest::Allowed => String::new(),
                        };
                        let d = DirtyPanel { location, tab, title: panel.title(), message };
                        let ghost prev = out@;
                        out.push(d);
                        proof {
                            assert(out@.map_values(|d: DirtyPanel| d.view()) =~= prev.map_values(|d: DirtyPanel| d.view()).push(d.view()));
                        }
                    }
                    tab = tab + 1;
                }
            },
        }
    }
}


impl<P: Panel> Workspace<P> {
    /// The center panes in iteration (ascending id) order.
    pub fn pane_ids(&self) -> (r: Vec<Pane>)
        requires
            self.wf(),
        ensures
            r@.no_duplicates(),
            forall|p: Pane| #[trigger] r@.contains(p) <==> self@.grid.panes.contains_key(p),
            forall|i: int, j: int| 0 <= i < j < r@.len() ==> (#[trigger] r@[i]).0 < (#[trigger] r@[j]).0,
    {
        proof {
            self.panes.lemma_wf();
        }
        self.panes.pane_ids()
    }

    fn scratch_fill_one(&mut self, pane: Pane, surface: P::Surface, stores: &mut AppStores)
        requires
            old(self).wf(),
            old(stores).wf(),
            P::room(old(stores).model(), 1),
            old(self).scratch_surface == Some(surface),
        ensures
            final(self).wf(),
            final(stores).wf(),
            final(self).scratch_surface == Some(surface),
            scratch_step(old(self)@, old(stores).model(), pane, final(self)@, final(stores).model()),
            forall|n: nat|
                P::room(old(stores).model(), n + 1) ==> #[trigger] P::room(final(stores).model(), n),
    {
        proof {
            assert forall|n: nat| P::room(stores.model(), n + 1) implies #[trigger] P::room(stores.model(), n) by {
                P::lemma_room_mono(stores.model(), n + 1, n);
            }
        }
        let location = PanelLocation::Center(pane);
        let empty = match self.pane_ref(location) {
            Some(ps) => ps.is_empty(),
            None => false,
        };
        if empty {
            self.refill_pane(location, surface, stores);
        }
    }

    /// Refill every empty center pane from the scratch surface, in
    /// iteration order; the last one refilled takes focus. Nothing
    /// happens without a scratch surface.
    #[verifier::rlimit(40)]
    pub fn ensure_scratch_fallback(&mut self, stores: &mut AppStores)
        requires
            old(self).wf(),
            old(stores).wf(),
            P::room(old(stores).model(), old(self)@.grid.panes.dom().len()),
        ensures
            final(self).wf(),
            final(stores).wf(),
            scratch_fallback(old(self)@, old(stores).model(), final(self)@, final(stores).model()),
            forall|m: nat|
                P::room(old(stores).model(), m + old(self)@.grid.panes.dom().len()) ==> #[trigger] P::room(final(stores).model(), m),
    {
        let ghost v0 = self@;
        let ghost s0 = stores.model();
        let ids = self.pane_ids();
        proof {
            self.panes.lemma_wf();
            assert(self@.grid.panes.dom() =~= self.panes.model().panes.dom());
            ids@.unique_seq_to_set();
            assert(ids@.to_set() =~= v0.grid.panes.dom());
        }
        let ghost mut trace: Seq<(WorkspaceView<P>, StoresModel)> = seq![(v0, s0)];
        let surface = match self.scratch_surface {
            Some(surface) => surface,
            None => {
                proof {
                    let tr = Seq::new((ids@.len() + 1) as nat, |i: int| (v0, s0));
                    assert(scratch_trace(tr, ids@));
                    assert(tr[0] == (v0, s0));
                    assert(tr.last() == (v0, s0));
                    assert forall|m: nat| P::room(s0, m + v0.grid.panes.dom().len()) implies #[trigger] P::room(s0, m) by {
                        P::lemma_room_mono(s0, m + v0.grid.panes.dom().len(), m);
                    }
                }
                return;
            },
        };
        let mut k: usize = 0;
        while k < ids.len()
            invariant
                0 <= k <= ids@.len(),
                self.wf(),
                stores.wf(),
                self.scratch_surface == Some(surface),
                P::room(stores.model(), (ids@.len() - k) as nat),
                ids@.len() == v0.grid.panes.dom().len(),
                forall|m: nat| P::room(s0, m + ids@.len()) ==> #[trigger] P::room(stores.model(), (m + (ids@.len() - k)) as nat),
                trace.len() == k + 1,
                trace[0] == (v0, s0),
                trace.last() == (self@, stores.model()),
                forall|i: int|
                    0 <= i < k ==> scratch_step(trace[i].0, trace[i].1, #[trigger] ids@[i], trace[i + 1].0, trace[i + 1].1),
            decreases ids.len() - k,
        {
            let pane = ids[k];
            let ghost vm = self@;
            let ghost sm = stores.model();
            proof {
                P::lemma_room_mono(sm, (ids@.len() - k) as nat, 1);
                assert(((ids@.len() - k - 1) as nat) + 1 == (ids@.len() - k) as nat);
            }
            self.scratch_fill_one(pane, surface, stores);
            proof {
                assert forall|m: nat| P::room(s0, m + ids@.len()) implies #[trigger] P::room(stores.model(), (m + (ids@.len() - (k + 1))) as nat) by {
                    assert(P::room(sm, (m + (ids@.len() - k)) as nat));
                    assert(((m + (ids@.len() - (k + 1))) as nat) + 1 == (m + (ids@.len() - k)) as nat);
                }
                let old_trace = trace;
                trace = trace.push((self@, stores.model()));
                assert forall|i: int| 0 <= i < k + 1 implies scratch_step(trace[i].0, trace[i].1, #[trigger] ids@[i], trace[i + 1].0, trace[i + 1].1) by {
                    if i < k {
                        assert(trace[i] == old_trace[i]);
                        assert(trace[i + 1] == old_trace[i + 1]);
                    }
                }
            }
            k = k + 1;
        }
        proof {
            assert(scratch_trace(trace, ids@));
            assert forall|m: nat| P::room(s0, m + v0.grid.panes.dom().len()) implies #[trigger] P::room(stores.model(), m) by {
                assert(P::room(stores.model(), (m + (ids@.len() - k)) as nat));
            }
        }
    }
}


} // verus!
