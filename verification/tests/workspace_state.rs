use openzone::features::dummies::clock::ClockPanel;
use openzone::features::dummies::counter::{CounterMessage, CounterPanel};
use openzone::features::dummies::text::TextPanel;
use openzone::features::feature_panel::{FeatureMessage, FeaturePanel};
use openzone::features::scratch::{ScratchMessage, ScratchPanel};
use openzone::shared::design::ThemeMode;
use openzone::workspace::workspace_command::{Chord, Command, Mods};
use openzone::workspace::workspace_dock::{DockVisibility, Docks};
use openzone::workspace::workspace_drag::{
    Direction, DragState, DropTarget, PointBits, SplitPaneTarget, TabStripTarget,
};
use openzone::workspace::workspace_location::{DockSide, Pane, PanelLocation};
use openzone::workspace::workspace_pane_grid::{PaneDropTarget, Region, SplitAxis};
use openzone::workspace::workspace_pane_state::PaneState;
use openzone::workspace::workspace_panel::{Panel, PanelKind};
use openzone::workspace::workspace_state::{CloseConfirmation, Workspace, WorkspaceMessage};
use openzone::workspace::workspace_stores::{AppStores, CounterId};

type Ws = Workspace<FeaturePanel>;

fn three_tab_workspace() -> (Ws, AppStores) {
    let mut stores = AppStores::new();
    let tabs = vec![FeaturePanel::Counter(CounterPanel::new(&mut stores)), FeaturePanel::Text(TextPanel::new())];
    let workspace = Workspace::single_pane(PaneState::new(tabs), ThemeMode::Dark);
    (workspace, stores)
}

fn workspace_with_right_dock() -> (Ws, AppStores) {
    let mut stores = AppStores::new();
    let center = PaneState::new(vec![
        FeaturePanel::Counter(CounterPanel::new(&mut stores)),
        FeaturePanel::Text(TextPanel::new()),
    ]);
    let docks = Docks::new(
        PaneState::empty(),
        PaneState::new(vec![FeaturePanel::Clock(ClockPanel::new())]),
        PaneState::empty(),
    );
    let workspace = Workspace::with_docks(center, docks, ThemeMode::Dark);
    (workspace, stores)
}

fn first_pane(workspace: &Ws) -> Pane {
    workspace.pane_ids()[0]
}

fn only_center_location(workspace: &Ws) -> PanelLocation {
    PanelLocation::Center(first_pane(workspace))
}

fn center_pane(location: PanelLocation) -> Pane {
    match location {
        PanelLocation::Center(pane) => pane,
        PanelLocation::Dock(_) => panic!("expected center location"),
    }
}

fn increment() -> FeatureMessage {
    FeatureMessage::Counter(CounterMessage::Increment)
}

fn titles(workspace: &Ws, pane: Pane) -> Vec<String> {
    workspace.panes.get(pane).unwrap().tabs.iter().map(|t| t.title()).collect()
}

#[test]
fn workspace_state_lone_pane_is_focused_on_launch() {
    let (workspace, _stores) = three_tab_workspace();
    assert_eq!(workspace.focused, only_center_location(&workspace));
}

#[test]
fn workspace_state_tab_selected_changes_active_tab() {
    let (mut workspace, mut stores) = three_tab_workspace();
    let location = only_center_location(&workspace);
    workspace.update(WorkspaceMessage::TabSelected { location, tab: 1 }, &mut stores);
    assert_eq!(workspace.panes.get(center_pane(location)).unwrap().active, 1);
}

#[test]
fn workspace_state_tab_selected_also_focuses_its_pane() {
    let (mut workspace, mut stores) = three_tab_workspace();
    let location = only_center_location(&workspace);
    workspace.update(WorkspaceMessage::TabSelected { location, tab: 1 }, &mut stores);
    assert!(workspace.is_focused(location));
}

#[test]
fn workspace_state_out_of_range_tab_selection_is_ignored() {
    let (mut workspace, mut stores) = three_tab_workspace();
    let location = only_center_location(&workspace);
    workspace.update(WorkspaceMessage::TabSelected { location, tab: 99 }, &mut stores);
    assert_eq!(workspace.panes.get(center_pane(location)).unwrap().active, 0);
}

#[test]
fn workspace_state_pane_clicked_sets_focus() {
    let (mut workspace, mut stores) = three_tab_workspace();
    let pane = first_pane(&workspace);
    workspace.update(WorkspaceMessage::PaneClicked(pane), &mut stores);
    assert_eq!(workspace.focused, PanelLocation::Center(pane));
}

#[test]
fn workspace_state_counter_intent_lifts_to_a_single_store_mutation() {
    let (mut workspace, mut stores) = three_tab_workspace();
    let location = only_center_location(&workspace);
    workspace.update(WorkspaceMessage::Panel { location, tab: 0, message: increment() }, &mut stores);
    assert_eq!(stores.counter.len(), 1);
    let snapshot =
        workspace.panes.get(first_pane(&workspace)).unwrap().tabs[0].snapshot(&stores).expect("durable");
    assert_eq!(snapshot.count, Some(1));
}

#[test]
fn workspace_state_panel_message_to_stale_tab_is_noop() {
    let (mut workspace, mut stores) = three_tab_workspace();
    let location = only_center_location(&workspace);
    workspace.update(WorkspaceMessage::Panel { location, tab: 50, message: increment() }, &mut stores);
    let snapshot =
        workspace.panes.get(first_pane(&workspace)).unwrap().tabs[0].snapshot(&stores).expect("durable");
    assert_eq!(snapshot.count, Some(0));
}

#[test]
fn open_dock_opens_and_focuses() {
    let (mut workspace, mut stores) = workspace_with_right_dock();
    workspace.apply_command(Command::OpenDock(DockSide::Right), &mut stores);
    assert!(workspace.docks.right.is_open());
    assert_eq!(workspace.focused, PanelLocation::Dock(DockSide::Right));
}

#[test]
fn hide_dock_returns_focus_to_workbench() {
    let (mut workspace, mut stores) = workspace_with_right_dock();
    workspace.apply_command(Command::OpenDock(DockSide::Right), &mut stores);
    workspace.apply_command(Command::HideDock(DockSide::Right), &mut stores);
    assert!(workspace.docks.right.is_hidden());
    assert!(matches!(workspace.focused, PanelLocation::Center(_)));
}

#[test]
fn collapse_dock_keeps_its_tabs() {
    let (mut workspace, mut stores) = workspace_with_right_dock();
    workspace.apply_command(Command::OpenDock(DockSide::Right), &mut stores);
    workspace.apply_command(Command::CollapseDock(DockSide::Right), &mut stores);
    assert!(workspace.docks.right.is_collapsed());
    assert_eq!(workspace.docks.right.tabs.len(), 1);
    assert!(matches!(workspace.focused, PanelLocation::Center(_)));
}

#[test]
fn collapse_leaves_a_hidden_dock_hidden() {
    let (mut workspace, mut stores) = workspace_with_right_dock();
    assert!(workspace.docks.right.is_hidden());
    workspace.apply_command(Command::CollapseDock(DockSide::Right), &mut stores);
    assert!(workspace.docks.right.is_hidden());
    assert_eq!(workspace.docks.right.tabs.len(), 1);
}

#[test]
fn workspace_state_dock_focused_sets_focus() {
    let (mut workspace, mut stores) = workspace_with_right_dock();
    workspace.update(WorkspaceMessage::DockFocused(PanelLocation::Dock(DockSide::Right)), &mut stores);
    assert_eq!(workspace.focused, PanelLocation::Dock(DockSide::Right));
}

#[test]
fn workspace_state_tab_selected_in_dock_changes_active_tab() {
    let (mut workspace, mut stores) = workspace_with_right_dock();
    let location = PanelLocation::Dock(DockSide::Right);
    workspace.update(WorkspaceMessage::TabSelected { location, tab: 0 }, &mut stores);
    assert_eq!(workspace.docks.right.tabs.active, 0);
    assert_eq!(workspace.focused, location);
}

#[test]
fn workspace_state_split_focused_creates_second_center_pane() {
    let (mut workspace, mut stores) = three_tab_workspace();
    assert_eq!(workspace.panes.len(), 1);
    workspace.apply_command(Command::SplitFocused, &mut stores);
    assert_eq!(workspace.panes.len(), 2);
    assert!(matches!(workspace.focused, PanelLocation::Center(_)));
}

#[test]
fn workspace_state_split_focused_is_noop_when_dock_is_focused() {
    let (mut workspace, mut stores) = workspace_with_right_dock();
    workspace.focused = PanelLocation::Dock(DockSide::Right);
    workspace.apply_command(Command::SplitFocused, &mut stores);
    assert_eq!(workspace.panes.len(), 1);
}

#[test]
fn workspace_state_close_active_tab_removes_tab() {
    let (mut workspace, mut stores) = three_tab_workspace();
    let location = only_center_location(&workspace);
    workspace.update(WorkspaceMessage::TabSelected { location, tab: 1 }, &mut stores);
    workspace.apply_command(Command::CloseActiveTab, &mut stores);
    let pane = center_pane(location);
    assert_eq!(workspace.panes.get(pane).unwrap().len(), 1);
    assert_eq!(workspace.panes.get(pane).unwrap().tabs[0].title(), "Counter");
}

#[test]
fn workspace_state_closing_counter_tab_releases_store_slot() {
    let (mut workspace, mut stores) = three_tab_workspace();
    let location = only_center_location(&workspace);
    workspace.update(WorkspaceMessage::TabSelected { location, tab: 0 }, &mut stores);
    assert_eq!(stores.counter.len(), 1);
    workspace.apply_command(Command::CloseActiveTab, &mut stores);
    assert_eq!(stores.counter.len(), 0);
}

#[test]
fn workspace_state_closing_last_tab_collapses_center_pane() {
    let (mut workspace, mut stores) = three_tab_workspace();
    let first = only_center_location(&workspace);
    workspace.apply_command(Command::SplitFocused, &mut stores);
    let second = workspace.focused;
    workspace.focused = first;
    workspace.apply_command(Command::CloseActiveTab, &mut stores);
    workspace.apply_command(Command::CloseActiveTab, &mut stores);
    assert_eq!(workspace.panes.len(), 1);
    assert_eq!(workspace.focused, second);
}

#[test]
fn workspace_state_closing_last_tab_in_only_pane_collapses_dock() {
    let (mut workspace, mut stores) = workspace_with_right_dock();
    workspace.focused = PanelLocation::Dock(DockSide::Right);
    workspace.docks.right.visibility = DockVisibility::Open;
    workspace.apply_command(Command::CloseActiveTab, &mut stores);
    assert!(workspace.docks.right.tabs.is_empty());
    assert!(workspace.docks.right.is_hidden());
}

#[test]
fn closing_last_tab_in_focused_dock_returns_focus_to_workbench() {
    let (mut workspace, mut stores) = workspace_with_right_dock();
    workspace.focused = PanelLocation::Dock(DockSide::Right);
    workspace.docks.right.visibility = DockVisibility::Open;
    workspace.apply_command(Command::CloseActiveTab, &mut stores);
    assert!(workspace.docks.right.is_hidden());
    assert!(matches!(workspace.focused, PanelLocation::Center(_)));
}

#[test]
fn workspace_state_key_resolves_to_split_command() {
    let (mut workspace, mut stores) = three_tab_workspace();
    workspace.update(WorkspaceMessage::Key(Chord::ch('d', Mods::cmd())), &mut stores);
    assert_eq!(workspace.panes.len(), 2);
}

#[test]
fn workspace_state_key_captured_by_text_panel_does_not_close_tab() {
    let (mut workspace, mut stores) = three_tab_workspace();
    let location = only_center_location(&workspace);
    workspace.update(WorkspaceMessage::TabSelected { location, tab: 1 }, &mut stores);
    workspace.update(WorkspaceMessage::Key(Chord::ch('a', Mods::none())), &mut stores);
    assert_eq!(workspace.panes.get(center_pane(location)).unwrap().len(), 2);
}

#[test]
fn workspace_state_command_shortcut_reaches_keymap_while_text_is_focused() {
    let (mut workspace, mut stores) = three_tab_workspace();
    let location = only_center_location(&workspace);
    workspace.update(WorkspaceMessage::TabSelected { location, tab: 1 }, &mut stores);
    workspace.update(WorkspaceMessage::Key(Chord::ch('w', Mods::cmd())), &mut stores);
    assert_eq!(workspace.panes.get(center_pane(location)).unwrap().len(), 1);
}

#[test]
fn close_confirmation_blocks_underlying_workspace_messages() {
    let (mut workspace, mut stores) = three_tab_workspace();
    let location = only_center_location(&workspace);
    workspace.close_confirmation = Some(CloseConfirmation {
        location,
        tab: 0,
        message: String::from("Discard changes to untitled?"),
    });
    workspace.update(WorkspaceMessage::TabSelected { location, tab: 1 }, &mut stores);
    workspace.update(WorkspaceMessage::Key(Chord::ch('w', Mods::cmd())), &mut stores);
    let pane_state = workspace.panes.get(center_pane(location)).unwrap();
    assert_eq!(pane_state.active, 0);
    assert_eq!(pane_state.len(), 2);
    assert!(workspace.close_confirmation.is_some());
}

#[test]
fn discard_confirmation_closes_stored_tab_after_blocked_input() {
    let (mut workspace, mut stores) = three_tab_workspace();
    let location = only_center_location(&workspace);
    workspace.close_confirmation = Some(CloseConfirmation {
        location,
        tab: 0,
        message: String::from("Discard changes to untitled?"),
    });
    workspace.update(WorkspaceMessage::ConfirmCloseDiscard { location, tab: 1 }, &mut stores);
    let pane_state = workspace.panes.get(center_pane(location)).unwrap();
    assert_eq!(pane_state.len(), 1);
    assert_eq!(pane_state.tabs[0].title(), "Text");
    assert!(workspace.close_confirmation.is_none());
}

#[test]
fn cancel_confirmation_keeps_the_tab() {
    let (mut workspace, mut stores) = three_tab_workspace();
    let location = only_center_location(&workspace);
    workspace.close_confirmation = Some(CloseConfirmation {
        location,
        tab: 0,
        message: String::from("Discard changes to untitled?"),
    });
    workspace.update(WorkspaceMessage::ConfirmCloseCancel, &mut stores);
    assert!(workspace.close_confirmation.is_none());
    assert_eq!(workspace.panes.get(center_pane(location)).unwrap().len(), 2);
}

#[test]
fn workspace_state_clock_tick_updates_store_once_for_all_observers() {
    let mut stores = AppStores::new();
    let center = PaneState::new(vec![FeaturePanel::Clock(ClockPanel::new()), FeaturePanel::Clock(ClockPanel::new())]);
    let docks = Docks::new(
        PaneState::empty(),
        PaneState::new(vec![FeaturePanel::Clock(ClockPanel::new())]),
        PaneState::empty(),
    );
    let workspace = Workspace::with_docks(center, docks, ThemeMode::Dark);
    stores.clock.tick();
    stores.clock.tick();
    assert_eq!(stores.clock.ticks(), 2);
    let center_pane = workspace.panes.get(first_pane(&workspace)).unwrap();
    let center_a = center_pane.tabs[0].snapshot(&stores).expect("durable");
    let center_b = center_pane.tabs[1].snapshot(&stores).expect("durable");
    let dock_a = workspace.docks.right.tabs.tabs[0].snapshot(&stores).expect("durable");
    assert_eq!(center_a, center_b);
    assert_eq!(center_a, dock_a);
    assert_eq!(center_a.ticks, Some(2));
}

fn workspace_with_shared_counter(counter_id: CounterId) -> Ws {
    let center = PaneState::new(vec![
        FeaturePanel::Counter(CounterPanel::with_id(counter_id)),
        FeaturePanel::Clock(ClockPanel::new()),
    ]);
    Workspace::single_pane(center, ThemeMode::Dark)
}

#[test]
fn workspace_state_two_workspaces_observe_same_counter_after_single_mutation() {
    let mut stores = AppStores::new();
    let counter_id = stores.counter.create();
    let mut workspace_a = workspace_with_shared_counter(counter_id);
    let workspace_b = workspace_with_shared_counter(counter_id);
    let location_a = only_center_location(&workspace_a);
    workspace_a.update(WorkspaceMessage::Panel { location: location_a, tab: 0, message: increment() }, &mut stores);
    let snapshot_a =
        workspace_a.panes.get(first_pane(&workspace_a)).unwrap().tabs[0].snapshot(&stores).expect("durable");
    let snapshot_b =
        workspace_b.panes.get(first_pane(&workspace_b)).unwrap().tabs[0].snapshot(&stores).expect("durable");
    assert_eq!(snapshot_a, snapshot_b);
    assert_eq!(snapshot_a.count, Some(1));
}

#[test]
fn workspace_state_clock_store_tick_reaches_two_workspaces() {
    let mut stores = AppStores::new();
    let workspace_a = workspace_with_shared_counter(stores.counter.create());
    let workspace_b = Workspace::single_pane(PaneState::new(vec![FeaturePanel::Clock(ClockPanel::new())]), ThemeMode::Dark);
    stores.clock.tick();
    stores.clock.tick();
    stores.clock.tick();
    let clock_a = workspace_a.panes.get(first_pane(&workspace_a)).unwrap().tabs[1].snapshot(&stores).expect("durable");
    let clock_b = workspace_b.panes.get(first_pane(&workspace_b)).unwrap().tabs[0].snapshot(&stores).expect("durable");
    assert_eq!(clock_a, clock_b);
    assert_eq!(clock_a.ticks, Some(3));
}

#[test]
fn workspace_state_tab_drag_started_sets_drag_state() {
    let (mut workspace, mut stores) = three_tab_workspace();
    let location = only_center_location(&workspace);
    workspace.update(WorkspaceMessage::TabDragStarted { location, tab: 0 }, &mut stores);
    assert!(workspace.drag_state.is_some());
    let drag = workspace.drag_state.as_ref().unwrap();
    assert_eq!(drag.source_location, location);
    assert_eq!(drag.source_tab, 0);
    assert!(workspace.is_tab_drag_active());
}

#[test]
fn workspace_state_cursor_moved_updates_drop_target() {
    let (mut workspace, mut stores) = three_tab_workspace();
    let location = only_center_location(&workspace);
    workspace.update(WorkspaceMessage::TabDragStarted { location, tab: 0 }, &mut stores);
    let cursor = PointBits { x_bits: 400.0f32.to_bits(), y_bits: 350.0f32.to_bits() };
    workspace.update(
        WorkspaceMessage::CursorMoved { cursor, target: DropTarget::TabStrip(TabStripTarget { location, index: 1 }) },
        &mut stores,
    );
    let drag = workspace.drag_state.as_ref().unwrap();
    assert!(matches!(drag.target, DropTarget::TabStrip(_)));
    assert!(drag.pointer_moved);
    assert_eq!(drag.cursor, cursor);
}

#[test]
fn workspace_state_tab_drag_dropped_moves_tab_to_dock() {
    let (mut workspace, mut stores) = three_tab_workspace();
    let location = only_center_location(&workspace);
    workspace.update(WorkspaceMessage::TabDragStarted { location, tab: 0 }, &mut stores);
    workspace.drag_state.as_mut().unwrap().target = DropTarget::Dock(DockSide::Right);
    workspace.update(WorkspaceMessage::TabDragDropped, &mut stores);
    assert!(workspace.drag_state.is_none());
    assert!(workspace.docks.right.is_open());
    assert_eq!(workspace.docks.right.tabs.len(), 1);
    assert_eq!(workspace.docks.right.tabs.tabs[0].title(), "Counter");
    assert_eq!(workspace.panes.get(center_pane(location)).unwrap().len(), 1);
}

#[test]
fn workspace_state_tab_drag_dropped_splits_pane() {
    let (mut workspace, mut stores) = three_tab_workspace();
    let location = only_center_location(&workspace);
    workspace.update(WorkspaceMessage::TabDragStarted { location, tab: 1 }, &mut stores);
    let pane = center_pane(location);
    workspace.drag_state.as_mut().unwrap().target =
        DropTarget::SplitPane(SplitPaneTarget { pane, direction: Direction::Right });
    workspace.update(WorkspaceMessage::TabDragDropped, &mut stores);
    assert!(workspace.drag_state.is_none());
    assert_eq!(workspace.panes.len(), 2);
    assert!(matches!(workspace.focused, PanelLocation::Center(_)));
}

#[test]
fn workspace_state_tab_drag_dropped_none_queues_torn_off_panel() {
    let (mut workspace, mut stores) = three_tab_workspace();
    let location = only_center_location(&workspace);
    workspace.update(WorkspaceMessage::TabDragStarted { location, tab: 0 }, &mut stores);
    {
        let drag = workspace.drag_state.as_mut().unwrap();
        drag.target = DropTarget::Nowhere;
        drag.pointer_moved = true;
    }
    workspace.update(WorkspaceMessage::TabDragDropped, &mut stores);
    assert!(workspace.drag_state.is_none());
    let torn = workspace.take_torn_off_panel().expect("tear-off should queue the panel");
    assert_eq!(torn.title(), "Counter");
    let pane = center_pane(location);
    assert_eq!(workspace.panes.get(pane).unwrap().len(), 1);
    assert_eq!(workspace.panes.get(pane).unwrap().tabs[0].title(), "Text");
    assert!(workspace.take_torn_off_panel().is_none());
}

#[test]
fn workspace_state_tab_drag_reorder_within_same_pane_adjusts_insert_index() {
    let mut stores = AppStores::new();
    let tabs = vec![
        FeaturePanel::Counter(CounterPanel::new(&mut stores)),
        FeaturePanel::Text(TextPanel::new()),
        FeaturePanel::Clock(ClockPanel::new()),
    ];
    let mut workspace = Workspace::single_pane(PaneState::new(tabs), ThemeMode::Dark);
    let location = only_center_location(&workspace);
    workspace.update(WorkspaceMessage::TabDragStarted { location, tab: 0 }, &mut stores);
    {
        let drag = workspace.drag_state.as_mut().unwrap();
        drag.target = DropTarget::TabStrip(TabStripTarget { location, index: 2 });
        drag.pointer_moved = true;
    }
    workspace.update(WorkspaceMessage::TabDragDropped, &mut stores);
    assert_eq!(titles(&workspace, center_pane(location)), vec!["Text", "Counter", "Clock"]);
}

#[test]
fn workspace_state_tab_drag_dropped_without_movement_selects_tab() {
    let (mut workspace, mut stores) = three_tab_workspace();
    let location = only_center_location(&workspace);
    workspace.update(WorkspaceMessage::TabDragStarted { location, tab: 1 }, &mut stores);
    workspace.update(WorkspaceMessage::TabDragDropped, &mut stores);
    assert!(workspace.drag_state.is_none());
    let pane = center_pane(location);
    assert_eq!(workspace.panes.get(pane).unwrap().len(), 2);
    assert_eq!(workspace.panes.get(pane).unwrap().active, 1);
    assert_eq!(workspace.focused, location);
}

#[test]
fn workspace_state_tab_drag_split_failure_restores_panel() {
    let (mut workspace, mut stores) = three_tab_workspace();
    let location = only_center_location(&workspace);
    workspace.apply_command(Command::SplitFocused, &mut stores);
    let panes = workspace.pane_ids();
    let stale_pane = panes[1];
    workspace.panes.close(stale_pane);
    workspace.update(WorkspaceMessage::TabDragStarted { location, tab: 0 }, &mut stores);
    workspace.drag_state.as_mut().unwrap().target =
        DropTarget::SplitPane(SplitPaneTarget { pane: stale_pane, direction: Direction::Right });
    workspace.drag_state.as_mut().unwrap().pointer_moved = true;
    workspace.update(WorkspaceMessage::TabDragDropped, &mut stores);
    let pane = center_pane(location);
    assert_eq!(workspace.panes.get(pane).unwrap().len(), 2);
    assert_eq!(workspace.panes.get(pane).unwrap().tabs[0].title(), "Counter");
}

#[test]
fn workspace_state_extract_dragged_panel_removes_source_tab() {
    let (mut workspace, mut stores) = three_tab_workspace();
    let location = only_center_location(&workspace);
    workspace.update(WorkspaceMessage::TabDragStarted { location, tab: 0 }, &mut stores);
    let drag = *workspace.drag_state.as_ref().unwrap();
    let panel = workspace.extract_dragged_panel(&drag).expect("panel should be extracted");
    assert_eq!(panel.title(), "Counter");
    assert_eq!(workspace.panes.get(center_pane(location)).unwrap().len(), 1);
}

#[test]
fn workspace_state_incoming_panel_drop_inserts_into_target_tab_strip() {
    let mut stores = AppStores::new();
    let mut target = Workspace::single_pane(PaneState::new(vec![FeaturePanel::Text(TextPanel::new())]), ThemeMode::Dark);
    let location = only_center_location(&target);
    let panel = FeaturePanel::Counter(CounterPanel::new(&mut stores));
    assert!(target
        .apply_incoming_panel_drop(panel, DropTarget::TabStrip(TabStripTarget { location, index: 1 }))
        .is_none());
    assert_eq!(titles(&target, center_pane(location)), vec!["Text", "Counter"]);
}

#[test]
fn workspace_state_incoming_panel_drop_returns_panel_for_missing_pane() {
    let mut stores = AppStores::new();
    let mut target = Workspace::single_pane(PaneState::new(vec![FeaturePanel::Text(TextPanel::new())]), ThemeMode::Dark);
    let pane0 = first_pane(&target);
    let missing_pane = target.panes.split(SplitAxis::Vertical, pane0, PaneState::empty()).expect("split for stale pane handle");
    target.panes.close(missing_pane);
    let panel = FeaturePanel::Counter(CounterPanel::new(&mut stores));
    let failed = target.apply_incoming_panel_drop(
        panel,
        DropTarget::TabStrip(TabStripTarget { location: PanelLocation::Center(missing_pane), index: 0 }),
    );
    assert_eq!(failed.unwrap().title(), "Counter");
}

#[test]
fn workspace_state_native_pane_grid_drag_still_works() {
    let (mut workspace, mut stores) = three_tab_workspace();
    workspace.apply_command(Command::SplitFocused, &mut stores);
    assert_eq!(workspace.panes.len(), 2);
    let panes = workspace.pane_ids();
    workspace.update(
        WorkspaceMessage::PaneDropped { pane: panes[0], target: PaneDropTarget::Pane(panes[1], Region::Center) },
        &mut stores,
    );
    assert_eq!(workspace.panes.len(), 2);
    assert_eq!(workspace.focused, PanelLocation::Center(panes[0]));
}

#[test]
fn local_drag_helpers_restore_and_clean_up() {
    let (mut workspace, mut stores) = three_tab_workspace();
    let location = only_center_location(&workspace);
    let drag = DragState::new(location, 1);
    let panel = workspace.extract_dragged_panel(&drag).expect("tab exists");
    assert_eq!(workspace.panes.get(center_pane(location)).unwrap().len(), 1);
    workspace.restore_dragged_panel(location, 1, panel);
    assert_eq!(titles(&workspace, center_pane(location)), vec!["Counter", "Text"]);
    workspace.cleanup_after_drag_source(location, &mut stores);
    assert_eq!(workspace.panes.len(), 1);
}

fn workspace_with_empty_docks() -> (Ws, AppStores) {
    let stores = AppStores::new();
    let center = PaneState::new(vec![FeaturePanel::Text(TextPanel::new())]);
    let workspace = Workspace::with_docks(center, Docks::empty(), ThemeMode::Dark);
    (workspace, stores)
}

#[test]
fn open_empty_dock_without_factory_leaves_it_empty() {
    let (mut workspace, mut stores) = workspace_with_empty_docks();
    workspace.apply_command(Command::OpenDock(DockSide::Right), &mut stores);
    assert!(workspace.docks.right.is_open());
    assert!(workspace.docks.right.is_empty());
    assert!(workspace.focused.is_center());
}

#[test]
fn open_empty_dock_with_factory_populates_default_surface() {
    let (mut workspace, mut stores) = workspace_with_empty_docks();
    workspace.set_dock_factory(DockSide::Right, PanelKind::Text);
    workspace.apply_command(Command::OpenDock(DockSide::Right), &mut stores);
    assert!(workspace.docks.right.is_open());
    assert_eq!(workspace.docks.right.tabs.len(), 1);
    assert_eq!(workspace.focused, PanelLocation::Dock(DockSide::Right));
}

#[test]
fn has_dock_factory_reports_factory_presence() {
    let (mut workspace, _stores) = workspace_with_empty_docks();
    assert!(!workspace.has_dock_factory(DockSide::Left));
    workspace.set_dock_factory(DockSide::Left, PanelKind::Text);
    assert!(workspace.has_dock_factory(DockSide::Left));
    assert!(!workspace.has_dock_factory(DockSide::Right));
}

#[test]
fn populate_empty_docks_fills_open_empty_docks_from_factories() {
    let (mut workspace, mut stores) = workspace_with_empty_docks();
    workspace.docks.left.visibility = DockVisibility::Open;
    workspace.docks.right.visibility = DockVisibility::Open;
    workspace.set_dock_factory(DockSide::Left, PanelKind::Text);
    workspace.set_dock_factory(DockSide::Right, PanelKind::Clock);
    workspace.populate_empty_docks(&mut stores);
    assert_eq!(workspace.docks.left.tabs.len(), 1);
    assert_eq!(workspace.docks.right.tabs.len(), 1);
    assert!(workspace.docks.bottom.is_empty());
}

#[test]
fn populate_empty_docks_hides_open_empty_docks_without_factory() {
    let (mut workspace, mut stores) = workspace_with_empty_docks();
    workspace.docks.right.visibility = DockVisibility::Open;
    workspace.populate_empty_docks(&mut stores);
    assert!(workspace.docks.right.is_hidden());
}

#[test]
fn open_dock_with_existing_tabs_ignores_factory() {
    let (mut workspace, mut stores) = workspace_with_right_dock();
    workspace.set_dock_factory(DockSide::Right, PanelKind::Text);
    workspace.apply_command(Command::OpenDock(DockSide::Right), &mut stores);
    assert_eq!(workspace.docks.right.tabs.len(), 1);
    assert!(workspace.docks.right.is_open());
}

#[test]
fn toggle_theme_flips_mode() {
    let (mut workspace, mut stores) = three_tab_workspace();
    workspace.update(WorkspaceMessage::ToggleTheme, &mut stores);
    assert_eq!(workspace.theme_mode, ThemeMode::Light);
    workspace.toggle_theme();
    assert_eq!(workspace.theme_mode, ThemeMode::Dark);
}

#[test]
fn tab_title_reads_the_panel() {
    let (workspace, _stores) = workspace_with_right_dock();
    assert_eq!(workspace.tab_title(PanelLocation::Dock(DockSide::Right), 0), Some("Clock".to_string()));
    assert_eq!(workspace.tab_title(PanelLocation::Dock(DockSide::Left), 0), None);
}

#[test]
fn scratch_fallback_refills_an_emptied_center() {
    let mut stores = AppStores::new();
    let mut workspace = Workspace::single_pane(PaneState::new(vec![FeaturePanel::Text(TextPanel::new())]), ThemeMode::Dark);
    workspace.set_scratch_factory(PanelKind::Scratch);
    let location = only_center_location(&workspace);
    workspace.close_tab_immediately(location, 0, &mut stores);
    workspace.ensure_scratch_fallback(&mut stores);
    assert_eq!(titles(&workspace, first_pane(&workspace)), vec!["untitled"]);
}

#[test]
fn dirty_scratch_is_collected_before_close() {
    let mut stores = AppStores::new();
    let mut workspace = Workspace::single_pane(
        PaneState::new(vec![FeaturePanel::Scratch(ScratchPanel::new())]),
        ThemeMode::Dark,
    );
    assert!(workspace.collect_dirty_panels().is_empty());
    let location = only_center_location(&workspace);
    workspace.update(
        WorkspaceMessage::Panel {
            location,
            tab: 0,
            message: FeatureMessage::Scratch(ScratchMessage::Edited { text: String::from("a"), line: 0, column: 1 }),
        },
        &mut stores,
    );
    let dirty = workspace.collect_dirty_panels();
    assert_eq!(dirty.len(), 1);
    assert_eq!(dirty[0].title, "untitled");
    assert_eq!(dirty[0].message, "Discard changes to untitled?");
    workspace.request_close(location, 0, &mut stores);
    assert!(workspace.close_confirmation.is_some());
}
