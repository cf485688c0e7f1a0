use openzone::features::dummies::clock::ClockPanel;
use openzone::features::dummies::counter::CounterPanel;
use openzone::features::dummies::text::TextPanel;
use openzone::features::feature_panel::{FeatureMessage, FeaturePanel};
use openzone::features::scratch::{ScratchMessage, ScratchPanel};
use openzone::shared::design::ThemeMode;
use openzone::workspace::workspace_command::Command;
use openzone::workspace::workspace_command_palette::default_command_items;
use openzone::workspace::workspace_dock::{DockVisibility, Docks};
use openzone::workspace::workspace_location::{DockSide, PanelLocation};
use openzone::workspace::workspace_pane_state::PaneState;
use openzone::workspace::workspace_state::{Workspace, WorkspaceMessage};
use openzone::workspace::workspace_stores::AppStores;
use openzone::workspace::workspace_view_smoke::{
    probe_focus_segment, probe_shell, tab_close_visible, tab_display_title, tab_titles_at,
    CollapseControlAction, HideControlAction,
};

fn three_tab_workspace() -> (Workspace<FeaturePanel>, AppStores) {
    let mut stores = AppStores::new();
    let tabs = vec![
        FeaturePanel::Counter(CounterPanel::new(&mut stores)),
        FeaturePanel::Text(TextPanel::new()),
    ];
    let workspace = Workspace::single_pane(PaneState::new(tabs), ThemeMode::Dark);
    (workspace, stores)
}

fn workspace_with_right_dock() -> (Workspace<FeaturePanel>, AppStores) {
    let mut stores = AppStores::new();
    let center = PaneState::new(vec![
        FeaturePanel::Counter(CounterPanel::new(&mut stores)),
        FeaturePanel::Text(TextPanel::new()),
    ]);
    let docks = Docks::new(
        PaneState::empty(),
        PaneState::new(vec![FeaturePanel::Clock(ClockPanel::new())]),
        PaneState::empty(),
    );
    let workspace = Workspace::with_docks(center, docks, ThemeMode::Dark);
    (workspace, stores)
}

fn only_center_location(workspace: &Workspace<FeaturePanel>) -> PanelLocation {
    PanelLocation::Center(workspace.pane_ids()[0])
}

#[test]
fn default_workspace_has_hidden_docks_and_no_overlays() {
    let (workspace, _stores) = three_tab_workspace();
    let probe = probe_shell(&workspace);
    assert_eq!(probe.docks.left.visibility, DockVisibility::Hidden);
    assert!(!probe.docks.left.layout_visible);
    assert!(!probe.overlays.drop_overlay);
    assert!(!probe.overlays.palette_open);
    assert!(!probe.overlays.palette_has_backdrop);
    assert!(!probe.overlays.close_confirmation);
    assert!(probe.tab_chrome.drag_source_hidden.is_none());
    assert!(probe.tab_chrome.hovered_tab.is_none());
    assert_eq!(probe.status_bar.focus_segment, "Focus: Center / Counter");
    assert!(!probe.dock_strip.conversation.collapse_visible);
    assert!(!probe.dock_strip.conversation.hide_visible);
}

#[test]
fn open_dock_renders_body_not_rail() {
    let (mut workspace, mut stores) = workspace_with_right_dock();
    workspace.apply_command(Command::OpenDock(DockSide::Right), &mut stores);
    let probe = probe_shell(&workspace);
    assert!(probe.docks.right.body_visible);
    assert!(!probe.docks.right.rail_visible);
    assert_eq!(probe.docks.right.visibility, DockVisibility::Open);
    let controls = &probe.dock_strip.conversation;
    assert!(controls.collapse_visible);
    assert!(controls.hide_visible);
    assert!(controls.collapse_enabled);
    assert!(controls.hide_enabled);
    assert_eq!(controls.collapse_action, CollapseControlAction::Collapse);
    assert_eq!(controls.hide_action, HideControlAction::Hide);
}

#[test]
fn collapsed_dock_renders_rail_not_body() {
    let (mut workspace, _stores) = workspace_with_right_dock();
    workspace.docks.set_visibility(DockSide::Right, DockVisibility::Collapsed);
    let probe = probe_shell(&workspace);
    assert!(!probe.docks.right.body_visible);
    assert!(probe.docks.right.rail_visible);
    let controls = &probe.dock_strip.conversation;
    assert!(!controls.collapse_visible);
    assert!(!controls.hide_visible);
    assert_eq!(controls.collapse_action, CollapseControlAction::Disabled);
    assert_eq!(controls.hide_action, HideControlAction::Disabled);
}

#[test]
fn tab_display_title_matches_dirty_dot_logic() {
    let panel = FeaturePanel::Text(TextPanel::new());
    assert_eq!(tab_display_title(&panel), "Text");
    let mut dirty = ScratchPanel::new();
    dirty.update(ScratchMessage::Edited { text: String::from("x"), line: 0, column: 1 });
    assert_eq!(tab_display_title(&FeaturePanel::Scratch(dirty)), "• untitled");
}

#[test]
fn tab_close_visible_for_active_tab() {
    let (workspace, _stores) = three_tab_workspace();
    let location = only_center_location(&workspace);
    assert!(tab_close_visible(&workspace, location, 0));
    assert!(!tab_close_visible(&workspace, location, 1));
}

#[test]
fn tab_close_visible_for_hovered_tab() {
    let (mut workspace, mut stores) = three_tab_workspace();
    let location = only_center_location(&workspace);
    workspace.update(WorkspaceMessage::TabSelected { location, tab: 1 }, &mut stores);
    workspace.update(WorkspaceMessage::TabHoverChanged { location: Some((location, 0)) }, &mut stores);
    assert!(tab_close_visible(&workspace, location, 0));
    assert!(tab_close_visible(&workspace, location, 1));
}

#[test]
fn palette_open_is_reflected_in_overlay_probe() {
    let (mut workspace, mut stores) = three_tab_workspace();
    workspace.all_commands = default_command_items();
    workspace.update(WorkspaceMessage::TogglePalette, &mut stores);
    let probe = probe_shell(&workspace);
    assert!(probe.overlays.palette_open);
    assert!(!probe.overlays.palette_has_backdrop);
    assert!(!probe.overlays.close_confirmation);
}

#[test]
fn close_confirmation_is_reflected_in_overlay_probe() {
    let mut stores = AppStores::new();
    let mut workspace =
        Workspace::single_pane(PaneState::new(vec![FeaturePanel::Scratch(ScratchPanel::new())]), ThemeMode::Dark);
    let location = only_center_location(&workspace);
    workspace.update(
        WorkspaceMessage::Panel {
            location,
            tab: 0,
            message: FeatureMessage::Scratch(ScratchMessage::Edited { text: String::from("a"), line: 0, column: 1 }),
        },
        &mut stores,
    );
    workspace.update(WorkspaceMessage::TabCloseRequested { location, tab: 0 }, &mut stores);
    let probe = probe_shell(&workspace);
    assert!(probe.overlays.close_confirmation);
    assert!(!probe.overlays.palette_open);
    assert!(!probe.overlays.palette_has_backdrop);
}

#[test]
fn drag_source_is_hidden_from_tab_titles() {
    let (mut workspace, _stores) = three_tab_workspace();
    let location = only_center_location(&workspace);
    workspace.update(WorkspaceMessage::TabDragStarted { location, tab: 0 }, &mut AppStores::new());
    let probe = probe_shell(&workspace);
    assert_eq!(probe.tab_chrome.drag_source_hidden, Some((location, 0)));
    assert_eq!(tab_titles_at(&workspace, location), vec!["Text".to_string()]);
}

#[test]
fn hovered_tab_is_reflected_in_tab_chrome_probe() {
    let (mut workspace, mut stores) = three_tab_workspace();
    let location = only_center_location(&workspace);
    workspace.update(WorkspaceMessage::TabHoverChanged { location: Some((location, 1)) }, &mut stores);
    let probe = probe_shell(&workspace);
    assert_eq!(probe.tab_chrome.hovered_tab, Some((location, 1)));
}

#[test]
fn empty_hidden_dock_strip_controls_are_not_visible() {
    let (workspace, _stores) = three_tab_workspace();
    let probe = probe_shell(&workspace);
    let controls = &probe.dock_strip.conversation;
    assert!(!controls.collapse_visible);
    assert!(!controls.hide_visible);
    assert!(!controls.collapse_enabled);
    assert!(!controls.hide_enabled);
    assert_eq!(controls.collapse_action, CollapseControlAction::Disabled);
    assert_eq!(controls.hide_action, HideControlAction::Disabled);
}

#[test]
fn drop_overlay_active_while_dragging() {
    let (mut workspace, _stores) = three_tab_workspace();
    let location = only_center_location(&workspace);
    workspace.update(WorkspaceMessage::TabDragStarted { location, tab: 0 }, &mut AppStores::new());
    let probe = probe_shell(&workspace);
    assert!(probe.overlays.drop_overlay);
}

#[test]
fn focus_segment_of_a_focused_scratch_lists_its_status() {
    let workspace =
        Workspace::single_pane(PaneState::new(vec![FeaturePanel::Scratch(ScratchPanel::new())]), ThemeMode::Dark);
    assert_eq!(probe_focus_segment(&workspace), "Focus: Center / untitled   Ln 1, Col 1   Plain Text");
}
