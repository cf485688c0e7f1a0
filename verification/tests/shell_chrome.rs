use openzone::features::dummies::clock::ClockPanel;
use openzone::features::dummies::counter::CounterPanel;
use openzone::features::feature_panel::{FeatureMessage, FeaturePanel};
use openzone::features::scratch::{ScratchMessage, ScratchPanel};
use openzone::shared::design::{ForegroundToken, OpenZoneTheme, ThemeMode};
use openzone::workspace::workspace_command::Command;
use openzone::workspace::workspace_dock::{DockVisibility, Docks};
use openzone::workspace::workspace_location::DockSide;
use openzone::workspace::workspace_pane_state::PaneState;
use openzone::workspace::workspace_panel::PanelKind;
use openzone::workspace::workspace_shell_chrome::{
    dirty_tab_title, dirty_tab_titles, dock_control_enabled, dock_control_token, drop_preview_uses_fill,
    focused_pane_uses_accent_border, pane_border_token, pane_border_width, palette_has_visual_backdrop,
    shell_smoke_snapshot, tab_chip_underline_token, tab_close_visible, DockRenderRole, OutlineToken,
};
use openzone::workspace::workspace_state::{Workspace, WorkspaceMessage};
use openzone::workspace::workspace_stores::AppStores;

fn theme() -> OpenZoneTheme {
    OpenZoneTheme::dark()
}

fn scratch_workspace() -> Workspace<FeaturePanel> {
    Workspace::single_pane(PaneState::new(vec![FeaturePanel::Scratch(ScratchPanel::new())]), ThemeMode::Dark)
}

fn right_clock_workspace() -> Workspace<FeaturePanel> {
    let docks = Docks::new(
        PaneState::empty(),
        PaneState::new(vec![FeaturePanel::Clock(ClockPanel::new())]),
        PaneState::empty(),
    );
    Workspace::with_docks(PaneState::new(vec![FeaturePanel::Scratch(ScratchPanel::new())]), docks, ThemeMode::Dark)
}

#[test]
fn focused_pane_accent_border_contract() {
    assert!(focused_pane_uses_accent_border(theme()));
}

#[test]
fn focused_border_uses_accent_color() {
    let accent = OutlineToken::Foreground(ForegroundToken::Accent);
    assert_eq!(pane_border_token(theme(), true), accent);
    assert_ne!(pane_border_token(theme(), false), accent);
    assert_eq!(pane_border_width(true), 1);
}

#[test]
fn tab_close_visible_on_active_or_hover_only() {
    assert!(tab_close_visible(true, false));
    assert!(tab_close_visible(false, true));
    assert!(!tab_close_visible(false, false));
}

#[test]
fn palette_has_no_visual_backdrop_and_sits_below_title_bar() {
    assert!(!palette_has_visual_backdrop());
}

#[test]
fn drop_preview_is_outline_only() {
    assert!(!drop_preview_uses_fill());
}

#[test]
fn underline_and_dock_control_tokens() {
    assert_eq!(tab_chip_underline_token(theme(), true), Some(ForegroundToken::Accent));
    assert_eq!(tab_chip_underline_token(theme(), false), None);
    assert_eq!(dock_control_token(theme(), DockVisibility::Open), ForegroundToken::Accent);
    assert_eq!(dock_control_token(theme(), DockVisibility::Collapsed), ForegroundToken::Secondary);
    assert_eq!(dock_control_token(theme(), DockVisibility::Hidden), ForegroundToken::Muted);
}

#[test]
fn hidden_dock_renders_no_rail_or_body() {
    let workspace = scratch_workspace();
    let snapshot = shell_smoke_snapshot(&workspace);
    assert_eq!(
        snapshot.dock_roles,
        [
            (DockSide::Left, DockRenderRole::Nothing),
            (DockSide::Right, DockRenderRole::Nothing),
            (DockSide::Bottom, DockRenderRole::Nothing),
        ]
    );
}

#[test]
fn open_dock_renders_body_role() {
    let mut stores = AppStores::new();
    let mut workspace = right_clock_workspace();
    workspace.apply_command(Command::OpenDock(DockSide::Right), &mut stores);
    let snapshot = shell_smoke_snapshot(&workspace);
    assert_eq!(snapshot.dock_roles[1], (DockSide::Right, DockRenderRole::Body));
}

#[test]
fn collapsed_dock_renders_rail_role() {
    let mut workspace = right_clock_workspace();
    workspace.docks.right.visibility = DockVisibility::Collapsed;
    let snapshot = shell_smoke_snapshot(&workspace);
    assert_eq!(snapshot.dock_roles[1], (DockSide::Right, DockRenderRole::Rail));
}

#[test]
fn dock_control_disabled_without_content_or_factory() {
    let workspace = scratch_workspace();
    assert!(!dock_control_enabled(&workspace, DockSide::Left));
}

#[test]
fn dock_control_enabled_with_factory() {
    let mut stores = AppStores::new();
    let mut workspace = Workspace::single_pane(
        PaneState::new(vec![FeaturePanel::Counter(CounterPanel::new(&mut stores))]),
        ThemeMode::Dark,
    );
    workspace.set_dock_factory(DockSide::Left, PanelKind::Scratch);
    assert!(dock_control_enabled(&workspace, DockSide::Left));
}

#[test]
fn dirty_tab_titles_include_dot_prefix() {
    let mut stores = AppStores::new();
    let mut workspace = scratch_workspace();
    let location = workspace.focused;
    workspace.update(
        WorkspaceMessage::Panel {
            location,
            tab: 0,
            message: FeatureMessage::Scratch(ScratchMessage::Edited { text: String::from("x"), line: 0, column: 1 }),
        },
        &mut stores,
    );
    assert_eq!(dirty_tab_titles(&workspace), vec!["• untitled".to_string()]);
}

#[test]
fn dirty_title_prefixes_a_dot() {
    assert_eq!(dirty_tab_title("notes"), "• notes");
}

#[test]
fn shell_snapshot_tracks_palette_and_close_confirmation_state() {
    let workspace = scratch_workspace();
    let snapshot = shell_smoke_snapshot(&workspace);
    assert!(!snapshot.palette_open);
    assert!(!snapshot.palette_has_visual_backdrop);
    assert!(!snapshot.close_confirmation_open);
    assert!(snapshot.focused_uses_accent_border);
}
