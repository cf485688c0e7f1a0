use openzone::features::dummies::clock::ClockPanel;
use openzone::features::dummies::counter::CounterPanel;
use openzone::features::dummies::text::TextPanel;
use openzone::features::feature_panel::{FeatureMessage, FeaturePanel};
use openzone::features::onboarding::onboarding_state::OnboardingMessage;
use openzone::features::scratch::ScratchMessage;
use openzone::open_zone::{AppClosePrompt, AppEffect, AppMessage, GlobalDirtyPanel, OpenZone, WorkspaceWindow};
use openzone::shared::design::ThemeMode;
use openzone::workspace::workspace_dock::DockVisibility;
use openzone::workspace::workspace_drag::{DropTarget, PointBits, SizeBits, TabStripTarget};
use openzone::workspace::workspace_location::{DockSide, Pane, PanelLocation};
use openzone::workspace::workspace_pane_state::PaneState;
use openzone::workspace::workspace_panel::Panel;
use openzone::workspace::workspace_state::{DirtyPanel, Workspace, WorkspaceMessage};

const A: u64 = 1;
const B: u64 = 2;

fn size() -> SizeBits {
    SizeBits { width_bits: 1100.0f32.to_bits(), height_bits: 760.0f32.to_bits() }
}

fn point(x: f32, y: f32) -> PointBits {
    PointBits { x_bits: x.to_bits(), y_bits: y.to_bits() }
}

fn window_index(app: &OpenZone, key: u64) -> usize {
    app.windows.iter().position(|w| w.key == key).expect("window exists")
}

fn workspace(app: &OpenZone, key: u64) -> &Workspace<FeaturePanel> {
    &app.windows[window_index(app, key)].workspace
}

fn workspace_mut(app: &mut OpenZone, key: u64) -> &mut Workspace<FeaturePanel> {
    let i = window_index(app, key);
    &mut app.windows[i].workspace
}

fn center(app: &OpenZone, key: u64) -> Pane {
    workspace(app, key).pane_ids()[0]
}

fn center_titles(app: &OpenZone, key: u64) -> Vec<String> {
    let ws = workspace(app, key);
    ws.panes.get(ws.pane_ids()[0]).unwrap().tabs.iter().map(|p| p.title()).collect()
}

fn two_workspace_app() -> OpenZone {
    let mut app = OpenZone::new(99, ThemeMode::Dark);
    app.onboarding = None;
    app.onboarding_window = None;
    let workspace_a = Workspace::single_pane(
        PaneState::new(vec![
            FeaturePanel::Counter(CounterPanel::new(&mut app.stores)),
            FeaturePanel::Text(TextPanel::new()),
        ]),
        ThemeMode::Dark,
    );
    let workspace_b =
        Workspace::single_pane(PaneState::new(vec![FeaturePanel::Clock(ClockPanel::new())]), ThemeMode::Dark);
    app.windows.push(WorkspaceWindow { key: A, ordinal: 1, workspace: workspace_a });
    app.windows.push(WorkspaceWindow { key: B, ordinal: 2, workspace: workspace_b });
    app.next_window_ordinal = 2;
    app
}

fn start_drag(app: &mut OpenZone) {
    let location = PanelLocation::Center(center(app, A));
    app.update(AppMessage::Workspace { window: A, message: WorkspaceMessage::TabDragStarted { location, tab: 0 } });
}

#[test]
fn route_tab_drag_cursor_targets_other_window_tab_strip() {
    let mut app = two_workspace_app();
    start_drag(&mut app);
    let pane_b = center(&app, B);
    let target = DropTarget::TabStrip(TabStripTarget { location: PanelLocation::Center(pane_b), index: 1 });
    app.update(AppMessage::Workspace {
        window: B,
        message: WorkspaceMessage::CursorMoved { cursor: point(120.0, 40.0), target },
    });
    let drag = workspace(&app, A).drag_state.unwrap();
    assert_eq!(drag.target_window, Some(B));
    assert_eq!(drag.target, target);
    assert!(workspace(&app, B).cross_window_drop_preview.is_some());
    assert_eq!(app.tab_drag_source(), Some(A));
}

#[test]
fn handle_tab_drag_dropped_transfers_tab_to_other_window() {
    let mut app = two_workspace_app();
    start_drag(&mut app);
    let pane_b = center(&app, B);
    {
        let drag = workspace_mut(&mut app, A).drag_state.as_mut().unwrap();
        drag.target = DropTarget::TabStrip(TabStripTarget { location: PanelLocation::Center(pane_b), index: 1 });
        drag.target_window = Some(B);
        drag.pointer_moved = true;
    }
    let effects = app.handle_tab_drag_dropped(A, None);
    assert!(effects.is_empty());
    assert_eq!(center_titles(&app, A), vec!["Text"]);
    assert_eq!(center_titles(&app, B), vec!["Clock", "Counter"]);
}

#[test]
fn handle_tab_drag_dropped_click_without_move_clears_drag_state() {
    let mut app = two_workspace_app();
    start_drag(&mut app);
    app.handle_tab_drag_dropped(A, None);
    assert!(workspace(&app, A).drag_state.is_none());
    assert_eq!(center_titles(&app, A), vec!["Counter", "Text"]);
}

#[test]
fn route_tab_drag_cursor_clears_target_when_cursor_leaves_window() {
    let mut app = two_workspace_app();
    start_drag(&mut app);
    let pane_b = center(&app, B);
    let inside = DropTarget::TabStrip(TabStripTarget { location: PanelLocation::Center(pane_b), index: 1 });
    app.route_tab_drag_cursor(A, B, point(120.0, 40.0), inside);
    assert_eq!(workspace(&app, A).drag_state.unwrap().target_window, Some(B));
    app.route_tab_drag_cursor(A, B, point(1140.0, 800.0), DropTarget::Nowhere);
    let drag = workspace(&app, A).drag_state.unwrap();
    assert_eq!(drag.target_window, None);
    assert_eq!(drag.target, DropTarget::Nowhere);
    assert!(workspace(&app, B).cross_window_drop_preview.is_none());
}

#[test]
fn handle_tab_drag_dropped_revalidates_stale_target_from_last_cursor() {
    let mut app = two_workspace_app();
    start_drag(&mut app);
    let pane_b = center(&app, B);
    {
        let drag = workspace_mut(&mut app, A).drag_state.as_mut().unwrap();
        drag.target = DropTarget::TabStrip(TabStripTarget { location: PanelLocation::Center(pane_b), index: 1 });
        drag.target_window = Some(B);
        drag.pointer_moved = true;
        drag.cursor_window = Some(B);
        drag.cursor = point(1200.0, 860.0);
    }
    assert_eq!(app.drop_probe(A), Some((B, point(1200.0, 860.0))));
    let effects = app.handle_tab_drag_dropped(A, None);
    assert_eq!(center_titles(&app, A), vec!["Text"]);
    assert_eq!(center_titles(&app, B), vec!["Clock"]);
    assert!(matches!(effects.as_slice(), [AppEffect::OpenWorkspaceWith(_)]));
}

#[test]
fn handle_tab_drag_dropped_cross_window_dock() {
    let mut app = two_workspace_app();
    {
        let workspace_b = workspace_mut(&mut app, B);
        workspace_b.docks.left.tabs = PaneState::new(vec![FeaturePanel::Text(TextPanel::new())]);
        workspace_b.docks.left.visibility = DockVisibility::Open;
    }
    start_drag(&mut app);
    let strip = DropTarget::TabStrip(TabStripTarget { location: PanelLocation::Dock(DockSide::Left), index: 0 });
    app.route_tab_drag_cursor(A, B, point(12.0, 60.0), strip);
    app.update(AppMessage::DropTab { hit: Some(strip) });
    assert_eq!(workspace(&app, B).docks.left.tabs.tabs[0].title(), "Counter");
    assert_eq!(center_titles(&app, A), vec!["Text"]);
}

#[test]
fn handle_tab_drag_dropped_outside_queues_tear_off_panel() {
    let mut app = two_workspace_app();
    start_drag(&mut app);
    {
        let drag = workspace_mut(&mut app, A).drag_state.as_mut().unwrap();
        drag.target = DropTarget::Nowhere;
        drag.target_window = None;
        drag.pointer_moved = true;
        drag.cursor_window = Some(A);
        drag.cursor = point(1150.0, 810.0);
    }
    let effects = app.handle_tab_drag_dropped(A, None);
    assert_eq!(center_titles(&app, A), vec!["Text"]);
    let mut effects = effects;
    match effects.pop() {
        Some(AppEffect::OpenWorkspaceWith(panel)) => {
            assert_eq!(panel.title(), "Counter");
            app.insert_workspace_with_panel(3, panel, size());
        }
        other => panic!("expected a torn-off tab, got {:?}", other),
    }
    assert_eq!(app.windows.len(), 3);
    assert_eq!(center_titles(&app, 3), vec!["Counter"]);
    assert_eq!(app.window_label(3), "OpenZone (3)");
}

#[test]
fn handle_tab_drag_dropped_outside_all_windows_still_tears_off() {
    let mut app = two_workspace_app();
    start_drag(&mut app);
    {
        let drag = workspace_mut(&mut app, A).drag_state.as_mut().unwrap();
        drag.target = DropTarget::Nowhere;
        drag.target_window = None;
        drag.pointer_moved = true;
        drag.cursor_window = Some(A);
        drag.cursor = point(1150.0, 810.0);
    }
    let effects = app.handle_tab_drag_dropped(A, None);
    assert_eq!(center_titles(&app, A), vec!["Text"]);
    assert_eq!(effects.len(), 1);
    assert!(workspace_mut(&mut app, A).take_torn_off_panel().is_none());
}

fn open_zone_with_dirty_scratch() -> OpenZone {
    let mut app = OpenZone::new(99, ThemeMode::Dark);
    let effects = app.insert_primary_workspace(A, None, size());
    assert!(matches!(effects.as_slice(), [AppEffect::CloseWindow { key: 99, layout: None }]));
    let location = workspace(&app, A).focused;
    app.update(AppMessage::Workspace {
        window: A,
        message: WorkspaceMessage::Panel {
            location,
            tab: 0,
            message: FeatureMessage::Scratch(ScratchMessage::Edited { text: String::from("x"), line: 0, column: 1 }),
        },
    });
    assert_eq!(workspace(&app, A).collect_dirty_panels().len(), 1);
    app
}

#[test]
fn close_requested_with_dirty_opens_app_quit_prompt() {
    let mut app = open_zone_with_dirty_scratch();
    let effects = app.on_window_close_requested(A);
    assert!(matches!(effects.as_slice(), [AppEffect::ScheduleCloseEvaluation]));
    let _ = app.evaluate_pending_closes();
    assert!(matches!(
        app.app_close_prompt,
        Some(AppClosePrompt::AppQuit { ref panels, .. }) if panels.len() == 1
    ));
}

#[test]
fn cancel_app_close_prompt_clears_state() {
    let mut app = open_zone_with_dirty_scratch();
    let _ = app.on_window_close_requested(A);
    let _ = app.evaluate_pending_closes();
    let _ = app.update(AppMessage::ConfirmAppCloseCancel);
    assert!(app.app_close_prompt.is_none());
    assert!(app.pending_close_windows.is_empty());
    assert_eq!(workspace(&app, A).collect_dirty_panels().len(), 1);
}

#[test]
fn discard_app_close_prompt_removes_dirty_tabs() {
    let mut app = open_zone_with_dirty_scratch();
    let _ = app.on_window_close_requested(A);
    let _ = app.evaluate_pending_closes();
    let effects = app.confirm_app_close_discard();
    assert!(app.app_close_prompt.is_none());
    assert!(workspace(&app, A).collect_dirty_panels().is_empty());
    assert!(matches!(effects.as_slice(), [AppEffect::CloseWindow { key: A, layout: Some(_) }]));
}

#[test]
fn primary_layout_saved_only_on_primary_close() {
    let mut app = OpenZone::new(99, ThemeMode::Dark);
    app.insert_primary_workspace(A, None, size());
    app.insert_secondary_workspace(B, size());
    assert!(matches!(app.force_close_workspace(B), AppEffect::CloseWindow { key: B, layout: None }));
    assert!(matches!(app.force_close_workspace(A), AppEffect::CloseWindow { key: A, layout: Some(_) }));
}

#[test]
fn simultaneous_close_requests_aggregate_as_app_quit() {
    let mut app = open_zone_with_dirty_scratch();
    app.insert_secondary_workspace(B, size());
    let _ = app.on_window_close_requested(A);
    let second = app.on_window_close_requested(B);
    assert!(second.is_empty());
    let _ = app.evaluate_pending_closes();
    assert!(matches!(app.app_close_prompt, Some(AppClosePrompt::AppQuit { .. })));
}

#[test]
fn clean_window_closes_without_prompt() {
    let mut app = open_zone_with_dirty_scratch();
    app.insert_secondary_workspace(B, size());
    let _ = app.on_window_close_requested(B);
    let effects = app.evaluate_pending_closes();
    assert!(app.app_close_prompt.is_none());
    assert!(matches!(effects.as_slice(), [AppEffect::CloseWindow { key: B, layout: None }]));
    let effects = app.update(AppMessage::WindowClosed(B));
    assert!(effects.is_empty());
    assert_eq!(app.windows.len(), 1);
}

#[test]
fn dirty_window_close_shows_window_prompt() {
    let mut app = open_zone_with_dirty_scratch();
    app.insert_secondary_workspace(B, size());
    let _ = app.on_window_close_requested(A);
    let effects = app.evaluate_pending_closes();
    assert!(effects.is_empty());
    assert!(matches!(
        app.app_close_prompt,
        Some(AppClosePrompt::Window { target_window: A, ref panels }) if panels.len() == 1
    ));
    let blocked = app.update(AppMessage::Workspace { window: A, message: WorkspaceMessage::ToggleTheme });
    assert!(blocked.is_empty());
    assert_eq!(workspace(&app, A).theme_mode, ThemeMode::Dark);
}

#[test]
fn last_window_closed_exits() {
    let mut app = OpenZone::new(99, ThemeMode::Dark);
    app.insert_primary_workspace(A, None, size());
    let effects = app.handle_window_closed(A);
    assert!(matches!(effects.as_slice(), [AppEffect::Exit]));
    assert!(app.primary_window.is_none());
}

#[test]
fn onboarding_completion_opens_the_workspace() {
    let mut app = OpenZone::new(99, ThemeMode::Light);
    let effects = app.update(AppMessage::Onboarding(OnboardingMessage::EnterPressed));
    assert!(matches!(effects.as_slice(), [AppEffect::MarkOnboardingCompleted, AppEffect::OpenPrimaryWorkspace]));
    let effects = app.update(AppMessage::Onboarding(OnboardingMessage::FeatureSelected(1)));
    assert!(effects.is_empty());
    assert_eq!(app.onboarding.unwrap().selected_feature, 1);
}

#[test]
fn new_window_requests_reach_the_root() {
    let mut app = OpenZone::new(99, ThemeMode::Dark);
    app.insert_primary_workspace(A, None, size());
    let effects = app.update(AppMessage::Workspace { window: A, message: WorkspaceMessage::NewWindow });
    assert!(matches!(effects.as_slice(), [AppEffect::OpenWorkspace]));
    app.insert_secondary_workspace(B, size());
    assert_eq!(app.window_label(A), "OpenZone");
    assert_eq!(app.window_label(B), "OpenZone (2)");
    assert_eq!(app.window_label(42), "OpenZone");
}

#[test]
fn close_prompt_texts_name_the_dirty_tabs() {
    let dirty = |tab: usize, title: &str| DirtyPanel {
        location: PanelLocation::Center(Pane(0)),
        tab,
        title: title.to_string(),
        message: String::new(),
    };
    let one = AppClosePrompt::Window { target_window: A, panels: vec![dirty(0, "notes")] };
    assert_eq!(one.title(), "\"notes\" has unsaved changes. Close the window anyway?");
    assert!(one.items().is_empty());
    let two = AppClosePrompt::Window { target_window: A, panels: vec![dirty(0, "a"), dirty(1, "b")] };
    assert_eq!(two.title(), "2 tabs have unsaved changes. Close the window anyway?");
    assert_eq!(two.items(), vec!["• a".to_string(), "• b".to_string()]);
    let quit = AppClosePrompt::AppQuit {
        target_window: A,
        panels: vec![GlobalDirtyPanel {
            window: B,
            window_label: "OpenZone (2)".to_string(),
            location: PanelLocation::Center(Pane(0)),
            tab: 0,
            title: "untitled".to_string(),
        }],
    };
    assert_eq!(quit.title(), "1 tab has unsaved changes. Quit anyway?");
    assert_eq!(quit.items(), vec!["• OpenZone (2): untitled".to_string()]);
}
