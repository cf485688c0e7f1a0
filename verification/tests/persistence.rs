use openzone::features::dummies::clock::ClockPanel;
use openzone::features::dummies::counter::CounterPanel;
use openzone::features::dummies::text::{TextMessage, TextPanel};
use openzone::features::feature_panel::{FeatureMessage, FeaturePanel};
use openzone::features::scratch::ScratchPanel;
use openzone::shared::design::ThemeMode;
use openzone::workspace::workspace_command::Command;
use openzone::workspace::workspace_dock::{DockVisibility, Docks};
use openzone::workspace::workspace_layout_store::FileLayoutStore;
use openzone::workspace::workspace_location::{DockSide, PanelLocation};
use openzone::workspace::workspace_pane_state::PaneState;
use openzone::workspace::workspace_panel::{HandleData, Panel, PanelKind};
use openzone::workspace::workspace_persistence::{
    capture, capture_pane, restore, restore_pane, CenterNode, FocusSnapshot, PaneSnapshot, PanelHandle,
};
use openzone::workspace::workspace_registry::PanelRegistry;
use openzone::workspace::workspace_state::{Workspace, WorkspaceMessage};
use openzone::workspace::workspace_stores::AppStores;

fn test_registry() -> PanelRegistry {
    let mut registry = PanelRegistry::new();
    registry.register(PanelKind::Counter).register(PanelKind::Text).register(PanelKind::Clock);
    registry
}

fn seeded_workspace() -> (Workspace<FeaturePanel>, AppStores) {
    let mut stores = AppStores::new();
    let center = PaneState::new(vec![
        FeaturePanel::Counter(CounterPanel::new(&mut stores)),
        FeaturePanel::Text(TextPanel::new()),
        FeaturePanel::Clock(ClockPanel::new()),
    ]);
    let docks = Docks::new(
        PaneState::new(vec![FeaturePanel::Clock(ClockPanel::new())]),
        PaneState::new(vec![FeaturePanel::Counter(CounterPanel::new(&mut stores))]),
        PaneState::new(vec![FeaturePanel::Text(TextPanel::new())]),
    );
    let workspace = Workspace::with_docks(center, docks, ThemeMode::Dark);
    (workspace, stores)
}

#[test]
fn workspace_persistence_per_panel_handle_round_trips_through_registry() {
    let registry = test_registry();
    let mut stores = AppStores::new();
    let counter = FeaturePanel::Counter(CounterPanel::new(&mut stores));
    stores.counter.increment(0);
    let handle = PanelHandle { kind: counter.kind(), snapshot: counter.snapshot(&stores).expect("durable") };
    let mut rebuild_stores = AppStores::new();
    let rebuilt: FeaturePanel =
        registry.build(handle.kind, &handle.snapshot, &mut rebuild_stores).expect("counter kind is registered");
    assert_eq!(rebuilt.kind(), PanelKind::Counter);
    assert_eq!(rebuilt.snapshot(&rebuild_stores), Some(handle.snapshot));
}

#[test]
fn unregistered_kind_is_not_built() {
    let registry = test_registry();
    let mut stores = AppStores::new();
    let handle = HandleData { count: None, ticks: None, content: None };
    let built: Option<FeaturePanel> = registry.build(PanelKind::Scratch, &handle, &mut stores);
    assert!(built.is_none());
    assert!(registry.contains(PanelKind::Clock));
    assert!(!registry.contains(PanelKind::Scratch));
}

#[test]
fn workspace_persistence_capture_restore_capture_is_structurally_equal() {
    let (mut workspace, mut stores) = seeded_workspace();
    workspace.apply_command(Command::SplitFocused, &mut stores);
    workspace.apply_command(Command::OpenDock(DockSide::Right), &mut stores);
    let first = capture(&workspace, &stores);
    let mut restored_stores = AppStores::new();
    let restored: Workspace<FeaturePanel> = restore(&first, &test_registry(), &mut restored_stores, ThemeMode::Dark);
    let second = capture(&restored, &restored_stores);
    assert_eq!(first, second);
}

#[test]
fn workspace_persistence_restore_rehydrates_panel_content() {
    let (workspace, mut stores) = seeded_workspace();
    for _ in 0..3 {
        stores.counter.increment(0);
    }
    let snapshot = capture(&workspace, &stores);
    let mut restored_stores = AppStores::new();
    let restored: Workspace<FeaturePanel> = restore(&snapshot, &test_registry(), &mut restored_stores, ThemeMode::Dark);
    let pane = match restored.focused {
        PanelLocation::Center(pane) => pane,
        _ => panic!("expected center focus"),
    };
    let count = restored.panes.get(pane).unwrap().tabs[0].snapshot(&restored_stores).expect("durable").count.unwrap();
    assert_eq!(count, 3);
}

#[test]
fn restored_text_keeps_its_content() {
    let (mut workspace, mut stores) = seeded_workspace();
    let location = PanelLocation::Center(workspace.pane_ids()[0]);
    workspace.update(
        WorkspaceMessage::Panel {
            location,
            tab: 1,
            message: FeatureMessage::Text(TextMessage::Changed(String::from("draft"))),
        },
        &mut stores,
    );
    let snapshot = capture(&workspace, &stores);
    let mut restored_stores = AppStores::new();
    let restored: Workspace<FeaturePanel> = restore(&snapshot, &test_registry(), &mut restored_stores, ThemeMode::Light);
    let pane = restored.pane_ids()[0];
    let text = restored.panes.get(pane).unwrap().tabs[1].snapshot(&restored_stores).expect("durable");
    assert_eq!(text.content, Some(String::from("draft")));
    assert_eq!(restored.theme_mode, ThemeMode::Light);
}

#[test]
fn workspace_persistence_restore_preserves_dock_open_state_and_focus() {
    let (mut workspace, mut stores) = seeded_workspace();
    workspace.apply_command(Command::OpenDock(DockSide::Right), &mut stores);
    let snapshot = capture(&workspace, &stores);
    assert_eq!(snapshot.focus, FocusSnapshot::Dock(DockSide::Right));
    assert_eq!(snapshot.right.visibility, DockVisibility::Open);
    let mut restored_stores = AppStores::new();
    let restored: Workspace<FeaturePanel> = restore(&snapshot, &test_registry(), &mut restored_stores, ThemeMode::Dark);
    assert!(restored.docks.right.is_open());
    assert_eq!(restored.focused, PanelLocation::Dock(DockSide::Right));
}

#[test]
fn workspace_persistence_restore_clamps_out_of_range_active_index() {
    let snapshot = PaneSnapshot {
        tabs: vec![PanelHandle {
            kind: PanelKind::Counter,
            snapshot: HandleData { count: Some(0), ticks: None, content: None },
        }],
        active: 99,
    };
    let mut stores = AppStores::new();
    let pane: PaneState<FeaturePanel> = restore_pane(&snapshot, &test_registry(), &mut stores);
    assert_eq!(pane.active, 0);
}

#[test]
fn restore_clamps_active_index_to_the_last_surviving_tab() {
    let text = |content: &str| PanelHandle {
        kind: PanelKind::Text,
        snapshot: HandleData { count: None, ticks: None, content: Some(content.to_string()) },
    };
    let snapshot = PaneSnapshot { tabs: vec![text("a"), text("b"), text("c")], active: 99 };
    let mut stores = AppStores::new();
    let pane: PaneState<FeaturePanel> = restore_pane(&snapshot, &test_registry(), &mut stores);
    assert_eq!(pane.tabs.len(), 3);
    assert_eq!(pane.active, 2);
}

#[test]
fn scratch_filtered_active_clamped_to_surviving_durable() {
    let stores = AppStores::new();
    let mut pane_state = PaneState::new(vec![
        FeaturePanel::Scratch(ScratchPanel::new()),
        FeaturePanel::Text(TextPanel::new()),
        FeaturePanel::Text(TextPanel::new()),
    ]);
    pane_state.active = 1;
    let snap = capture_pane(&pane_state, &stores);
    assert_eq!(snap.tabs.len(), 2);
    assert_eq!(snap.active, 0);
    assert_eq!(snap.tabs[0].kind, PanelKind::Text);
}

#[test]
fn capture_of_a_split_records_both_leaves() {
    let (mut workspace, mut stores) = seeded_workspace();
    workspace.apply_command(Command::SplitFocused, &mut stores);
    let snapshot = capture(&workspace, &stores);
    match &snapshot.center {
        CenterNode::Split { a, b, .. } => {
            assert!(matches!(**a, CenterNode::Pane(_)));
            assert!(matches!(**b, CenterNode::Pane(_)));
        }
        CenterNode::Pane(_) => panic!("expected a split"),
    }
    assert_eq!(snapshot.focus, FocusSnapshot::Center(1));
}

#[test]
fn layout_path_is_inside_the_directory() {
    let store = FileLayoutStore::new_at("/tmp/openzone-layout");
    assert_eq!(store.layout_path(), "/tmp/openzone-layout/workspace-layout.json");
}
