use openzone::features::dummies::clock::ClockPanel;
use openzone::features::dummies::counter::CounterPanel;
use openzone::features::dummies::text::TextPanel;
use openzone::features::feature_panel::FeaturePanel;
use openzone::workspace::workspace_dock::{Dock, DockVisibility, Docks};
use openzone::workspace::workspace_drag::{omit_tab_at, visible_tabs_before, DragState};
use openzone::workspace::workspace_location::{DockSide, Pane, PanelLocation};
use openzone::workspace::workspace_pane_state::PaneState;
use openzone::workspace::workspace_panel::Panel;
use openzone::workspace::workspace_stores::AppStores;

fn one_tab() -> PaneState<FeaturePanel> {
    PaneState::new(vec![FeaturePanel::Text(TextPanel::new())])
}

fn three_tabs() -> PaneState<FeaturePanel> {
    let mut stores = AppStores::new();
    PaneState::new(vec![
        FeaturePanel::Counter(CounterPanel::new(&mut stores)),
        FeaturePanel::Text(TextPanel::new()),
        FeaturePanel::Clock(ClockPanel::new()),
    ])
}

#[test]
fn docks_start_hidden() {
    let docks = Docks::new(one_tab(), one_tab(), one_tab());
    assert!(!docks.left.is_open());
    assert!(docks.left.is_hidden());
    assert!(!docks.right.is_open());
    assert!(docks.right.is_hidden());
    assert!(!docks.bottom.is_open());
    assert!(docks.bottom.is_hidden());
}

#[test]
fn get_mut_changes_only_the_named_dock() {
    let mut docks = Docks::new(one_tab(), one_tab(), three_tabs());
    docks.get_mut(DockSide::Bottom).open();
    assert!(docks.bottom.is_open());
    assert_eq!(docks.bottom.tabs.len(), 3);
    assert!(docks.left.is_hidden());
    assert!(docks.right.is_hidden());
}

#[test]
fn set_visibility_transitions() {
    let mut docks = Docks::new(one_tab(), one_tab(), one_tab());
    docks.set_visibility(DockSide::Left, DockVisibility::Open);
    assert!(docks.left.is_open());
    docks.set_visibility(DockSide::Left, DockVisibility::Collapsed);
    assert!(docks.left.is_collapsed());
    docks.set_visibility(DockSide::Left, DockVisibility::Hidden);
    assert!(docks.left.is_hidden());
}

#[test]
fn collapsing_retains_tabs() {
    let mut docks = Docks::new(one_tab(), one_tab(), one_tab());
    docks.set_visibility(DockSide::Right, DockVisibility::Open);
    docks.set_visibility(DockSide::Right, DockVisibility::Collapsed);
    docks.set_visibility(DockSide::Right, DockVisibility::Hidden);
    assert_eq!(docks.right.tabs.len(), 1);
}

#[test]
fn empty_dock_is_not_visible_even_when_open() {
    let mut docks: Docks<FeaturePanel> = Docks::empty();
    docks.set_visibility(DockSide::Bottom, DockVisibility::Open);
    assert!(docks.bottom.is_open());
    assert!(!docks.is_visible(DockSide::Bottom));
}

#[test]
fn open_dock_with_tabs_is_visible() {
    let mut docks = Docks::new(one_tab(), one_tab(), one_tab());
    docks.set_visibility(DockSide::Left, DockVisibility::Open);
    assert!(docks.is_visible(DockSide::Left));
}

#[test]
fn dock_open_collapse_hide_round() {
    let mut dock = Dock::new(one_tab());
    assert!(dock.is_hidden());
    dock.open();
    assert!(dock.is_open() && dock.is_visible());
    dock.collapse();
    assert!(dock.is_collapsed() && dock.is_visible());
    dock.hide_dock();
    assert!(dock.is_hidden() && !dock.is_visible());
    assert!(Dock::open_with(one_tab()).is_open());
}

#[test]
fn empty_open_or_collapsed_dock_shows_nothing() {
    let mut dock: Dock<FeaturePanel> = Dock::new(PaneState::empty());
    dock.open();
    assert!(!dock.is_visible());
    dock.collapse();
    assert!(!dock.is_visible());
}

#[test]
fn close_active_removes_the_selected_tab() {
    let mut pane = three_tabs();
    pane.select(1);
    let empty = pane.close_active();
    assert!(!empty);
    assert_eq!(pane.len(), 2);
    assert_eq!(pane.tabs[0].title(), "Counter");
    assert_eq!(pane.tabs[1].title(), "Clock");
}

#[test]
fn closing_last_index_clamps_active() {
    let mut pane = three_tabs();
    pane.select(2);
    pane.close_active();
    assert_eq!(pane.active, 1);
}

#[test]
fn closing_every_tab_reports_empty() {
    let mut pane = three_tabs();
    assert!(!pane.close_active());
    assert!(!pane.close_active());
    assert!(pane.close_active());
    assert!(pane.is_empty());
}

#[test]
fn close_active_on_empty_is_noop_and_empty() {
    let mut pane: PaneState<FeaturePanel> = PaneState::empty();
    assert!(pane.close_active());
    assert!(pane.is_empty());
}

#[test]
fn close_active_on_empty_stack_with_stray_index_is_noop() {
    let mut pane: PaneState<FeaturePanel> = PaneState::empty();
    pane.active = 4;
    assert!(pane.close_active());
    assert!(pane.is_empty());
    assert_eq!(pane.active, 4);
}

#[test]
fn close_active_past_the_end_closes_nothing_and_clamps() {
    let mut pane = three_tabs();
    pane.active = 9;
    assert!(!pane.close_active());
    assert_eq!(pane.len(), 3);
    assert_eq!(pane.active, 2);
}

#[test]
fn out_of_range_select_is_ignored() {
    let mut pane = three_tabs();
    pane.select(1);
    pane.select(7);
    assert_eq!(pane.active, 1);
}

#[test]
fn close_tab_before_active_shifts_active_down() {
    let mut pane = three_tabs();
    pane.select(2);
    let closed = pane.close_tab(0).expect("tab exists");
    assert_eq!(closed.title(), "Counter");
    assert_eq!(pane.active, 1);
    assert_eq!(pane.active_panel().map(|p| p.title()), Some("Clock".to_string()));
    assert!(pane.close_tab(5).is_none());
}

#[test]
fn insert_active_makes_the_new_tab_active() {
    let mut pane = three_tabs();
    let at = pane.insert_active(1, FeaturePanel::Clock(ClockPanel::new()));
    assert_eq!(at, 1);
    assert_eq!(pane.len(), 4);
    assert_eq!(pane.active, 1);
    let at = pane.insert_active(99, FeaturePanel::Text(TextPanel::new()));
    assert_eq!(at, 4);
}

#[test]
fn take_tab_keeps_active_in_range() {
    let mut pane = three_tabs();
    pane.select(2);
    let taken = pane.take_tab(2).expect("tab exists");
    assert_eq!(taken.title(), "Clock");
    assert_eq!(pane.active, 1);
}

#[test]
fn dragged_tab_is_omitted_only_at_its_source() {
    let source = PanelLocation::Center(Pane(0));
    let drag = DragState::new(source, 1);
    assert_eq!(omit_tab_at(source, Some(&drag)), Some(1));
    assert_eq!(omit_tab_at(PanelLocation::Dock(DockSide::Left), Some(&drag)), None);
    assert_eq!(omit_tab_at(source, None), None);
}

#[test]
fn visible_tabs_before_skips_the_omitted_slot() {
    assert_eq!(visible_tabs_before(3, 5, None), 3);
    assert_eq!(visible_tabs_before(3, 5, Some(1)), 2);
    assert_eq!(visible_tabs_before(3, 5, Some(4)), 3);
    assert_eq!(visible_tabs_before(9, 5, Some(1)), 4);
}
