use openzone::features::dummies::clock::ClockPanel;
use openzone::features::dummies::counter::{CounterMessage, CounterPanel};
use openzone::features::dummies::text::{TextMessage, TextPanel};
use openzone::features::feature_panel::{FeatureMessage, FeaturePanel};
use openzone::features::scratch::{ScratchMessage, ScratchPanel};
use openzone::workspace::workspace_command::{Chord, KeyRef, Mods};
use openzone::workspace::workspace_panel::{CloseRequest, HandleData, Panel, PanelKind};
use openzone::workspace::workspace_stores::AppStores;

fn ticks_handle(ticks: u64) -> HandleData {
    HandleData { count: None, ticks: Some(ticks), content: None }
}

#[test]
fn view_reads_global_tick() {
    let mut stores = AppStores::new();
    let panel = ClockPanel::new();
    stores.clock.tick();
    stores.clock.tick();
    assert_eq!(panel.snapshot(&stores).expect("durable").ticks, Some(2));
}

#[test]
fn restore_brings_global_tick_forward() {
    let mut stores = AppStores::new();
    let _panel = ClockPanel::from_snapshot(&ticks_handle(5), &mut stores);
    assert_eq!(stores.clock.ticks(), 5);
}

#[test]
fn two_panels_share_one_store_value() {
    let mut stores = AppStores::new();
    let a = ClockPanel::new();
    let b = ClockPanel::new();
    stores.clock.tick();
    assert_eq!(a.snapshot(&stores), b.snapshot(&stores));
    assert_eq!(a.snapshot(&stores).expect("durable").ticks, Some(1));
}

#[test]
fn increment_intent_mutates_store_through_panel() {
    let mut stores = AppStores::new();
    let mut panel = CounterPanel::new(&mut stores);
    panel.update(CounterMessage::Increment, &mut stores);
    assert_eq!(stores.counter.count(panel.id()), Some(1));
}

#[test]
fn decrement_intent_mutates_store_through_panel() {
    let mut stores = AppStores::new();
    let mut panel = CounterPanel::new(&mut stores);
    panel.update(CounterMessage::Decrement, &mut stores);
    assert_eq!(stores.counter.count(panel.id()), Some(-1));
}

#[test]
fn snapshot_reads_from_store_not_panel() {
    let mut stores = AppStores::new();
    let panel = CounterPanel::new(&mut stores);
    stores.counter.increment(panel.id());
    stores.counter.increment(panel.id());
    let snapshot = panel.snapshot(&stores).expect("durable");
    assert_eq!(snapshot.count, Some(2));
}

#[test]
fn counter_snapshot_round_trips_through_constructor() {
    let mut stores_a = AppStores::new();
    let mut panel = CounterPanel::new(&mut stores_a);
    panel.update(CounterMessage::Increment, &mut stores_a);
    panel.update(CounterMessage::Increment, &mut stores_a);
    let snapshot = panel.snapshot(&stores_a).expect("durable");
    let mut stores_b = AppStores::new();
    let restored = CounterPanel::from_snapshot(&snapshot, &mut stores_b);
    assert_eq!(stores_b.counter.count(restored.id()), Some(2));
}

#[test]
fn on_close_releases_store_slot() {
    let mut stores = AppStores::new();
    let mut panel = CounterPanel::new(&mut stores);
    let id = panel.id();
    assert_eq!(stores.counter.count(id), Some(0));
    panel.on_close(&mut stores);
    assert_eq!(stores.counter.count(id), None);
}

#[test]
fn two_panels_observe_independent_slots() {
    let mut stores = AppStores::new();
    let mut a = CounterPanel::new(&mut stores);
    let mut b = CounterPanel::new(&mut stores);
    a.update(CounterMessage::Increment, &mut stores);
    a.update(CounterMessage::Increment, &mut stores);
    b.update(CounterMessage::Increment, &mut stores);
    assert_eq!(stores.counter.count(a.id()), Some(2));
    assert_eq!(stores.counter.count(b.id()), Some(1));
}

#[test]
fn change_updates_content() {
    let mut panel = TextPanel::new();
    panel.update(TextMessage::Changed(String::from("hello")));
    assert_eq!(panel.content(), "hello");
}

#[test]
fn text_snapshot_round_trips_through_constructor() {
    let mut panel = TextPanel::new();
    panel.update(TextMessage::Changed(String::from("draft")));
    let restored = TextPanel::from_snapshot(&panel.snapshot().expect("durable"));
    assert_eq!(restored.content(), "draft");
}

#[test]
fn text_panel_captures_plain_typing_but_not_command_chords() {
    let panel = TextPanel::new();
    assert!(panel.captures_chord(Chord { key: KeyRef::Char('w'), mods: Mods::none() }));
    assert!(!panel.captures_chord(Chord { key: KeyRef::Char('w'), mods: Mods::cmd() }));
}

#[test]
fn test_scratch_panel_clean_state() {
    let panel = ScratchPanel::new();
    assert_eq!(panel.title(), "untitled");
    assert!(!panel.is_dirty());
    assert_eq!(panel.close_request(), CloseRequest::Allowed);
}

#[test]
fn test_scratch_panel_status_contribution() {
    let panel = ScratchPanel::new();
    let segments = panel.status_segments();
    assert_eq!(segments.len(), 2);
    assert_eq!(segments[0], "Ln 1, Col 1");
    assert_eq!(segments[1], "Plain Text");
}

#[test]
fn test_scratch_panel_dirty_state_and_close_request() {
    let mut panel = ScratchPanel::new();
    panel.update(ScratchMessage::Edited { text: String::from("a"), line: 0, column: 1 });
    assert!(panel.is_dirty());
    match panel.close_request() {
        CloseRequest::Confirm { message } => {
            assert_eq!(message, "Discard changes to untitled?");
        }
        CloseRequest::Allowed => {
            panic!("Expected close confirmation for dirty panel");
        }
    }
}

#[test]
fn scratch_status_follows_the_reported_cursor() {
    let mut panel = ScratchPanel::new();
    panel.update(ScratchMessage::Edited { text: String::from("ab\ncd"), line: 1, column: 11 });
    assert_eq!(panel.status_segments()[0], "Ln 2, Col 12");
    assert!(panel.snapshot().is_none());
}

#[test]
fn feature_panels_report_kind_and_title() {
    let mut stores = AppStores::new();
    let counter = FeaturePanel::build(PanelKind::Counter, &mut stores);
    assert_eq!(counter.kind(), PanelKind::Counter);
    assert_eq!(counter.title(), "Counter");
    let scratch = FeaturePanel::build(PanelKind::Scratch, &mut stores);
    assert_eq!(scratch.title(), "untitled");
    assert!(scratch.snapshot(&stores).is_none());
    let clock = FeaturePanel::build(PanelKind::Clock, &mut stores);
    assert_eq!(clock.title(), "Clock");
}

#[test]
fn feature_panel_routes_counter_messages_to_the_store() {
    let mut stores = AppStores::new();
    let mut counter = FeaturePanel::build(PanelKind::Counter, &mut stores);
    counter.update(FeatureMessage::Counter(CounterMessage::Increment), &mut stores);
    assert_eq!(counter.snapshot(&stores).expect("durable").count, Some(1));
    counter.on_close(&mut stores);
    assert!(stores.counter.len() == 0);
}

#[test]
fn feature_panel_rehydrates_from_handle() {
    let mut stores = AppStores::new();
    let handle = HandleData { count: None, ticks: None, content: Some(String::from("notes")) };
    let text = FeaturePanel::from_handle(PanelKind::Text, &handle, &mut stores);
    assert_eq!(text.snapshot(&stores), Some(handle));
}
