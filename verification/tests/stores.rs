use openzone::workspace::workspace_stores::{ClockStore, CounterStore};

#[test]
fn counter_create_starts_at_zero() {
    let mut store = CounterStore::new();
    let id = store.create();
    assert_eq!(store.count(id), Some(0));
}

#[test]
fn counter_increment_and_decrement_round_trip() {
    let mut store = CounterStore::new();
    let id = store.create();
    store.increment(id);
    store.increment(id);
    store.decrement(id);
    assert_eq!(store.count(id), Some(1));
}

#[test]
fn counter_restore_seeds_initial_value() {
    let mut store = CounterStore::new();
    let id = store.restore(7);
    assert_eq!(store.count(id), Some(7));
}

#[test]
fn counter_release_drops_slot() {
    let mut store = CounterStore::new();
    let id = store.create();
    store.release(id);
    assert_eq!(store.count(id), None);
}

#[test]
fn counter_intent_to_released_id_is_noop() {
    let mut store = CounterStore::new();
    let id = store.create();
    store.release(id);
    store.increment(id);
    assert_eq!(store.count(id), None);
}

#[test]
fn counter_ids_are_unique_and_independent() {
    let mut store = CounterStore::new();
    let a = store.create();
    let b = store.create();
    assert_ne!(a, b);

    store.increment(a);
    store.increment(a);
    store.increment(b);
    assert_eq!(store.count(a), Some(2));
    assert_eq!(store.count(b), Some(1));
}

#[test]
fn clock_tick_advances_global_counter() {
    let mut store = ClockStore::new();
    store.tick();
    store.tick();
    assert_eq!(store.ticks(), 2);
}

#[test]
fn clock_restore_keeps_max_seen_value() {
    let mut store = ClockStore::new();
    store.tick();
    store.tick();
    store.restore(1);
    assert_eq!(store.ticks(), 2);
    store.restore(7);
    assert_eq!(store.ticks(), 7);
}

#[test]
fn counter_saturates_at_the_extremes() {
    let mut store = CounterStore::new();
    let high = store.restore(i64::MAX);
    let low = store.restore(i64::MIN);
    store.increment(high);
    store.decrement(low);
    assert_eq!(store.count(high), Some(i64::MAX));
    assert_eq!(store.count(low), Some(i64::MIN));
    assert_eq!(store.len(), 2);
}

#[test]
fn clock_tick_saturates() {
    let mut store = ClockStore::new();
    store.restore(u64::MAX);
    store.tick();
    assert_eq!(store.ticks(), u64::MAX);
}
