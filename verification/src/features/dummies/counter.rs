//! The counter panel: a view over one slot of the app-root counter store.

use crate::workspace::workspace_panel::{HandleData, HandleView};
use crate::workspace::workspace_stores::{saturating_dec, saturating_inc, AppStores, CounterId, StoresModel};
use vstd::prelude::*;

verus! {

/// Counter intents.
#[derive(Debug, Clone, Copy, PartialEq, Eq, Structural)]
pub enum CounterMessage {
    Increment,
    Decrement,
}

/// A counter panel: holds only the handle of its store slot.
#[derive(Debug, Clone, Copy, PartialEq, Eq, Structural)]
pub struct CounterPanel {
    pub id: CounterId,
}

/// The stores after allocating a slot seeded to `count`.
pub open spec fn stores_with_slot(s: StoresModel, count: i64) -> StoresModel {
    StoresModel { counts: s.counts.insert(s.next_id, count), next_id: (s.next_id + 1) as u64, ..s }
}

/// The count a counter panel shows: its slot's count, zero once released.
pub open spec fn shown_count(s: StoresModel, id: CounterId) -> i64 {
    if s.counts.contains_key(id) { s.counts[id] } else { 0 }
}

/// The stores after a counter message.
pub open spec fn counter_updated(s: StoresModel, id: CounterId, m: CounterMessage) -> StoresModel {
    if s.counts.contains_key(id) {
        StoresModel {
            counts: s.counts.insert(id, match m {
                CounterMessage::Increment => saturating_inc(s.counts[id]),
                CounterMessage::Decrement => saturating_dec(s.counts[id]),
            }),
            ..s
        }
    } else {
        s
    }
}

/// The count a handle restores: its `count`, zero when absent.
pub open spec fn handle_count(h: HandleView) -> i64 {
    match h.count {
        Some(c) => c,
        None => 0,
    }
}

impl CounterPanel {
    /// A panel over a fresh slot seeded to zero.
    pub fn new(stores: &mut AppStores) -> (r: Self)
        requires
            old(stores).wf(),
            old(stores).counter.next_id() < u64::MAX,
        ensures
            final(stores).wf(),
            r.id == old(stores).counter.next_id(),
            final(stores).model() == stores_with_slot(old(stores).model(), 0),
    {
        let id = stores.counter.create();
        CounterPanel { id }
    }

    /// A panel over an existing slot (two panels may share one).
    pub fn with_id(id: CounterId) -> (r: Self)
        ensures
            r.id == id,
    {
        CounterPanel { id }
    }

    /// Rehydrate from a handle: a fresh slot seeded to the persisted
    /// count (zero when the handle has none).
    pub fn from_snapshot(snapshot: &HandleData, stores: &mut AppStores) -> (r: Self)
        requires
            old(stores).wf(),
            old(stores).counter.next_id() < u64::MAX,
        ensures
            final(stores).wf(),
            r.id == old(stores).counter.next_id(),
            final(stores).model() == stores_with_slot(old(stores).model(), handle_count(snapshot.view())),
    {
        let count: i64 = match snapshot.count {
            Some(c) => c,
            None => 0,
        };
        let id = stores.counter.restore(count);
        CounterPanel { id }
    }

    /// The slot handle.
    pub fn id(&self) -> (r: CounterId)
        ensures
            r == self.id,
    {
        self.id
    }

    /// Fold a counter intent into the store.
    pub fn update(&mut self, message: CounterMessage, stores: &mut AppStores)
        requires
            old(stores).wf(),
        ensures
            final(stores).wf(),
            *final(self) == *old(self),
            final(stores).model() == counter_updated(old(stores).model(), old(self).id, message),
    {
        match message {
            CounterMessage::Increment => stores.counter.increment(self.id),
            CounterMessage::Decrement => stores.counter.decrement(self.id),
        }
    }

    /// The persisted handle: the store's current count. Always durable.
    pub fn snapshot(&self, stores: &AppStores) -> (r: Option<HandleData>)
        ensures
            r matches Some(h) && h.view() == (HandleView { count: Some(shown_count(stores.model(), self.id)), ticks: None, content: None }),
    {
        let count: i64 = match stores.counter.count(self.id) {
            Some(c) => c,
            None => 0,
        };
        Some(HandleData { count: Some(count), ticks: None, content: None })
    }

    /// Release the store slot.
    pub fn on_close(&mut self, stores: &mut AppStores)
        requires
            old(stores).wf(),
        ensures
            final(stores).wf(),
            *final(self) == *old(self),
            final(stores).model() == (StoresModel { counts: old(stores).model().counts.remove(old(self).id), ..old(stores).model() }),
    {
        stores.counter.release(self.id);
    }

    /// The tab title.
    pub fn title(&self) -> (r: String)
        ensures
            r@ == "Counter"@,
    {
        "Counter".to_owned()
    }
}

} // verus!
