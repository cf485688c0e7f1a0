//! App-root domain stores — the single owners of Counter and Clock state.
//!
//! The stores live beside the workspaces at the application root and are
//! lent to the workspace reducer as `&mut AppStores`. Panels are views
//! over handles: a counter panel holds a [`CounterId`] and reads its count
//! from [`CounterStore`]; every clock panel reads the one global tick of
//! [`ClockStore`].

use std::collections::HashMap;
use vstd::prelude::*;

verus! {

broadcast use vstd::std_specs::hash::group_hash_axioms;

/// Stable handle of one counter slot. Ids are allocated monotonically and
/// never reused.
pub type CounterId = u64;

/// `x + 1`, held at `i64::MAX`.
pub open spec fn saturating_inc(x: i64) -> i64 {
    if x == i64::MAX { x } else { (x + 1) as i64 }
}

/// `x - 1`, held at `i64::MIN`.
pub open spec fn saturating_dec(x: i64) -> i64 {
    if x == i64::MIN { x } else { (x - 1) as i64 }
}

/// The tick after bringing `current` forward to `ticks`.
pub open spec fn brought_forward(current: u64, ticks: u64) -> u64 {
    if ticks > current { ticks } else { current }
}

/// Restoring clock snapshots never lowers the tick, and the order in which
/// two snapshots are restored does not matter.
pub proof fn law_clock_restore_order(current: u64, a: u64, b: u64)
    ensures
        brought_forward(current, a) >= current,
        brought_forward(current, a) >= a,
        brought_forward(brought_forward(current, a), b) == brought_forward(brought_forward(current, b), a),
        brought_forward(brought_forward(current, a), a) == brought_forward(current, a),
{
}

/// An increment undone by a decrement leaves the counts as they were, as
/// does a decrement undone by an increment, away from the saturation
/// bounds.
pub proof fn law_increment_then_decrement(counts: Map<u64, i64>, id: u64)
    requires
        counts.contains_key(id),
    ensures
        counts[id] < i64::MAX ==> {
            let up = counts.insert(id, saturating_inc(counts[id]));
            up.insert(id, saturating_dec(up[id])) == counts
        },
        counts[id] > i64::MIN ==> {
            let down = counts.insert(id, saturating_dec(counts[id]));
            down.insert(id, saturating_inc(down[id])) == counts
        },
{
    if counts[id] < i64::MAX {
        let up = counts.insert(id, saturating_inc(counts[id]));
        assert(up.insert(id, saturating_dec(up[id])) =~= counts);
    }
    if counts[id] > i64::MIN {
        let down = counts.insert(id, saturating_dec(counts[id]));
        assert(down.insert(id, saturating_inc(down[id])) =~= counts);
    }
}

/// The app-root counter store: one count per allocated [`CounterId`].
#[derive(Debug, Clone)]
pub struct CounterStore {
    next_id: u64,
    counts: HashMap<CounterId, i64>,
}

impl CounterStore {
    /// The live slots and their counts.
    pub closed spec fn counts(&self) -> Map<u64, i64> {
        self.counts@
    }

    /// The id the next allocation hands out.
    pub closed spec fn next_id(&self) -> u64 {
        self.next_id
    }

    /// Every live slot was allocated before the next id.
    pub closed spec fn wf(&self) -> bool {
        forall|k: u64| #[trigger] self.counts@.contains_key(k) ==> k < self.next_id
    }

    /// What well-formedness says, over the model.
    pub proof fn lemma_wf(&self)
        ensures
            self.wf() <==> forall|k: u64| #[trigger] self.counts().contains_key(k) ==> k < self.next_id(),
    {
        if self.wf() {
            assert forall|k: u64| #[trigger] self.counts().contains_key(k) implies k < self.next_id() by {
                assert(self.counts@.contains_key(k));
            }
        }
        if forall|k: u64| #[trigger] self.counts().contains_key(k) ==> k < self.next_id() {
            assert forall|k: u64| #[trigger] self.counts@.contains_key(k) implies k < self.next_id by {
                assert(self.counts().contains_key(k));
            }
        }
    }

    /// Finitely many counters are live.
    pub proof fn lemma_counts_finite(&self)
        ensures
            self.counts().dom().finite(),
    {
        vstd::std_specs::hash::axiom_hashmap_view_finite_dom(self.counts);
    }

    /// Build an empty store.
    pub fn new() -> (s: Self)
        ensures
            s.wf(),
            s.counts() == Map::<u64, i64>::empty(),
            s.next_id() == 0,
    {
        CounterStore { next_id: 0, counts: HashMap::new() }
    }

    /// Allocate a fresh counter seeded to zero.
    pub fn create(&mut self) -> (id: CounterId)
        requires
            old(self).wf(),
            old(self).next_id() < u64::MAX,
        ensures
            final(self).wf(),
            id == old(self).next_id(),
            !old(self).counts().contains_key(id),
            final(self).next_id() == old(self).next_id() + 1,
            final(self).counts() == old(self).counts().insert(id, 0),
    {
        self.restore(0)
    }

    /// Allocate a fresh counter seeded to `count` (used when a panel is
    /// rehydrated from a layout snapshot).
    pub fn restore(&mut self, count: i64) -> (id: CounterId)
        requires
            old(self).wf(),
            old(self).next_id() < u64::MAX,
        ensures
            final(self).wf(),
            id == old(self).next_id(),
            !old(self).counts().contains_key(id),
            final(self).next_id() == old(self).next_id() + 1,
            final(self).counts() == old(self).counts().insert(id, count),
    {
        let id = self.next_id;
        self.next_id = self.next_id + 1;
        self.counts.insert(id, count);
        id
    }

    /// Release a counter slot; a later read of it yields `None`.
    pub fn release(&mut self, id: CounterId)
        requires
            old(self).wf(),
        ensures
            final(self).wf(),
            final(self).next_id() == old(self).next_id(),
            final(self).counts() == old(self).counts().remove(id),
    {
        self.counts.remove(&id);
    }

    /// Current count of a live slot, `None` once released or never made.
    pub fn count(&self, id: CounterId) -> (r: Option<i64>)
        ensures
            r == (if self.counts().contains_key(id) {
                Some(self.counts()[id])
            } else {
                None::<i64>
            }),
    {
        match self.counts.get(&id) {
            Some(v) => Some(*v),
            None => None,
        }
    }

    /// `+1` to a live counter, saturating; a stale id is a silent no-op.
    pub fn increment(&mut self, id: CounterId)
        requires
            old(self).wf(),
        ensures
            final(self).wf(),
            final(self).next_id() == old(self).next_id(),
            final(self).counts() == (if old(self).counts().contains_key(id) {
                old(self).counts().insert(id, saturating_inc(old(self).counts()[id]))
            } else {
                old(self).counts()
            }),
    {
        let current = match self.counts.get(&id) {
            Some(v) => Some(*v),
            None => None,
        };
        if let Some(value) = current {
            let next = if value == i64::MAX { value } else { value + 1 };
            self.counts.insert(id, next);
        }
    }

    /// `-1` to a live counter, saturating; a stale id is a silent no-op.
    pub fn decrement(&mut self, id: CounterId)
        requires
            old(self).wf(),
        ensures
            final(self).wf(),
            final(self).next_id() == old(self).next_id(),
            final(self).counts() == (if old(self).counts().contains_key(id) {
                old(self).counts().insert(id, saturating_dec(old(self).counts()[id]))
            } else {
                old(self).counts()
            }),
    {
        let current = match self.counts.get(&id) {
            Some(v) => Some(*v),
            None => None,
        };
        if let Some(value) = current {
            let next = if value == i64::MIN { value } else { value - 1 };
            self.counts.insert(id, next);
        }
    }

    /// The id the next allocation will hand out.
    pub fn upcoming_id(&self) -> (r: u64)
        ensures
            r == self.next_id(),
    {
        self.next_id
    }

    /// Number of live counters.
    pub fn len(&self) -> (n: usize)
        ensures
            n == self.counts().len(),
    {
        self.counts.len()
    }
}

impl Default for CounterStore {
    fn default() -> (s: Self)
        ensures
            s.wf(),
            s.counts() == Map::<u64, i64>::empty(),
            s.next_id() == 0,
    {
        CounterStore::new()
    }
}

/// The app-root clock store: one global tick every clock panel reads.
#[derive(Debug, Clone)]
pub struct ClockStore {
    ticks: u64,
}

impl ClockStore {
    /// The global tick count.
    pub closed spec fn tick_count(&self) -> u64 {
        self.ticks
    }

    /// Build a store at zero ticks.
    pub fn new() -> (s: Self)
        ensures
            s.tick_count() == 0,
    {
        ClockStore { ticks: 0 }
    }

    /// Advance the global tick by one, saturating at `u64::MAX`.
    pub fn tick(&mut self)
        ensures
            final(self).tick_count() == (if old(self).tick_count() == u64::MAX {
                u64::MAX
            } else {
                (old(self).tick_count() + 1) as u64
            }),
    {
        self.ticks = self.ticks.saturating_add(1);
    }

    /// Current global tick count.
    pub fn ticks(&self) -> (t: u64)
        ensures
            t == self.tick_count(),
    {
        self.ticks
    }

    /// Bring the tick forward to at least `ticks`; an older snapshot never
    /// lowers it.
    pub fn restore(&mut self, ticks: u64)
        ensures
            final(self).tick_count() == brought_forward(old(self).tick_count(), ticks),
    {
        if ticks > self.ticks {
            self.ticks = ticks;
        }
    }
}

impl Default for ClockStore {
    fn default() -> (s: Self)
        ensures
            s.tick_count() == 0,
    {
        ClockStore::new()
    }
}

/// The abstract content of the app-root stores.
pub struct StoresModel {
    /// Live counter slots and their counts.
    pub counts: Map<u64, i64>,
    /// The id the next counter allocation hands out.
    pub next_id: u64,
    /// The global clock tick.
    pub ticks: u64,
}

impl StoresModel {
    /// Every live counter slot was allocated before the next id.
    pub open spec fn wf(self) -> bool {
        forall|k: u64| #[trigger] self.counts.contains_key(k) ==> k < self.next_id
    }
}

/// The two app-root stores bundled for borrow ergonomics.
#[derive(Debug, Clone)]
pub struct AppStores {
    pub counter: CounterStore,
    pub clock: ClockStore,
}

impl AppStores {
    pub open spec fn wf(&self) -> bool {
        self.counter.wf()
    }

    /// The abstract content of both stores.
    pub open spec fn model(&self) -> StoresModel {
        StoresModel {
            counts: self.counter.counts(),
            next_id: self.counter.next_id(),
            ticks: self.clock.tick_count(),
        }
    }

    /// Build an empty store bundle.
    pub fn new() -> (s: Self)
        ensures
            s.wf(),
            s.counter.counts() == Map::<u64, i64>::empty(),
            s.counter.next_id() == 0,
            s.clock.tick_count() == 0,
    {
        AppStores { counter: CounterStore::new(), clock: ClockStore::new() }
    }
}

impl Default for AppStores {
    fn default() -> (s: Self)
        ensures
            s.wf(),
            s.counter.counts() == Map::<u64, i64>::empty(),
            s.counter.next_id() == 0,
            s.clock.tick_count() == 0,
    {
        AppStores::new()
    }
}

} // verus!
