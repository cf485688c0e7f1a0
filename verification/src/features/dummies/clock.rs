//! The clock panel: a view over the one global tick.

use crate::workspace::workspace_panel::{HandleData, HandleView};
use crate::workspace::workspace_stores::{AppStores, StoresModel};
use vstd::prelude::*;

verus! {

/// A clock panel; it holds no state of its own.
#[derive(Debug, Clone, Copy, PartialEq, Eq, Structural)]
pub struct ClockPanel;

/// The ticks a handle restores: its `ticks`, zero when absent.
pub open spec fn handle_ticks(h: HandleView) -> u64 {
    match h.ticks {
        Some(t) => t,
        None => 0,
    }
}

/// The stores after bringing the tick forward to `t`.
pub open spec fn stores_with_ticks(s: StoresModel, t: u64) -> StoresModel {
    StoresModel { ticks: if t > s.ticks { t } else { s.ticks }, ..s }
}

impl ClockPanel {
    /// A clock panel; every clock shows the same global tick.
    pub fn new() -> (r: Self)
        ensures
            r == ClockPanel,
    {
        ClockPanel
    }

    /// Rehydrate from a handle: the global tick is brought forward to the
    /// persisted value.
    pub fn from_snapshot(snapshot: &HandleData, stores: &mut AppStores) -> (r: Self)
        requires
            old(stores).wf(),
        ensures
            final(stores).wf(),
            final(stores).model() == stores_with_ticks(old(stores).model(), handle_ticks(snapshot.view())),
    {
        let ticks: u64 = match snapshot.ticks {
            Some(t) => t,
            None => 0,
        };
        stores.clock.restore(ticks);
        ClockPanel
    }

    /// The persisted handle: the global tick. Always durable.
    pub fn snapshot(&self, stores: &AppStores) -> (r: Option<HandleData>)
        ensures
            r matches Some(h) && h.view() == (HandleView { count: None, ticks: Some(stores.model().ticks), content: None }),
    {
        Some(HandleData { count: None, ticks: Some(stores.clock.ticks()), content: None })
    }

    /// The tab title.
    pub fn title(&self) -> (r: String)
        ensures
            r@ == "Clock"@,
    {
        "Clock".to_owned()
    }
}

} // verus!
