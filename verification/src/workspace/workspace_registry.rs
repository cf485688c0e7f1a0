//! The panel registry: which panel kinds a composition root can rebuild
//! from a persisted handle.
//!
//! The shell never names a concrete panel type: a layout restore hands
//! each handle to the registry, which rebuilds it through the `Panel`
//! trait when its kind is registered and drops it otherwise.

use crate::workspace::workspace_panel::{HandleData, Panel, PanelKind};
use crate::workspace::workspace_stores::AppStores;
use vstd::prelude::*;

verus! {

/// The kinds a composition root registered.
#[derive(Debug, Clone)]
pub struct PanelRegistry {
    kinds: Vec<PanelKind>,
}

impl PanelRegistry {
    /// The registered kinds.
    pub closed spec fn registered(&self) -> Set<PanelKind> {
        self.kinds@.to_set()
    }

    /// An empty registry.
    pub fn new() -> (r: Self)
        ensures
            r.registered() == Set::<PanelKind>::empty(),
    {
        let r = PanelRegistry { kinds: Vec::new() };
        proof {
            assert(r.kinds@.to_set() =~= Set::<PanelKind>::empty());
        }
        r
    }

    /// Register `kind`. Returns `&mut self` for fluent setup.
    pub fn register(&mut self, kind: PanelKind) -> (r: &mut Self)
        ensures
            *final(self) == *final(r),
            r.registered() == old(self).registered().insert(kind),
    {
        self.kinds.push(kind);
        proof {
            assert(self.kinds@.to_set() =~= old(self).kinds@.to_set().insert(kind)) by {
                assert forall|k: PanelKind| #[trigger] self.kinds@.contains(k) <==> (old(self).kinds@.contains(k) || k == kind) by {
                    if self.kinds@.contains(k) {
                        let i = choose|i: int| 0 <= i < self.kinds@.len() && self.kinds@[i] == k;
                        if i < old(self).kinds@.len() {
                            assert(old(self).kinds@[i] == k);
                        }
                    }
                    if old(self).kinds@.contains(k) {
                        let i = choose|i: int| 0 <= i < old(self).kinds@.len() && old(self).kinds@[i] == k;
                        assert(self.kinds@[i] == k);
                    }
                    if k == kind {
                        assert(self.kinds@[self.kinds@.len() - 1] == k);
                    }
                }
            }
        }
        self
    }

    /// Whether `kind` is registered.
    pub fn contains(&self, kind: PanelKind) -> (b: bool)
        ensures
            b == self.registered().contains(kind),
    {
        let n = self.kinds.len();
        let mut i: usize = 0;
        while i < n
            invariant
                n == self.kinds@.len(),
                i <= n,
                forall|j: int| 0 <= j < i ==> self.kinds@[j] != kind,
            decreases n - i,
        {
            if self.kinds[i] == kind {
                proof {
                    assert(self.kinds@.contains(kind));
                }
                return true;
            }
            i = i + 1;
        }
        proof {
            if self.kinds@.contains(kind) {
                let j = choose|j: int| 0 <= j < self.kinds@.len() && self.kinds@[j] == kind;
            }
        }
        false
    }

    /// Rebuild a panel of `kind` from `snapshot`; `None` (and nothing
    /// built) when the kind is not registered.
    pub fn build<P: Panel>(&self, kind: PanelKind, snapshot: &HandleData, stores: &mut AppStores) -> (r: Option<P>)
        requires
            old(stores).wf(),
            P::room(old(stores).model(), 1),
        ensures
            final(stores).wf(),
            r is Some <==> self.registered().contains(kind),
            r matches Some(q) ==> P::rehydrate_post(kind, snapshot.view(), old(stores).model(), q, final(stores).model()),
            r is None ==> final(stores).model() == old(stores).model(),
            forall|n: nat|
                P::room(old(stores).model(), n + 1) ==> #[trigger] P::room(final(stores).model(), n),
    {
        proof {
            assert forall|n: nat| P::room(stores.model(), n + 1) implies #[trigger] P::room(stores.model(), n) by {
                P::lemma_room_mono(stores.model(), n + 1, n);
            }
        }
        if self.contains(kind) {
            Some(P::from_handle(kind, snapshot, stores))
        } else {
            None
        }
    }
}

} // verus!
