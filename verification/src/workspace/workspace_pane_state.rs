//! Per-pane content: a tab stack with one active tab.
//!
//! The split tree manages splits *between* panes; a [`PaneState`] manages
//! tabs *within* a pane. Docks reuse the same stack.

use vstd::prelude::*;

verus! {

/// The active index after removing the tab at `index` from a stack whose
/// active tab was `active`, leaving `len_after` tabs: tabs after the
/// removed one shift down, and an index past the end clamps to the last
/// tab.
pub open spec fn active_after_remove(active: int, index: int, len_after: int) -> int {
    let shifted = if index < active { active - 1 } else { active };
    if shifted >= len_after && len_after > 0 {
        len_after - 1
    } else {
        shifted
    }
}

/// Removing a tab other than the active one leaves the same tab active:
/// after the removal the adjusted index addresses a tab, and that tab is the
/// one that was active before.
pub proof fn law_remove_keeps_active<P>(tabs: Seq<P>, active: int, index: int)
    requires
        0 <= active < tabs.len(),
        0 <= index < tabs.len(),
        index != active,
    ensures
        ({
            let rest = tabs.remove(index);
            let now = active_after_remove(active, index, rest.len() as int);
            &&& 0 <= now < rest.len()
            &&& rest[now] == tabs[active]
        }),
{
}

/// Removing the active tab of a stack that keeps at least one tab makes
/// the tab that followed it active, or, when it was the last tab, the tab
/// before it.
pub proof fn law_remove_active_selects_neighbour<P>(tabs: Seq<P>, active: int)
    requires
        0 <= active < tabs.len(),
        tabs.len() >= 2,
    ensures
        ({
            let rest = tabs.remove(active);
            let now = active_after_remove(active, active, rest.len() as int);
            &&& 0 <= now < rest.len()
            &&& active + 1 < tabs.len() ==> rest[now] == tabs[active + 1]
            &&& active + 1 == tabs.len() ==> rest[now] == tabs[active - 1]
        }),
{
}

/// A stack of tabbed panels with one active tab.
pub struct PaneState<P> {
    pub tabs: Vec<P>,
    pub active: usize,
}

/// The plain value of a tab stack.
pub struct PaneView<P> {
    pub tabs: Seq<P>,
    pub active: usize,
}

impl<P> PaneView<P> {
    /// The active index addresses a tab, or the stack is empty and the
    /// index is zero.
    pub open spec fn wf(self) -> bool {
        self.active < self.tabs.len() || (self.tabs.len() == 0 && self.active == 0)
    }
}

impl<P> View for PaneState<P> {
    type V = PaneView<P>;

    open spec fn view(&self) -> PaneView<P> {
        PaneView { tabs: self.tabs@, active: self.active }
    }
}

impl<P> PaneState<P> {
    /// The active index addresses a tab, or the stack is empty and the
    /// index is zero.
    pub open spec fn wf(&self) -> bool {
        self.active < self.tabs@.len() || (self.tabs@.len() == 0 && self.active == 0)
    }

    /// Build a pane from its initial tabs; the first tab is active.
    pub fn new(tabs: Vec<P>) -> (r: Self)
        ensures
            r.wf(),
            r.tabs@ == tabs@,
            r.active == 0,
    {
        PaneState { tabs, active: 0 }
    }

    /// Build an empty pane.
    pub fn empty() -> (r: Self)
        ensures
            r.wf(),
            r.tabs@ == Seq::<P>::empty(),
            r.active == 0,
    {
        PaneState { tabs: Vec::new(), active: 0 }
    }

    /// Number of tabs.
    pub fn len(&self) -> (n: usize)
        ensures
            n == self.tabs@.len(),
    {
        self.tabs.len()
    }

    /// Whether the stack has no tabs.
    pub fn is_empty(&self) -> (b: bool)
        ensures
            b == (self.tabs@.len() == 0),
    {
        self.tabs.len() == 0
    }

    /// The active panel, if any.
    pub fn active_panel(&self) -> (r: Option<&P>)
        ensures
            r == (if self.active < self.tabs@.len() {
                Some(&self.tabs@[self.active as int])
            } else {
                None::<&P>
            }),
    {
        if self.active < self.tabs.len() {
            Some(&self.tabs[self.active])
        } else {
            None
        }
    }

    /// Select a tab; an out-of-range index is ignored.
    pub fn select(&mut self, index: usize)
        ensures
            final(self).tabs@ == old(self).tabs@,
            final(self).active == (if index < old(self).tabs@.len() {
                index
            } else {
                old(self).active
            }),
            old(self).wf() ==> final(self).wf(),
    {
        if index < self.tabs.len() {
            self.active = index;
        }
    }

    /// Remove the tab at `index` and hand it back; `None` (and nothing
    /// changed) when the index is out of range. Later tabs shift down and
    /// the active index follows its tab, clamping to the last tab.
    pub fn close_tab(&mut self, index: usize) -> (r: Option<P>)
        ensures
            r is Some <==> index < old(self).tabs@.len(),
            r matches Some(p) ==> p == old(self).tabs@[index as int],
            index < old(self).tabs@.len() ==> {
                &&& final(self).tabs@ == old(self).tabs@.remove(index as int)
                &&& final(self).active == active_after_remove(
                    old(self).active as int,
                    index as int,
                    final(self).tabs@.len() as int,
                )
            },
            index >= old(self).tabs@.len() ==> *final(self) == *old(self),
            old(self).wf() ==> final(self).wf(),
            index < old(self).tabs@.len() && old(self).active < old(self).tabs@.len()
                && index != old(self).active ==> {
                &&& final(self).active < final(self).tabs@.len()
                &&& final(self).tabs@[final(self).active as int]
                    == old(self).tabs@[old(self).active as int]
            },
    {
        proof {
            if index < self.tabs@.len() && self.active < self.tabs@.len() && index != self.active {
                law_remove_keeps_active(self.tabs@, self.active as int, index as int);
            }
        }
        if index >= self.tabs.len() {
            return None;
        }
        let panel = self.tabs.remove(index);
        if index < self.active {
            self.active = self.active - 1;
        }
        if self.active >= self.tabs.len() && self.tabs.len() > 0 {
            self.active = self.tabs.len() - 1;
        }
        Some(panel)
    }

    /// Close the active tab and report whether the stack is now empty.
    /// Closing on an empty stack changes nothing and reports `true`; an
    /// active index past the end closes nothing and is clamped to the last
    /// tab.
    pub fn close_active(&mut self) -> (empty: bool)
        ensures
            old(self).wf() ==> final(self).wf(),
            old(self).tabs@.len() > 0 ==> final(self).wf(),
            old(self).tabs@.len() == 0 ==> *final(self) == *old(self),
            old(self).tabs@.len() > 0 && old(self).active < old(self).tabs@.len() ==> {
                &&& final(self).tabs@ == old(self).tabs@.remove(old(self).active as int)
                &&& final(self).active == active_after_remove(
                    old(self).active as int,
                    old(self).active as int,
                    final(self).tabs@.len() as int,
                )
            },
            old(self).tabs@.len() > 0 && old(self).active >= old(self).tabs@.len() ==> {
                &&& final(self).tabs@ == old(self).tabs@
                &&& final(self).active == old(self).tabs@.len() - 1
            },
            empty == (final(self).tabs@.len() == 0),
    {
        if self.tabs.len() == 0 {
            return true;
        }
        if self.active < self.tabs.len() {
            let index = self.active;
            let _ = self.close_tab(index);
        } else {
            self.active = self.tabs.len() - 1;
        }
        self.tabs.len() == 0
    }

    /// Insert `panel` at `index` (clamped to the end) and make it active.
    pub fn insert_active(&mut self, index: usize, panel: P) -> (at: usize)
        ensures
            at == (if index < old(self).tabs@.len() { index } else { old(self).tabs@.len() as usize }),
            final(self).tabs@ == old(self).tabs@.insert(at as int, panel),
            final(self).active == at,
            final(self).wf(),
    {
        let at = if index < self.tabs.len() { index } else { self.tabs.len() };
        self.tabs.insert(at, panel);
        self.active = at;
        at
    }

    /// Remove the tab at `index` without moving the active index, then
    /// clamp it to the last tab when it points past the end.
    pub fn take_tab(&mut self, index: usize) -> (r: Option<P>)
        ensures
            r is Some <==> index < old(self).tabs@.len(),
            r matches Some(p) ==> p == old(self).tabs@[index as int],
            index < old(self).tabs@.len() ==> {
                &&& final(self).tabs@ == old(self).tabs@.remove(index as int)
                &&& final(self).active == (if old(self).active >= final(self).tabs@.len()
                    && final(self).tabs@.len() > 0 {
                    (final(self).tabs@.len() - 1) as usize
                } else {
                    old(self).active
                })
            },
            index >= old(self).tabs@.len() ==> *final(self) == *old(self),
    {
        if index >= self.tabs.len() {
            return None;
        }
        let panel = self.tabs.remove(index);
        if self.active >= self.tabs.len() && self.tabs.len() > 0 {
            self.active = self.tabs.len() - 1;
        }
        Some(panel)
    }
}

} // verus!
