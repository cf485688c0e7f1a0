//! Edge docks: the left, right and bottom tab stacks framing the center.
//!
//! A dock is a [`PaneState`] plus a tri-state visibility. Its extent is
//! carried as the bit pattern of the renderer's single precision size; the
//! library never computes with it.

use crate::workspace::workspace_location::DockSide;
use crate::workspace::workspace_pane_state::PaneState;
use vstd::prelude::*;

verus! {

/// How a dock is shown.
#[derive(Debug, Clone, Copy, PartialEq, Eq, Hash, Structural)]
pub enum DockVisibility {
    /// Not shown at all.
    Hidden,
    /// Shown as a thin rail.
    Collapsed,
    /// Shown with its tab stack.
    Open,
}

/// The bit pattern of the default side dock width (280).
pub const DEFAULT_SIDE_EXTENT_BITS: u32 = 0x438c_0000u32;

/// The bit pattern of the default bottom dock height (200).
pub const DEFAULT_BOTTOM_EXTENT_BITS: u32 = 0x4348_0000u32;

/// One edge dock.
pub struct Dock<P> {
    pub tabs: PaneState<P>,
    pub visibility: DockVisibility,
    pub extent_bits: u32,
}

impl<P> Dock<P> {
    /// A hidden side dock of the default width.
    pub fn new(tabs: PaneState<P>) -> (r: Self)
        ensures
            r.tabs == tabs,
            r.visibility == DockVisibility::Hidden,
            r.extent_bits == DEFAULT_SIDE_EXTENT_BITS,
    {
        Self::with_extent(tabs, DockVisibility::Hidden, DEFAULT_SIDE_EXTENT_BITS)
    }

    /// An open side dock of the default width.
    pub fn open_with(tabs: PaneState<P>) -> (r: Self)
        ensures
            r.tabs == tabs,
            r.visibility == DockVisibility::Open,
            r.extent_bits == DEFAULT_SIDE_EXTENT_BITS,
    {
        Self::with_extent(tabs, DockVisibility::Open, DEFAULT_SIDE_EXTENT_BITS)
    }

    /// A dock with the given visibility and extent.
    pub fn with_extent(tabs: PaneState<P>, visibility: DockVisibility, extent_bits: u32) -> (r: Self)
        ensures
            r.tabs == tabs,
            r.visibility == visibility,
            r.extent_bits == extent_bits,
    {
        Dock { tabs, visibility, extent_bits }
    }

    pub fn open(&mut self)
        ensures
            final(self).visibility == DockVisibility::Open,
            final(self).tabs == old(self).tabs,
            final(self).extent_bits == old(self).extent_bits,
    {
        self.visibility = DockVisibility::Open;
    }

    pub fn collapse(&mut self)
        ensures
            final(self).visibility == DockVisibility::Collapsed,
            final(self).tabs == old(self).tabs,
            final(self).extent_bits == old(self).extent_bits,
    {
        self.visibility = DockVisibility::Collapsed;
    }

    /// Hide the dock (the name `hide` is reserved by the verifier).
    pub fn hide_dock(&mut self)
        ensures
            final(self).visibility == DockVisibility::Hidden,
            final(self).tabs == old(self).tabs,
            final(self).extent_bits == old(self).extent_bits,
    {
        self.visibility = DockVisibility::Hidden;
    }

    pub fn is_open(&self) -> (b: bool)
        ensures
            b == (self.visibility == DockVisibility::Open),
    {
        self.visibility == DockVisibility::Open
    }

    pub fn is_collapsed(&self) -> (b: bool)
        ensures
            b == (self.visibility == DockVisibility::Collapsed),
    {
        self.visibility == DockVisibility::Collapsed
    }

    pub fn is_hidden(&self) -> (b: bool)
        ensures
            b == (self.visibility == DockVisibility::Hidden),
    {
        self.visibility == DockVisibility::Hidden
    }

    /// Whether the dock shows anything at all: it holds a tab and is open
    /// or collapsed (an empty dock renders nothing).
    pub fn is_visible(&self) -> (b: bool)
        ensures
            b == (self.visibility != DockVisibility::Hidden && self.tabs.tabs@.len() > 0),
    {
        self.visibility != DockVisibility::Hidden && !self.tabs.is_empty()
    }

    pub fn is_empty(&self) -> (b: bool)
        ensures
            b == (self.tabs.tabs@.len() == 0),
    {
        self.tabs.is_empty()
    }
}

/// The three edge docks.
pub struct Docks<P> {
    pub left: Dock<P>,
    pub right: Dock<P>,
    pub bottom: Dock<P>,
}

impl<P> Docks<P> {
    /// The dock on `side`.
    pub open spec fn at(&self, side: DockSide) -> &Dock<P> {
        match side {
            DockSide::Left => &self.left,
            DockSide::Right => &self.right,
            DockSide::Bottom => &self.bottom,
        }
    }

    /// The docks with the dock on `side` replaced.
    pub open spec fn with_dock(self, side: DockSide, dock: Dock<P>) -> Self {
        match side {
            DockSide::Left => Docks { left: dock, ..self },
            DockSide::Right => Docks { right: dock, ..self },
            DockSide::Bottom => Docks { bottom: dock, ..self },
        }
    }

    /// Every dock's tab stack is well formed.
    pub open spec fn wf(&self) -> bool {
        &&& self.left.tabs.wf()
        &&& self.right.tabs.wf()
        &&& self.bottom.tabs.wf()
    }

    /// Hidden docks holding the given stacks; the bottom one is the
    /// default bottom height.
    pub fn new(left: PaneState<P>, right: PaneState<P>, bottom: PaneState<P>) -> (r: Self)
        ensures
            r.left == (Dock::<P> { tabs: left, visibility: DockVisibility::Hidden, extent_bits: DEFAULT_SIDE_EXTENT_BITS }),
            r.right == (Dock::<P> { tabs: right, visibility: DockVisibility::Hidden, extent_bits: DEFAULT_SIDE_EXTENT_BITS }),
            r.bottom == (Dock::<P> { tabs: bottom, visibility: DockVisibility::Hidden, extent_bits: DEFAULT_BOTTOM_EXTENT_BITS }),
    {
        Docks {
            left: Dock::new(left),
            right: Dock::new(right),
            bottom: Dock::with_extent(bottom, DockVisibility::Hidden, DEFAULT_BOTTOM_EXTENT_BITS),
        }
    }

    /// Three hidden, empty docks.
    pub fn empty() -> (r: Self)
        ensures
            r.wf(),
            r.left.tabs.tabs@.len() == 0 && r.right.tabs.tabs@.len() == 0 && r.bottom.tabs.tabs@.len() == 0,
            r.left.tabs.active == 0 && r.right.tabs.active == 0 && r.bottom.tabs.active == 0,
            r.left.visibility == DockVisibility::Hidden,
            r.right.visibility == DockVisibility::Hidden,
            r.bottom.visibility == DockVisibility::Hidden,
            r.left.extent_bits == DEFAULT_SIDE_EXTENT_BITS,
            r.right.extent_bits == DEFAULT_SIDE_EXTENT_BITS,
            r.bottom.extent_bits == DEFAULT_BOTTOM_EXTENT_BITS,
    {
        Self::new(PaneState::empty(), PaneState::empty(), PaneState::empty())
    }

    /// The dock on `side`.
    pub fn get(&self, side: DockSide) -> (r: &Dock<P>)
        ensures
            r == self.at(side),
    {
        match side {
            DockSide::Left => &self.left,
            DockSide::Right => &self.right,
            DockSide::Bottom => &self.bottom,
        }
    }

    /// The dock on `side`, to change in place; the other docks stay.
    pub fn get_mut(&mut self, side: DockSide) -> (r: &mut Dock<P>)
        ensures
            *r == *old(self).at(side),
            *final(self) == old(self).with_dock(side, *final(r)),
    {
        match side {
            DockSide::Left => &mut self.left,
            DockSide::Right => &mut self.right,
            DockSide::Bottom => &mut self.bottom,
        }
    }

    /// Set the visibility of the dock on `side`; its tabs stay.
    pub fn set_visibility(&mut self, side: DockSide, visibility: DockVisibility)
        ensures
            *final(self) == old(self).with_dock(side, (Dock { visibility, ..*old(self).at(side) })),
    {
        match side {
            DockSide::Left => self.left.visibility = visibility,
            DockSide::Right => self.right.visibility = visibility,
            DockSide::Bottom => self.bottom.visibility = visibility,
        }
    }

    /// Whether the dock on `side` is drawn: not hidden and not empty.
    pub fn is_visible(&self, side: DockSide) -> (b: bool)
        ensures
            b == (self.at(side).visibility != DockVisibility::Hidden && self.at(side).tabs.tabs@.len() > 0),
    {
        let dock = self.get(side);
        dock.visibility != DockVisibility::Hidden && !dock.is_empty()
    }
}

} // verus!
