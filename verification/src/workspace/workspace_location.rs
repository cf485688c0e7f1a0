//! Panel location addressing.
//!
//! A [`PanelLocation`] names where a panel lives — a pane of the center
//! split tree or one of the three edge docks — so focus, routing, drag
//! targets and persistence address every panel the same way.

use vstd::prelude::*;

verus! {

/// Identity of a pane of the center split tree. Ids are handed out in
/// increasing order by [`crate::workspace::workspace_pane_grid::PaneGrid`]
/// and never reused within one grid.
#[derive(Debug, Clone, Copy, PartialEq, Eq, Hash, PartialOrd, Ord, Structural)]
pub struct Pane(pub usize);

/// One of the three collapsible edge docks. The top edge is reserved for
/// application chrome, so there is no top dock.
#[derive(Debug, Clone, Copy, PartialEq, Eq, Hash, Structural)]
pub enum DockSide {
    Left,
    Right,
    Bottom,
}

/// The chrome label of a dock side.
pub open spec fn dock_side_label(side: DockSide) -> Seq<char> {
    match side {
        DockSide::Left => "Left"@,
        DockSide::Right => "Right"@,
        DockSide::Bottom => "Bottom"@,
    }
}

impl DockSide {
    /// Human-readable label for chrome and the status bar.
    pub fn label(self) -> (r: &'static str)
        ensures
            r@ == dock_side_label(self),
    {
        match self {
            DockSide::Left => "Left",
            DockSide::Right => "Right",
            DockSide::Bottom => "Bottom",
        }
    }

    /// All dock sides in stable rendering order.
    pub fn all() -> (r: [DockSide; 3])
        ensures
            r@ == seq![DockSide::Left, DockSide::Right, DockSide::Bottom],
    {
        [DockSide::Left, DockSide::Right, DockSide::Bottom]
    }
}

/// Where a panel lives in the workspace.
#[derive(Debug, Clone, Copy, PartialEq, Eq, Hash, Structural)]
pub enum PanelLocation {
    /// A pane in the center split tree.
    Center(Pane),
    /// The tab stack hosted by an edge dock.
    Dock(DockSide),
}

impl PanelLocation {
    /// The dock side this location addresses, if it is a dock.
    pub fn dock_side(self) -> (r: Option<DockSide>)
        ensures
            r == (match self {
                PanelLocation::Dock(side) => Some(side),
                PanelLocation::Center(_) => None::<DockSide>,
            }),
    {
        match self {
            PanelLocation::Dock(side) => Some(side),
            PanelLocation::Center(_) => None,
        }
    }

    /// Whether this location addresses a center pane.
    pub fn is_center(self) -> (r: bool)
        ensures
            r == (self is Center),
    {
        match self {
            PanelLocation::Center(_) => true,
            PanelLocation::Dock(_) => false,
        }
    }
}

} // verus!
