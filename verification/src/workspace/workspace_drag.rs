//! Tab drag-and-drop state and the integer side of tab insertion.
//!
//! Hit testing against pixel geometry belongs to the renderer; this module
//! holds what the reducer decides with: the resolved [`DropTarget`], the
//! drag's source, and whether the pointer moved. Cursor positions are
//! carried as single precision bit patterns; windows by an opaque key.

use crate::workspace::workspace_location::{DockSide, Pane, PanelLocation};
use crate::workspace::workspace_pane_grid::SplitAxis;
use vstd::prelude::*;

verus! {

/// Direction of an edge-split drop.
#[derive(Debug, Clone, Copy, PartialEq, Eq, Hash, Structural)]
pub enum Direction {
    Left,
    Right,
    Up,
    Down,
}

/// The split axis an edge drop creates: left/right split vertically,
/// up/down horizontally.
pub open spec fn direction_axis(d: Direction) -> SplitAxis {
    match d {
        Direction::Left | Direction::Right => SplitAxis::Vertical,
        Direction::Up | Direction::Down => SplitAxis::Horizontal,
    }
}

/// Whether the dropped tab lands before the target pane (left or above).
pub open spec fn direction_leads(d: Direction) -> bool {
    d is Left || d is Up
}

impl Direction {
    pub fn axis(self) -> (r: SplitAxis)
        ensures
            r == direction_axis(self),
            (self is Left || self is Right) ==> r == SplitAxis::Vertical,
            (self is Up || self is Down) ==> r == SplitAxis::Horizontal,
    {
        match self {
            Direction::Left | Direction::Right => SplitAxis::Vertical,
            Direction::Up | Direction::Down => SplitAxis::Horizontal,
        }
    }

    pub fn leads(self) -> (r: bool)
        ensures
            r == direction_leads(self),
            r <==> (self is Left || self is Up),
    {
        match self {
            Direction::Left | Direction::Up => true,
            _ => false,
        }
    }
}

/// Insert position within a tab strip.
#[derive(Debug, Clone, Copy, PartialEq, Eq, Structural)]
pub struct TabStripTarget {
    pub location: PanelLocation,
    pub index: usize,
}

/// An edge of a center pane.
#[derive(Debug, Clone, Copy, PartialEq, Eq, Structural)]
pub struct SplitPaneTarget {
    pub pane: Pane,
    pub direction: Direction,
}

/// Resolved drop target from hit testing.
#[derive(Debug, Clone, Copy, PartialEq, Eq, Structural)]
pub enum DropTarget {
    TabStrip(TabStripTarget),
    SplitPane(SplitPaneTarget),
    Dock(DockSide),
    /// Outside every zone: the tab tears off into a new window.
    Nowhere,
}

/// A point as the bit patterns of its two single precision coordinates.
#[derive(Debug, Clone, Copy, PartialEq, Eq, Structural)]
pub struct PointBits {
    pub x_bits: u32,
    pub y_bits: u32,
}

/// A size as the bit patterns of its two single precision extents.
#[derive(Debug, Clone, Copy, PartialEq, Eq, Structural)]
pub struct SizeBits {
    pub width_bits: u32,
    pub height_bits: u32,
}

/// The current tab drag.
#[derive(Debug, Clone, Copy, PartialEq, Eq, Structural)]
pub struct DragState {
    pub source_location: PanelLocation,
    pub source_tab: usize,
    pub target: DropTarget,
    /// The window that should receive the drop, by its key.
    pub target_window: Option<u64>,
    /// The window that last reported the cursor, by its key.
    pub cursor_window: Option<u64>,
    /// Latest cursor position in window coordinates.
    pub cursor: PointBits,
    /// Set once the cursor moved; a drop with no target and no movement
    /// is a click on the tab.
    pub pointer_moved: bool,
}

impl DragState {
    /// A drag of tab `source_tab` at `source_location`, with no target yet.
    pub fn new(source_location: PanelLocation, source_tab: usize) -> (r: Self)
        ensures
            r == (DragState {
                source_location,
                source_tab,
                target: DropTarget::Nowhere,
                target_window: None,
                cursor_window: None,
                cursor: PointBits { x_bits: 0, y_bits: 0 },
                pointer_moved: false,
            }),
    {
        DragState {
            source_location,
            source_tab,
            target: DropTarget::Nowhere,
            target_window: None,
            cursor_window: None,
            cursor: PointBits { x_bits: 0, y_bits: 0 },
            pointer_moved: false,
        }
    }
}

/// The tab a strip at `location` leaves out while it is being dragged.
pub open spec fn omitted_tab(location: PanelLocation, drag: Option<DragState>) -> Option<usize> {
    match drag {
        Some(d) => if d.source_location == location { Some(d.source_tab) } else { None },
        None => None,
    }
}

/// The tab a strip at `location` leaves out while it is being dragged.
pub fn omit_tab_at(location: PanelLocation, drag: Option<&DragState>) -> (r: Option<usize>)
    ensures
        r == omitted_tab(location, match drag { Some(d) => Some(*d), None => None }),
{
    match drag {
        Some(d) => if d.source_location == location { Some(d.source_tab) } else { None },
        None => None,
    }
}

/// How many of the tabs `0..min(logical_index, tab_count)` are drawn
/// when tab `omit` (if any) is hidden.
pub open spec fn visible_before(logical_index: int, tab_count: int, omit: Option<usize>) -> int {
    let end = if logical_index < tab_count { logical_index } else { tab_count };
    match omit {
        Some(o) => if 0 <= o < end { end - 1 } else { end },
        None => end,
    }
}

/// Number of drawn tabs before logical insert position `logical_index`.
pub fn visible_tabs_before(logical_index: usize, tab_count: usize, omit: Option<usize>) -> (r: usize)
    ensures
        r == visible_before(logical_index as int, tab_count as int, omit),
{
    let end = if logical_index < tab_count { logical_index } else { tab_count };
    let mut count: usize = 0;
    let mut i: usize = 0;
    while i < end
        invariant
            i <= end,
            count == visible_before(i as int, i as int, omit),
        decreases end - i,
    {
        if omit != Some(i) {
            count = count + 1;
        }
        i = i + 1;
    }
    count
}

} // verus!
