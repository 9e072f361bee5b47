//! Addresses of grid cells.

use vstd::prelude::*;

verus! {

/// The address of one cell: a column, a row and the level they belong to.
#[derive(Debug, PartialEq, Eq, Clone, Copy, Hash, Structural)]
pub struct SlotPosition {
    pub x: usize,
    pub y: usize,
    pub level: usize,
}

impl SlotPosition {
    /// The cell with the same column and row on another level, the far end
    /// of a portal.
    pub fn to_level(&self, level: usize) -> (r: SlotPosition)
        ensures
            r == (SlotPosition { x: self.x, y: self.y, level }),
    {
        SlotPosition { x: self.x, y: self.y, level }
    }
}

} // verus!
