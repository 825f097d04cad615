//! The cell record of a colony.

use vstd::prelude::*;

verus! {

/// One cell of the colony: a fixed grid position and its current liveness.
#[derive(Debug, Clone, Copy, PartialEq, Eq, Structural)]
pub struct Cell {
    pub x: i64,
    pub y: i64,
    pub live: bool,
}

impl Cell {
    /// A cell at `(x, y)` with the given liveness.
    pub fn new(x: i64, y: i64, live: bool) -> (cell: Cell)
        ensures
            cell == (Cell { x, y, live }),
    {
        Cell { x, y, live }
    }
}

} // verus!
