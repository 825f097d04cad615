//! The transition rule: which cells are alive in the next generation.

use vstd::prelude::*;
use crate::cell::Cell;
use crate::neighbors::{neighbor_count, MAX_CELLS};

verus! {

/// Liveness in the next generation of a cell that is `live` now and has
/// `neighbors` live neighbours: a dead cell comes to life on exactly three, a
/// live cell stays alive on two or three.
pub open spec fn next_state(live: bool, neighbors: int) -> bool {
    if live {
        neighbors == 2 || neighbors == 3
    } else {
        neighbors == 3
    }
}

/// Liveness of `c` in the generation that follows `cells`.
pub open spec fn lives_next(c: Cell, cells: Seq<Cell>, max_x: int, max_y: int) -> bool {
    next_state(c.live, neighbor_count(c, cells, max_x, max_y))
}

/// Resurrection: a dead cell with exactly three live neighbours is alive in
/// the next generation, and with any other count it stays dead.
pub proof fn lemma_resurrection(c: Cell, cells: Seq<Cell>, max_x: int, max_y: int)
    requires
        !c.live,
    ensures
        neighbor_count(c, cells, max_x, max_y) == 3 ==> lives_next(c, cells, max_x, max_y),
        neighbor_count(c, cells, max_x, max_y) != 3 ==> !lives_next(c, cells, max_x, max_y),
{
}

/// Survival: a live cell is alive in the next generation exactly when it has
/// two or three live neighbours.
pub proof fn lemma_survival(c: Cell, cells: Seq<Cell>, max_x: int, max_y: int)
    requires
        c.live,
    ensures
        lives_next(c, cells, max_x, max_y) <==> (neighbor_count(c, cells, max_x, max_y) == 2
            || neighbor_count(c, cells, max_x, max_y) == 3),
{
}

impl Cell {
    /// Decides whether this cell is alive in the next generation, from the
    /// colony `others` as it stands now.
    pub fn spawn_next(&self, others: &Vec<Cell>, max_x: i64, max_y: i64) -> (next: bool)
        requires
            others.len() <= MAX_CELLS,
        ensures
            next == lives_next(*self, others@, max_x as int, max_y as int),
    {
        let live_neighbour_count: i32 = self.live_neighbors(others, max_x, max_y);

        if !self.live && live_neighbour_count == 3 {
            return true;
        }
        if self.live {
            match live_neighbour_count {
                1 => false,
                2 | 3 => true,
                _ => false,
            }
        } else {
            false
        }
    }
}

} // verus!
