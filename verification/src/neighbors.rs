//! Counting the live neighbours of a cell inside its clamped 3x3 window.

use vstd::prelude::*;
use crate::cell::Cell;

verus! {

/// The most cells a colony may hold for its live neighbours to be counted:
/// the count is a 32-bit signed number.
pub const MAX_CELLS: usize = 0x7fff_ffff;

/// Lower edge of the window along one axis: one step below `p`, except that a
/// position with nothing below it inside the grid starts at itself.
pub open spec fn window_start(p: int) -> int {
    if p - 1 < 0 {
        p
    } else {
        p - 1
    }
}

/// Upper edge of the window along one axis: one step above `p`, clamped to
/// `bound` once that step reaches it. The edge is compared inclusively.
pub open spec fn window_end(p: int, bound: int) -> int {
    if p + 1 >= bound {
        bound
    } else {
        p + 1
    }
}

/// Whether the position of `c` lies in the window centred on `center`.
pub open spec fn in_window(c: Cell, center: Cell, max_x: int, max_y: int) -> bool {
    &&& window_start(center.x as int) <= c.x <= window_end(center.x as int, max_x)
    &&& window_start(center.y as int) <= c.y <= window_end(center.y as int, max_y)
}

/// Whether `c` adds one to the raw count taken around `center`.
pub open spec fn counts_toward(c: Cell, center: Cell, max_x: int, max_y: int) -> bool {
    c.live && in_window(c, center, max_x, max_y)
}

/// Number of live cells of `cells` whose position lies in the window centred
/// on `center`. The centre itself is counted here when it is among them.
pub open spec fn live_in_window(cells: Seq<Cell>, center: Cell, max_x: int, max_y: int) -> int
    decreases cells.len(),
{
    if cells.len() == 0 {
        0
    } else {
        live_in_window(cells.drop_last(), center, max_x, max_y) + if counts_toward(
            cells.last(),
            center,
            max_x,
            max_y,
        ) {
            1int
        } else {
            0int
        }
    }
}

/// Live neighbours of `center`: the live cells in its window, less the
/// centre's own liveness.
pub open spec fn neighbor_count(center: Cell, cells: Seq<Cell>, max_x: int, max_y: int) -> int {
    live_in_window(cells, center, max_x, max_y) - if center.live {
        1int
    } else {
        0int
    }
}

/// Where no cell counts toward the window, the raw count is zero.
pub proof fn lemma_window_without_hits(cells: Seq<Cell>, center: Cell, max_x: int, max_y: int)
    requires
        forall|i: int|
            0 <= i < cells.len() ==> !counts_toward(#[trigger] cells[i], center, max_x, max_y),
    ensures
        live_in_window(cells, center, max_x, max_y) == 0,
    decreases cells.len(),
{
    if cells.len() > 0 {
        assert(!counts_toward(cells[cells.len() - 1], center, max_x, max_y));
        assert forall|i: int| 0 <= i < cells.drop_last().len() implies !counts_toward(
            #[trigger] cells.drop_last()[i],
            center,
            max_x,
            max_y,
        ) by {
            assert(cells.drop_last()[i] == cells[i]);
        }
        lemma_window_without_hits(cells.drop_last(), center, max_x, max_y);
    }
}

impl Cell {
    /// Counts the live cells of `others` in the window around this cell,
    /// leaving this cell out of the total.
    pub fn live_neighbors(&self, others: &Vec<Cell>, max_x: i64, max_y: i64) -> (lives: i32)
        requires
            others.len() <= MAX_CELLS,
        ensures
            lives == neighbor_count(*self, others@, max_x as int, max_y as int),
    {
        let ystart: i64 = if self.y <= 0 { self.y } else { self.y - 1 };
        let yend: i64 = if self.y >= max_y || self.y + 1 >= max_y { max_y } else { self.y + 1 };
        let xstart: i64 = if self.x <= 0 { self.x } else { self.x - 1 };
        let xend: i64 = if self.x >= max_x || self.x + 1 >= max_x { max_x } else { self.x + 1 };
        let own: i32 = if self.live { -1 } else { 0 };

        let mut lives_count: usize = 0;
        let mut idx: usize = 0;
        while idx < others.len()
            invariant
                idx <= others.len(),
                others.len() <= MAX_CELLS,
                lives_count <= idx,
                lives_count == live_in_window(
                    others@.take(idx as int),
                    *self,
                    max_x as int,
                    max_y as int,
                ),
                ystart == window_start(self.y as int),
                yend == window_end(self.y as int, max_y as int),
                xstart == window_start(self.x as int),
                xend == window_end(self.x as int, max_x as int),
            decreases others.len() - idx,
        {
            let c: Cell = others[idx];
            proof {
                assert(others@.take(idx + 1).drop_last() =~= others@.take(idx as int));
            }
            if c.live && c.x >= xstart && c.x <= xend && c.y >= ystart && c.y <= yend {
                lives_count += 1;
            }
            idx += 1;
        }
        proof {
            assert(others@.take(idx as int) =~= others@);
        }
        own + lives_count as i32
    }
}

} // verus!
