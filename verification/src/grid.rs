//! The colony as a dense row-major grid, and what neighbour counting means on
//! one: the live cells among the up to eight adjacent positions.

use vstd::prelude::*;
use vstd::arithmetic::div_mod::{lemma_fundamental_div_mod, lemma_fundamental_div_mod_converse};
use crate::cell::Cell;
use crate::colony::next_generation;
use crate::neighbors::{
    counts_toward,
    in_window,
    lemma_window_without_hits,
    live_in_window,
    neighbor_count,
};
use crate::rule::{lives_next, next_state};

verus! {

/// Index of position `(x, y)` in a row-major grid with rows of `max_x` cells.
pub open spec fn cell_index(max_x: int, x: int, y: int) -> int {
    y * max_x + x
}

/// `(x, y)` is a position of the grid with bounds `max_x` and `max_y`.
pub open spec fn in_bounds(max_x: int, max_y: int, x: int, y: int) -> bool {
    0 <= x < max_x && 0 <= y < max_y
}

/// `cells` is a dense grid: one cell for every position of
/// `[0, max_x) x [0, max_y)`, row after row, each knowing its own position.
pub open spec fn is_grid(cells: Seq<Cell>, max_x: int, max_y: int) -> bool {
    &&& 0 <= max_x
    &&& 0 <= max_y
    &&& cells.len() == max_x * max_y
    &&& forall|i: int|
        0 <= i < cells.len() ==> (#[trigger] cells[i]).x == i % max_x && cells[i].y == i / max_x
}

/// The cell at `(x, y)` exists and is alive. Positions outside the grid hold
/// no live cell.
pub open spec fn alive_at(cells: Seq<Cell>, max_x: int, max_y: int, x: int, y: int) -> bool {
    in_bounds(max_x, max_y, x, y) && cells[cell_index(max_x, x, y)].live
}

/// One for a live cell at `(x, y)`, zero otherwise.
pub open spec fn live_at(cells: Seq<Cell>, max_x: int, max_y: int, x: int, y: int) -> int {
    if alive_at(cells, max_x, max_y, x, y) {
        1
    } else {
        0
    }
}

/// Number of live cells among the eight positions around `(x, y)`.
pub open spec fn adjacent_live(cells: Seq<Cell>, max_x: int, max_y: int, x: int, y: int) -> int {
    live_at(cells, max_x, max_y, x - 1, y - 1)
        + live_at(cells, max_x, max_y, x, y - 1)
        + live_at(cells, max_x, max_y, x + 1, y - 1)
        + live_at(cells, max_x, max_y, x - 1, y)
        + live_at(cells, max_x, max_y, x + 1, y)
        + live_at(cells, max_x, max_y, x - 1, y + 1)
        + live_at(cells, max_x, max_y, x, y + 1)
        + live_at(cells, max_x, max_y, x + 1, y + 1)
}

/// A position inside the grid has an index inside the sequence, and the index
/// gives the position back.
pub proof fn lemma_index_of_position(max_x: int, max_y: int, x: int, y: int)
    requires
        in_bounds(max_x, max_y, x, y),
    ensures
        0 <= cell_index(max_x, x, y) < max_x * max_y,
        cell_index(max_x, x, y) % max_x == x,
        cell_index(max_x, x, y) / max_x == y,
{
    lemma_fundamental_div_mod_converse(cell_index(max_x, x, y), max_x, y, x);
    assert(0 <= y * max_x && (y + 1) * max_x <= max_y * max_x) by (nonlinear_arith)
        requires
            0 <= y < max_y,
            0 < max_x,
    ;
    assert((y + 1) * max_x == y * max_x + max_x) by (nonlinear_arith);
    assert(max_y * max_x == max_x * max_y) by (nonlinear_arith);
}

/// An index inside the sequence names a position inside the grid, and the
/// position gives the index back.
pub proof fn lemma_position_of_index(max_x: int, max_y: int, i: int)
    requires
        0 <= max_x,
        0 <= max_y,
        0 <= i < max_x * max_y,
    ensures
        in_bounds(max_x, max_y, i % max_x, i / max_x),
        cell_index(max_x, i % max_x, i / max_x) == i,
{
    assert(max_x > 0) by (nonlinear_arith)
        requires
            0 <= max_x,
            0 < max_x * max_y,
    ;
    lemma_fundamental_div_mod(i, max_x);
    let q = i / max_x;
    let r = i % max_x;
    assert(max_x * q == q * max_x) by (nonlinear_arith);
    assert(0 <= r < max_x);
    assert(0 <= q < max_y) by (nonlinear_arith)
        requires
            0 < max_x,
            0 <= r < max_x,
            0 <= q * max_x + r < max_x * max_y,
    ;
}

/// The colony with the cell at index `i` made dead; unchanged where `i` names
/// no cell.
spec fn kill_at(cells: Seq<Cell>, i: int) -> Seq<Cell> {
    if 0 <= i < cells.len() {
        cells.update(i, Cell { x: cells[i].x, y: cells[i].y, live: false })
    } else {
        cells
    }
}

/// The colony with the cell at `(x, y)` made dead; unchanged where `(x, y)`
/// lies outside the grid.
spec fn clear_at(cells: Seq<Cell>, max_x: int, max_y: int, x: int, y: int) -> Seq<Cell> {
    if in_bounds(max_x, max_y, x, y) {
        kill_at(cells, cell_index(max_x, x, y))
    } else {
        cells
    }
}

/// Killing one cell lowers the raw count by one exactly when that cell
/// counted.
proof fn lemma_kill_lowers_count(cells: Seq<Cell>, i: int, center: Cell, max_x: int, max_y: int)
    ensures
        live_in_window(cells, center, max_x, max_y) == live_in_window(
            kill_at(cells, i),
            center,
            max_x,
            max_y,
        ) + if 0 <= i < cells.len() && counts_toward(cells[i], center, max_x, max_y) {
            1int
        } else {
            0int
        },
    decreases cells.len(),
{
    if 0 <= i < cells.len() {
        let killed = kill_at(cells, i);
        if i == cells.len() - 1 {
            assert(killed.drop_last() =~= cells.drop_last());
            assert(!counts_toward(killed.last(), center, max_x, max_y));
        } else {
            assert(killed.drop_last() =~= kill_at(cells.drop_last(), i));
            assert(killed.last() == cells.last());
            lemma_kill_lowers_count(cells.drop_last(), i, center, max_x, max_y);
        }
    }
}

/// Clearing a position next to the centre takes that cell's liveness out of
/// the raw count and leaves every other position as it was.
proof fn lemma_clear_adjacent(
    cells: Seq<Cell>,
    max_x: int,
    max_y: int,
    center: Cell,
    x: int,
    y: int,
)
    requires
        is_grid(cells, max_x, max_y),
        in_bounds(max_x, max_y, center.x as int, center.y as int),
        center.x - 1 <= x <= center.x + 1,
        center.y - 1 <= y <= center.y + 1,
    ensures
        is_grid(clear_at(cells, max_x, max_y, x, y), max_x, max_y),
        live_in_window(cells, center, max_x, max_y) == live_in_window(
            clear_at(cells, max_x, max_y, x, y),
            center,
            max_x,
            max_y,
        ) + live_at(cells, max_x, max_y, x, y),
        forall|x2: int, y2: int|
            #[trigger] alive_at(clear_at(cells, max_x, max_y, x, y), max_x, max_y, x2, y2) == (
            alive_at(cells, max_x, max_y, x2, y2) && !(x2 == x && y2 == y)),
{
    let cleared = clear_at(cells, max_x, max_y, x, y);
    if in_bounds(max_x, max_y, x, y) {
        let k = cell_index(max_x, x, y);
        lemma_index_of_position(max_x, max_y, x, y);
        assert(cells[k].x == x && cells[k].y == y);
        assert forall|i: int| 0 <= i < cleared.len() implies (#[trigger] cleared[i]).x == i % max_x
            && cleared[i].y == i / max_x by {
            assert(cells[i].x == i % max_x);
        }
        lemma_kill_lowers_count(cells, k, center, max_x, max_y);
        assert(in_window(cells[k], center, max_x, max_y));
        assert forall|x2: int, y2: int| #[trigger]
            alive_at(cleared, max_x, max_y, x2, y2) == (alive_at(cells, max_x, max_y, x2, y2) && !(
            x2 == x && y2 == y)) by {
            if in_bounds(max_x, max_y, x2, y2) {
                lemma_index_of_position(max_x, max_y, x2, y2);
            }
        }
    }
}

/// The colony with the three positions of row `y` around column `x` cleared.
spec fn clear_row(cells: Seq<Cell>, max_x: int, max_y: int, x: int, y: int) -> Seq<Cell> {
    clear_at(
        clear_at(clear_at(cells, max_x, max_y, x - 1, y), max_x, max_y, x, y),
        max_x,
        max_y,
        x + 1,
        y,
    )
}

/// Number of live cells among the three positions of row `y` around column
/// `x`.
spec fn row_live(cells: Seq<Cell>, max_x: int, max_y: int, x: int, y: int) -> int {
    live_at(cells, max_x, max_y, x - 1, y) + live_at(cells, max_x, max_y, x, y) + live_at(
        cells,
        max_x,
        max_y,
        x + 1,
        y,
    )
}

/// Clearing the part of an adjacent row that lies in the window takes its
/// live cells out of the raw count and leaves every other position as it was.
proof fn lemma_clear_adjacent_row(cells: Seq<Cell>, max_x: int, max_y: int, center: Cell, y: int)
    requires
        is_grid(cells, max_x, max_y),
        in_bounds(max_x, max_y, center.x as int, center.y as int),
        center.y - 1 <= y <= center.y + 1,
    ensures
        is_grid(clear_row(cells, max_x, max_y, center.x as int, y), max_x, max_y),
        live_in_window(cells, center, max_x, max_y) == live_in_window(
            clear_row(cells, max_x, max_y, center.x as int, y),
            center,
            max_x,
            max_y,
        ) + row_live(cells, max_x, max_y, center.x as int, y),
        forall|x2: int, y2: int|
            #[trigger] alive_at(
                clear_row(cells, max_x, max_y, center.x as int, y),
                max_x,
                max_y,
                x2,
                y2,
            ) == (alive_at(cells, max_x, max_y, x2, y2) && !(center.x - 1 <= x2 <= center.x + 1
                && y2 == y)),
{
    let x = center.x as int;
    let g1 = clear_at(cells, max_x, max_y, x - 1, y);
    lemma_clear_adjacent(cells, max_x, max_y, center, x - 1, y);
    let g2 = clear_at(g1, max_x, max_y, x, y);
    lemma_clear_adjacent(g1, max_x, max_y, center, x, y);
    let g3 = clear_at(g2, max_x, max_y, x + 1, y);
    lemma_clear_adjacent(g2, max_x, max_y, center, x + 1, y);
    assert(g3 == clear_row(cells, max_x, max_y, x, y));
    assert(live_at(g1, max_x, max_y, x, y) == live_at(cells, max_x, max_y, x, y));
    assert(live_at(g2, max_x, max_y, x + 1, y) == live_at(cells, max_x, max_y, x + 1, y));
    assert forall|x2: int, y2: int| #[trigger]
        alive_at(g3, max_x, max_y, x2, y2) == (alive_at(cells, max_x, max_y, x2, y2) && !(x - 1
            <= x2 <= x + 1 && y2 == y)) by {
        assert(alive_at(g3, max_x, max_y, x2, y2) == (alive_at(g2, max_x, max_y, x2, y2) && !(x2
            == x + 1 && y2 == y)));
        assert(alive_at(g2, max_x, max_y, x2, y2) == (alive_at(g1, max_x, max_y, x2, y2) && !(x2
            == x && y2 == y)));
        assert(alive_at(g1, max_x, max_y, x2, y2) == (alive_at(cells, max_x, max_y, x2, y2) && !(
        x2 == x - 1 && y2 == y)));
    }
}

/// On a grid, the neighbour count of the cell at `(x, y)` is the number of
/// live cells among the adjacent positions that exist: the cell itself is left
/// out, and positions beyond an edge add nothing. Its next state follows from
/// that number by the rule.
pub proof fn lemma_neighbors_are_adjacent(cells: Seq<Cell>, max_x: int, max_y: int, x: int, y: int)
    requires
        is_grid(cells, max_x, max_y),
        in_bounds(max_x, max_y, x, y),
    ensures
        neighbor_count(cells[cell_index(max_x, x, y)], cells, max_x, max_y) == adjacent_live(
            cells,
            max_x,
            max_y,
            x,
            y,
        ),
        lives_next(cells[cell_index(max_x, x, y)], cells, max_x, max_y) == next_state(
            alive_at(cells, max_x, max_y, x, y),
            adjacent_live(cells, max_x, max_y, x, y),
        ),
{
    lemma_index_of_position(max_x, max_y, x, y);
    let center = cells[cell_index(max_x, x, y)];
    assert(center.x == x && center.y == y);

    // Clear the window row by row; each row gives up its live cells.
    let g1 = clear_row(cells, max_x, max_y, x, y - 1);
    lemma_clear_adjacent_row(cells, max_x, max_y, center, y - 1);
    let g2 = clear_row(g1, max_x, max_y, x, y);
    lemma_clear_adjacent_row(g1, max_x, max_y, center, y);
    let g3 = clear_row(g2, max_x, max_y, x, y + 1);
    lemma_clear_adjacent_row(g2, max_x, max_y, center, y + 1);
    assert(row_live(g1, max_x, max_y, x, y) == row_live(cells, max_x, max_y, x, y));
    assert(row_live(g2, max_x, max_y, x, y + 1) == row_live(cells, max_x, max_y, x, y + 1));

    // Nothing is left in the window.
    assert forall|i: int| 0 <= i < g3.len() implies !counts_toward(
        #[trigger] g3[i],
        center,
        max_x,
        max_y,
    ) by {
        lemma_position_of_index(max_x, max_y, i);
        let px = i % max_x;
        let py = i / max_x;
        assert(g3[i].live == alive_at(g3, max_x, max_y, px, py));
        assert(alive_at(g3, max_x, max_y, px, py) == (alive_at(g2, max_x, max_y, px, py) && !(x
            - 1 <= px <= x + 1 && py == y + 1)));
        assert(alive_at(g2, max_x, max_y, px, py) == (alive_at(g1, max_x, max_y, px, py) && !(x
            - 1 <= px <= x + 1 && py == y)));
        assert(alive_at(g1, max_x, max_y, px, py) == (alive_at(cells, max_x, max_y, px, py) && !(
        x - 1 <= px <= x + 1 && py == y - 1)));
    }
    lemma_window_without_hits(g3, center, max_x, max_y);
    assert(live_in_window(cells, center, max_x, max_y) == row_live(cells, max_x, max_y, x, y - 1)
        + row_live(cells, max_x, max_y, x, y) + row_live(cells, max_x, max_y, x, y + 1));
    assert(live_at(cells, max_x, max_y, x, y) == if center.live { 1int } else { 0int });
}

/// Clamping: seen from a cell inside the grid, the window holds exactly the
/// grid positions at most one step away along each axis.
pub proof fn lemma_window_is_adjacent_positions(
    c: Cell,
    center: Cell,
    max_x: int,
    max_y: int,
)
    requires
        in_bounds(max_x, max_y, center.x as int, center.y as int),
        in_bounds(max_x, max_y, c.x as int, c.y as int),
    ensures
        in_window(c, center, max_x, max_y) <==> (center.x - 1 <= c.x <= center.x + 1 && center.y
            - 1 <= c.y <= center.y + 1),
{
}

/// A cell has at most eight live neighbours, at most five on an edge of the
/// grid and at most three in a corner, and never fewer than none.
pub proof fn lemma_neighbor_count_bounds(cells: Seq<Cell>, max_x: int, max_y: int, x: int, y: int)
    requires
        is_grid(cells, max_x, max_y),
        in_bounds(max_x, max_y, x, y),
    ensures
        0 <= neighbor_count(cells[cell_index(max_x, x, y)], cells, max_x, max_y) <= 8,
        (x == 0 || x == max_x - 1 || y == 0 || y == max_y - 1) ==> neighbor_count(
            cells[cell_index(max_x, x, y)],
            cells,
            max_x,
            max_y,
        ) <= 5,
        (x == 0 || x == max_x - 1) && (y == 0 || y == max_y - 1) ==> neighbor_count(
            cells[cell_index(max_x, x, y)],
            cells,
            max_x,
            max_y,
        ) <= 3,
{
    lemma_neighbors_are_adjacent(cells, max_x, max_y, x, y);
}

/// Self-exclusion: setting the liveness of a cell, whatever it was, leaves
/// that cell's own neighbour count as it was.
pub proof fn lemma_self_exclusion(
    cells: Seq<Cell>,
    max_x: int,
    max_y: int,
    x: int,
    y: int,
    live: bool,
)
    requires
        is_grid(cells, max_x, max_y),
        in_bounds(max_x, max_y, x, y),
    ensures
        ({
            let k = cell_index(max_x, x, y);
            let changed = cells.update(k, Cell { x: cells[k].x, y: cells[k].y, live });
            neighbor_count(changed[k], changed, max_x, max_y) == neighbor_count(
                cells[k],
                cells,
                max_x,
                max_y,
            )
        }),
{
    let k = cell_index(max_x, x, y);
    lemma_index_of_position(max_x, max_y, x, y);
    let changed = cells.update(k, Cell { x: cells[k].x, y: cells[k].y, live });
    assert(is_grid(changed, max_x, max_y)) by {
        assert forall|i: int| 0 <= i < changed.len() implies (#[trigger] changed[i]).x == i % max_x
            && changed[i].y == i / max_x by {
            assert(cells[i].x == i % max_x);
        }
    }
    lemma_neighbors_are_adjacent(cells, max_x, max_y, x, y);
    lemma_neighbors_are_adjacent(changed, max_x, max_y, x, y);
    assert forall|x2: int, y2: int| !(x2 == x && y2 == y) implies alive_at(
        changed,
        max_x,
        max_y,
        x2,
        y2,
    ) == #[trigger] alive_at(cells, max_x, max_y, x2, y2) by {
        if in_bounds(max_x, max_y, x2, y2) {
            lemma_index_of_position(max_x, max_y, x2, y2);
        }
    }
}

/// A cell with no other live cell in the colony has no live neighbour,
/// whether it is alive itself or not, and is dead in the next generation.
pub proof fn lemma_solitary_cell(cells: Seq<Cell>, max_x: int, max_y: int, x: int, y: int)
    requires
        is_grid(cells, max_x, max_y),
        in_bounds(max_x, max_y, x, y),
        forall|i: int|
            0 <= i < cells.len() && i != cell_index(max_x, x, y) ==> !(#[trigger] cells[i]).live,
    ensures
        neighbor_count(cells[cell_index(max_x, x, y)], cells, max_x, max_y) == 0,
        !lives_next(cells[cell_index(max_x, x, y)], cells, max_x, max_y),
{
    lemma_index_of_position(max_x, max_y, x, y);
    lemma_neighbors_are_adjacent(cells, max_x, max_y, x, y);
    assert forall|x2: int, y2: int| !(x2 == x && y2 == y) implies !#[trigger] alive_at(
        cells,
        max_x,
        max_y,
        x2,
        y2,
    ) by {
        if in_bounds(max_x, max_y, x2, y2) {
            lemma_index_of_position(max_x, max_y, x2, y2);
        }
    }
}

/// A generation changes no position: the colony after a grid is a grid with
/// the same bounds.
pub proof fn lemma_next_generation_is_grid(cells: Seq<Cell>, max_x: int, max_y: int)
    requires
        is_grid(cells, max_x, max_y),
    ensures
        is_grid(next_generation(cells, max_x, max_y), max_x, max_y),
{
    let after = next_generation(cells, max_x, max_y);
    assert forall|i: int| 0 <= i < after.len() implies (#[trigger] after[i]).x == i % max_x
        && after[i].y == i / max_x by {
        assert(cells[i].x == i % max_x);
    }
}

/// Checks that the colony is a dense grid with the given bounds.
pub fn colony_is_grid(colony: &Vec<Cell>, max_x: i64, max_y: i64) -> (ok: bool)
    ensures
        ok == is_grid(colony@, max_x as int, max_y as int),
{
    if max_x < 0 || max_y < 0 {
        return false;
    }
    if max_x == 0 {
        assert(max_x * max_y == 0) by (nonlinear_arith)
            requires
                max_x == 0,
        ;
        return colony.len() == 0;
    }
    let mut x: i64 = 0;
    let mut y: i64 = 0;
    let mut idx: usize = 0;
    while idx < colony.len()
        invariant
            0 < max_x,
            0 <= max_y,
            idx <= colony.len(),
            0 <= x < max_x,
            0 <= y <= max_y,
            y == max_y ==> x == 0,
            idx == cell_index(max_x as int, x as int, y as int),
            forall|i: int|
                0 <= i < idx ==> (#[trigger] colony@[i]).x == i % (max_x as int) && colony@[i].y
                    == i / (max_x as int),
        decreases colony.len() - idx,
    {
        if y >= max_y {
            assert(max_y * max_x == max_x * max_y) by (nonlinear_arith);
            return false;
        }
        proof {
            lemma_index_of_position(max_x as int, max_y as int, x as int, y as int);
        }
        let c: Cell = colony[idx];
        if c.x != x || c.y != y {
            return false;
        }
        x += 1;
        if x == max_x {
            assert(y * max_x + max_x == (y + 1) * max_x) by (nonlinear_arith);
            x = 0;
            y += 1;
        }
        idx += 1;
    }
    proof {
        assert(max_y * max_x == max_x * max_y) by (nonlinear_arith);
        if y < max_y {
            assert(y * max_x + x < max_y * max_x) by (nonlinear_arith)
                requires
                    0 <= x < max_x,
                    0 <= y < max_y,
            ;
        }
    }
    y == max_y
}

} // verus!
