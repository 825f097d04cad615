//! The colony as a whole: extinction, and the step from one generation to the
//! next.

use vstd::prelude::*;
use crate::cell::Cell;
use crate::neighbors::{
    counts_toward,
    lemma_window_without_hits,
    live_in_window,
    neighbor_count,
    MAX_CELLS,
};
use crate::rule::lives_next;

verus! {

/// No cell of `cells` is alive.
pub open spec fn extinct(cells: Seq<Cell>) -> bool {
    forall|i: int| 0 <= i < cells.len() ==> !(#[trigger] cells[i]).live
}

/// The generation after `cells`: every cell keeps its position, and its
/// liveness is decided from `cells` as a whole, before any cell changes.
pub open spec fn next_generation(cells: Seq<Cell>, max_x: int, max_y: int) -> Seq<Cell> {
    Seq::new(
        cells.len(),
        |i: int|
            Cell { x: cells[i].x, y: cells[i].y, live: lives_next(cells[i], cells, max_x, max_y) },
    )
}

/// The colony `n` generations after `cells`.
pub open spec fn generations(cells: Seq<Cell>, max_x: int, max_y: int, n: nat) -> Seq<Cell>
    decreases n,
{
    if n == 0 {
        cells
    } else {
        next_generation(generations(cells, max_x, max_y, (n - 1) as nat), max_x, max_y)
    }
}

/// Reports whether the colony has died out.
pub fn colony_dead(colony: &Vec<Cell>) -> (dead: bool)
    ensures
        dead == extinct(colony@),
{
    let mut idx: usize = 0;
    while idx < colony.len()
        invariant
            idx <= colony.len(),
            forall|i: int| 0 <= i < idx ==> !(#[trigger] colony@[i]).live,
        decreases colony.len() - idx,
    {
        if colony[idx].live {
            return false;
        }
        idx += 1;
    }
    true
}

/// Computes the next generation into a colony of its own. The colony given
/// is only read, so every cell is decided from the same generation.
pub fn next_colony(colony: &Vec<Cell>, max_x: i64, max_y: i64) -> (next: Vec<Cell>)
    requires
        colony.len() <= MAX_CELLS,
    ensures
        next@ == next_generation(colony@, max_x as int, max_y as int),
{
    let mut next: Vec<Cell> = Vec::new();
    let mut idx: usize = 0;
    while idx < colony.len()
        invariant
            idx <= colony.len(),
            colony.len() <= MAX_CELLS,
            next.len() == idx,
            forall|i: int|
                0 <= i < idx ==> #[trigger] next@[i] == next_generation(
                    colony@,
                    max_x as int,
                    max_y as int,
                )[i],
        decreases colony.len() - idx,
    {
        let cell: Cell = colony[idx];
        let alive: bool = cell.spawn_next(colony, max_x, max_y);
        next.push(Cell::new(cell.x, cell.y, alive));
        idx += 1;
    }
    proof {
        assert(next@ =~= next_generation(colony@, max_x as int, max_y as int));
    }
    next
}

/// Moves the colony on by one generation: the next generation is computed
/// from the colony as it stands on entry, and then takes its place.
pub fn advance_generation(colony: &mut Vec<Cell>, max_x: i64, max_y: i64)
    requires
        old(colony).len() <= MAX_CELLS,
    ensures
        final(colony)@ == next_generation(old(colony)@, max_x as int, max_y as int),
{
    let next: Vec<Cell> = next_colony(colony, max_x, max_y);
    *colony = next;
}

/// A window over a colony with no live cell holds no live cell.
pub proof fn lemma_extinct_window_is_empty(
    cells: Seq<Cell>,
    center: Cell,
    max_x: int,
    max_y: int,
)
    requires
        extinct(cells),
    ensures
        live_in_window(cells, center, max_x, max_y) == 0,
{
    assert forall|i: int| 0 <= i < cells.len() implies !counts_toward(
        #[trigger] cells[i],
        center,
        max_x,
        max_y,
    ) by {}
    lemma_window_without_hits(cells, center, max_x, max_y);
}

/// A colony with no live cell has none in the next generation either.
pub proof fn lemma_extinct_stays_extinct(cells: Seq<Cell>, max_x: int, max_y: int)
    requires
        extinct(cells),
    ensures
        extinct(next_generation(cells, max_x, max_y)),
{
    let after = next_generation(cells, max_x, max_y);
    assert forall|i: int| 0 <= i < after.len() implies !(#[trigger] after[i]).live by {
        lemma_extinct_window_is_empty(cells, cells[i], max_x, max_y);
        assert(!cells[i].live);
        assert(neighbor_count(cells[i], cells, max_x, max_y) == 0);
    }
}

/// Extinction is absorbing: a colony with no live cell has none after any
/// number of generations.
pub proof fn lemma_extinction_is_absorbing(cells: Seq<Cell>, max_x: int, max_y: int, n: nat)
    requires
        extinct(cells),
    ensures
        extinct(generations(cells, max_x, max_y, n)),
    decreases n,
{
    if n > 0 {
        lemma_extinction_is_absorbing(cells, max_x, max_y, (n - 1) as nat);
        lemma_extinct_stays_extinct(
            generations(cells, max_x, max_y, (n - 1) as nat),
            max_x,
            max_y,
        );
    }
}

} // verus!
