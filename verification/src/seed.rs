//! Random seeding of the first generation.

use vstd::prelude::*;
use rand::rngs::ThreadRng;
use crate::cell::Cell;
use crate::grid::{cell_index, is_grid, lemma_index_of_position};

verus! {

/// Seeding draws a number from zero up to, but not including, this bound.
pub const SEED_DRAW_BOUND: i32 = 9;

/// A cell starts alive when its draw is above this value.
pub const SEED_LIVE_ABOVE: i32 = 4;

/// The thread-local generator of `rand`; nothing is known of its state.
#[verifier::external_type_specification]
#[verifier::external_body]
pub struct ExThreadRng(ThreadRng);

/// Calls `rand::thread_rng` for a handle to the generator of this thread.
/// Nothing is claimed of the handle.
#[verifier::external_body]
fn thread_rng() -> ThreadRng {
    rand::thread_rng()
}

/// Calls `rand::Rng::gen_range` on the half-open range `low..high`, which
/// panics on an empty range and otherwise returns a value of the range.
/// Which value is left open: two calls may differ.
#[verifier::external_body]
fn gen_range(rng: &mut ThreadRng, low: i32, high: i32) -> (draw: i32)
    requires
        low < high,
    ensures
        low <= draw < high,
{
    rand::Rng::gen_range(rng, low..high)
}

/// Whether a cell seeded with `draw` starts alive.
pub open spec fn draw_is_live(draw: int) -> bool {
    draw > SEED_LIVE_ABOVE
}

/// Turns one seeding draw into a liveness: the upper four of the nine
/// possible draws give a live cell.
pub fn is_live_draw(draw: i32) -> (live: bool)
    ensures
        live == draw_is_live(draw as int),
{
    draw > SEED_LIVE_ABOVE
}

/// Builds the first generation: a grid of `max_x` by `max_y` cells, row after
/// row, each alive or dead by a draw of its own. With a bound that is not
/// positive the colony has no cell.
pub fn seed_colony(max_x: i64, max_y: i64) -> (colony: Vec<Cell>)
    ensures
        max_x >= 0 && max_y >= 0 ==> is_grid(colony@, max_x as int, max_y as int),
        max_x <= 0 || max_y <= 0 ==> colony@.len() == 0,
{
    let mut colony: Vec<Cell> = Vec::new();
    if max_x <= 0 || max_y <= 0 {
        assert(max_x >= 0 && max_y >= 0 ==> max_x * max_y == 0) by (nonlinear_arith)
            requires
                max_x <= 0 || max_y <= 0,
        ;
        return colony;
    }
    let mut rng: ThreadRng = thread_rng();
    let mut y: i64 = 0;
    while y < max_y
        invariant
            0 < max_x,
            0 <= y <= max_y,
            colony@.len() == y * max_x,
            forall|i: int|
                0 <= i < colony@.len() ==> (#[trigger] colony@[i]).x == i % (max_x as int)
                    && colony@[i].y == i / (max_x as int),
        decreases max_y - y,
    {
        let mut x: i64 = 0;
        while x < max_x
            invariant
                0 <= x <= max_x,
                0 <= y < max_y,
                colony@.len() == cell_index(max_x as int, x as int, y as int),
                forall|i: int|
                    0 <= i < colony@.len() ==> (#[trigger] colony@[i]).x == i % (max_x as int)
                        && colony@[i].y == i / (max_x as int),
            decreases max_x - x,
        {
            proof {
                lemma_index_of_position(max_x as int, max_y as int, x as int, y as int);
            }
            let draw: i32 = gen_range(&mut rng, 0, SEED_DRAW_BOUND);
            colony.push(Cell::new(x, y, is_live_draw(draw)));
            x += 1;
        }
        assert(y * max_x + max_x == (y + 1) * max_x) by (nonlinear_arith);
        y += 1;
    }
    assert(max_y * max_x == max_x * max_y) by (nonlinear_arith);
    colony
}

} // verus!
