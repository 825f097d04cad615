//! Conway's Game of Life on a bounded grid with clamped edges.
//!
//! A colony is a dense row-major grid of cells. Each generation, every cell
//! counts the live cells in its clamped 3x3 window and lives or dies by the
//! standard rule; all cells are decided from the same generation.

pub mod cell;
pub mod neighbors;
pub mod rule;
pub mod colony;
pub mod grid;
pub mod seed;
pub mod render;
pub mod simulation;

pub use cell::Cell;
pub use colony::{advance_generation, colony_dead, next_colony};
pub use grid::colony_is_grid;
pub use render::render_colony;
pub use seed::{is_live_draw, seed_colony};
pub use simulation::{Action, Phase, Simulation};
