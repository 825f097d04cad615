//! The driving state machine: show the colony, advance it, check whether it
//! has died out, and start over.

use vstd::prelude::*;
use crate::cell::Cell;
use crate::colony::{colony_dead, extinct, next_colony, next_generation};
use crate::grid::{colony_is_grid, is_grid, lemma_next_generation_is_grid};
use crate::neighbors::MAX_CELLS;
use crate::render::{render_colony, rendered};

verus! {

/// Where the simulation stands in its cycle.
#[derive(Debug, Clone, Copy, PartialEq, Eq, Structural)]
pub enum Phase {
    /// The colony is about to be shown.
    Rendering,
    /// The colony is about to move on by one generation.
    Advancing,
    /// The colony is about to be checked for extinction.
    Checking,
    /// The colony has died out; nothing happens any more.
    Dead,
}

/// What the caller is to do after a step.
#[derive(Debug, Clone, Copy, PartialEq, Eq, Structural)]
pub enum Action {
    /// Show the colony as it stands.
    Render,
    /// Announce the generation number given.
    Announce(i64),
    /// Report that the colony has died out, and stop.
    ReportDead,
    /// Nothing to show; go on stepping.
    Proceed,
    /// The simulation ended earlier; stop.
    Stop,
}

/// A colony on its grid, together with the generation counter and the phase
/// of the cycle.
pub struct Simulation {
    colony: Vec<Cell>,
    max_x: i64,
    max_y: i64,
    generation: i64,
    phase: Phase,
}

impl Simulation {
    #[verifier::type_invariant]
    spec fn well_formed(self) -> bool {
        &&& is_grid(self.colony@, self.max_x as int, self.max_y as int)
        &&& self.colony.len() <= MAX_CELLS
    }

    /// The cells of the colony, in order.
    pub closed spec fn cells(self) -> Seq<Cell> {
        self.colony@
    }

    /// Width of the grid.
    pub closed spec fn width(self) -> int {
        self.max_x as int
    }

    /// Height of the grid.
    pub closed spec fn height(self) -> int {
        self.max_y as int
    }

    /// The generation counter.
    pub closed spec fn counter(self) -> int {
        self.generation as int
    }

    /// The phase the next step starts from.
    pub closed spec fn stage(self) -> Phase {
        self.phase
    }

    /// Starts a simulation on `colony`: generation one, about to be shown.
    /// The colony is taken only if it is a dense grid with the bounds given
    /// and small enough for its neighbours to be counted.
    pub fn new(colony: Vec<Cell>, max_x: i64, max_y: i64) -> (made: Option<Simulation>)
        ensures
            made.is_some() <==> is_grid(colony@, max_x as int, max_y as int) && colony@.len()
                <= MAX_CELLS,
            made matches Some(sim) ==> {
                &&& sim.cells() == colony@
                &&& sim.width() == max_x
                &&& sim.height() == max_y
                &&& sim.counter() == 1
                &&& sim.stage() == Phase::Rendering
            },
    {
        if colony.len() <= MAX_CELLS && colony_is_grid(&colony, max_x, max_y) {
            Some(Simulation { colony, max_x, max_y, generation: 1, phase: Phase::Rendering })
        } else {
            None
        }
    }

    /// The colony as it stands; always a dense grid.
    pub fn colony(&self) -> (colony: &Vec<Cell>)
        ensures
            colony@ == self.cells(),
            is_grid(colony@, self.width(), self.height()),
            colony@.len() <= MAX_CELLS,
    {
        proof {
            use_type_invariant(self);
        }
        &self.colony
    }

    /// Width of the grid.
    pub fn max_x(&self) -> (max_x: i64)
        ensures
            max_x == self.width(),
    {
        self.max_x
    }

    /// Height of the grid.
    pub fn max_y(&self) -> (max_y: i64)
        ensures
            max_y == self.height(),
    {
        self.max_y
    }

    /// The generation counter: one before the first advance.
    pub fn generation(&self) -> (generation: i64)
        ensures
            generation == self.counter(),
    {
        self.generation
    }

    /// The phase the next step starts from.
    pub fn phase(&self) -> (phase: Phase)
        ensures
            phase == self.stage(),
    {
        self.phase
    }

    /// The text picture of the colony as it stands.
    pub fn render(&self) -> (text: String)
        ensures
            text@ == rendered(self.cells()),
    {
        render_colony(&self.colony)
    }

    /// Takes one step of the cycle and says what the caller is to do.
    ///
    /// Rendering asks for the colony to be shown. Advancing moves the colony
    /// on by one generation, raises the counter and asks for the new number to
    /// be announced. Checking either ends the simulation, when no cell is
    /// alive, or goes back to rendering. Once dead, nothing changes.
    pub fn step(&mut self) -> (action: Action)
        requires
            old(self).stage() == Phase::Advancing ==> old(self).counter() < i64::MAX,
        ensures
            final(self).width() == old(self).width(),
            final(self).height() == old(self).height(),
            match old(self).stage() {
                Phase::Rendering => {
                    &&& action == Action::Render
                    &&& final(self).stage() == Phase::Advancing
                    &&& final(self).cells() == old(self).cells()
                    &&& final(self).counter() == old(self).counter()
                },
                Phase::Advancing => {
                    &&& action == Action::Announce((old(self).counter() + 1) as i64)
                    &&& final(self).stage() == Phase::Checking
                    &&& final(self).cells() == next_generation(
                        old(self).cells(),
                        old(self).width(),
                        old(self).height(),
                    )
                    &&& final(self).counter() == old(self).counter() + 1
                },
                Phase::Checking => {
                    &&& action == if extinct(old(self).cells()) {
                        Action::ReportDead
                    } else {
                        Action::Proceed
                    }
                    &&& final(self).stage() == if extinct(old(self).cells()) {
                        Phase::Dead
                    } else {
                        Phase::Rendering
                    }
                    &&& final(self).cells() == old(self).cells()
                    &&& final(self).counter() == old(self).counter()
                },
                Phase::Dead => {
                    &&& action == Action::Stop
                    &&& final(self).stage() == Phase::Dead
                    &&& final(self).cells() == old(self).cells()
                    &&& final(self).counter() == old(self).counter()
                },
            },
    {
        proof {
            use_type_invariant(&*self);
        }
        match self.phase {
            Phase::Rendering => {
                self.phase = Phase::Advancing;
                Action::Render
            },
            Phase::Advancing => {
                let max_x: i64 = self.max_x;
                let max_y: i64 = self.max_y;
                proof {
                    lemma_next_generation_is_grid(self.colony@, max_x as int, max_y as int);
                }
                let next: Vec<Cell> = next_colony(&self.colony, max_x, max_y);
                self.colony = next;
                self.generation = self.generation + 1;
                self.phase = Phase::Checking;
                Action::Announce(self.generation)
            },
            Phase::Checking => {
                if colony_dead(&self.colony) {
                    self.phase = Phase::Dead;
                    Action::ReportDead
                } else {
                    self.phase = Phase::Rendering;
                    Action::Proceed
                }
            },
            Phase::Dead => Action::Stop,
        }
    }
}

} // verus!
