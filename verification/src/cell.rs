//! A cell of the automaton and the rule by which it lives or dies.

use vstd::prelude::*;

verus! {

/// The two states of a cell.
#[derive(Clone, Copy, Debug, PartialEq, Eq, Structural)]
pub enum CellState {
    Alive,
    Dead,
}

/// A cell of the grid. `previous_state` is the generation step's snapshot of
/// `current_state`: it is written at the start of a step and read only
/// during that step.
#[derive(Clone, Copy, Debug)]
pub struct Cell {
    pub previous_state: CellState,
    pub current_state: CellState,
}

/// The other state.
pub open spec fn flipped(state: CellState) -> CellState {
    match state {
        CellState::Alive => CellState::Dead,
        CellState::Dead => CellState::Alive,
    }
}

/// The character that shows a cell in `state` on the screen.
pub open spec fn glyph_of(state: CellState) -> char {
    match state {
        CellState::Alive => 'o',
        CellState::Dead => ' ',
    }
}

/// The state in the next generation of a cell in `state` that has
/// `neighbours` live cells around it: a live cell survives with two or three
/// of them, a dead one is born with exactly three.
pub open spec fn rule(state: CellState, neighbours: int) -> CellState {
    match state {
        CellState::Alive => if neighbours == 2 || neighbours == 3 {
            CellState::Alive
        } else {
            CellState::Dead
        },
        CellState::Dead => if neighbours == 3 {
            CellState::Alive
        } else {
            CellState::Dead
        },
    }
}

/// The rule branch by branch: a live cell dies of fewer than two live
/// neighbours and of more than three and lives on with two or three; a dead
/// cell comes alive with exactly three and stays dead otherwise.
pub proof fn lemma_rule(neighbours: int)
    ensures
        neighbours < 2 ==> rule(CellState::Alive, neighbours) == CellState::Dead,
        neighbours == 2 || neighbours == 3 ==> rule(CellState::Alive, neighbours)
            == CellState::Alive,
        neighbours > 3 ==> rule(CellState::Alive, neighbours) == CellState::Dead,
        neighbours == 3 ==> rule(CellState::Dead, neighbours) == CellState::Alive,
        neighbours != 3 ==> rule(CellState::Dead, neighbours) == CellState::Dead,
{
}

impl CellState {
    pub fn is_alive(self) -> (r: bool)
        ensures
            r == (self == CellState::Alive),
    {
        self == CellState::Alive
    }

    pub fn flip(self) -> (r: CellState)
        ensures
            r == flipped(self),
    {
        match self {
            CellState::Alive => CellState::Dead,
            CellState::Dead => CellState::Alive,
        }
    }

    pub fn glyph(self) -> (r: char)
        ensures
            r == glyph_of(self),
    {
        match self {
            CellState::Alive => 'o',
            CellState::Dead => ' ',
        }
    }

    /// Applies the rule: underpopulation and overpopulation kill, three
    /// neighbours give birth, and everything else stays as it is.
    pub fn next(self, neighbours: u8) -> (r: CellState)
        ensures
            r == rule(self, neighbours as int),
    {
        if self == CellState::Alive && neighbours < 2 {
            CellState::Dead
        } else if self == CellState::Alive && neighbours > 3 {
            CellState::Dead
        } else if self == CellState::Dead && neighbours == 3 {
            CellState::Alive
        } else {
            self
        }
    }
}

impl Cell {
    /// A dead cell.
    pub fn dead() -> (r: Cell)
        ensures
            r.current_state == CellState::Dead,
            r.previous_state == CellState::Dead,
    {
        Cell { previous_state: CellState::Dead, current_state: CellState::Dead }
    }
}

} // verus!
