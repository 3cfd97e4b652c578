//! The state of one square of a board, and what a shot does to it.

use vstd::prelude::*;

verus! {

/// Side length of the square grid.
pub const BOARD_SIZE: usize = 10;

/// What a square currently holds. A ship square that is fired on becomes
/// `Hit`; it is never `Ship` and `Hit` at once.
#[derive(Clone, Copy, Debug, PartialEq, Eq, Structural)]
pub enum CellState {
    Empty,
    Ship,
    Hit,
    Miss,
}

impl CellState {
    /// The state of a square after a shot lands on it: open water becomes a
    /// miss, a ship becomes a hit, and a square already fired on stays as it is.
    pub open spec fn after_shot(self) -> CellState {
        match self {
            CellState::Empty => CellState::Miss,
            CellState::Ship => CellState::Hit,
            CellState::Hit => CellState::Hit,
            CellState::Miss => CellState::Miss,
        }
    }

    /// What a shot at a square in this state reports: `Hit` for an intact ship
    /// square, `Miss` for everything else, a square already fired on included.
    pub open spec fn shot_result(self) -> CellState {
        if self == CellState::Ship {
            CellState::Hit
        } else {
            CellState::Miss
        }
    }

    /// Whether a ship stands or stood on a square in this state.
    pub open spec fn is_ship_square(self) -> bool {
        self == CellState::Ship || self == CellState::Hit
    }

    /// Whether a square in this state has been fired on.
    pub open spec fn is_resolved(self) -> bool {
        self == CellState::Hit || self == CellState::Miss
    }
}

} // verus!
