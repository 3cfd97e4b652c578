//! The turn sequence: the player and the computer opponent fire in turn,
//! each at the other's board, until one fleet is sunk.

use vstd::prelude::*;
use crate::board::{Board, BoardView};
use crate::cell::{CellState, BOARD_SIZE};

verus! {

/// One of the two sides of a game.
#[derive(Clone, Copy, Debug, PartialEq, Eq, Structural)]
pub enum Side {
    Player,
    Opponent,
}

/// Where a game stands: whose turn it is, or who has won.
#[derive(Clone, Copy, Debug, PartialEq, Eq, Structural)]
pub enum Phase {
    PlayerTurn,
    OpponentTurn,
    GameOver(Side),
}

/// The mathematical model of a [`Game`].
pub struct GameView {
    pub player_board: BoardView,
    pub opponent_board: BoardView,
    pub phase: Phase,
}

impl GameView {
    /// The invariant of a game: both boards are well formed; a side has won
    /// only if the other side's fleet is sunk; and the opponent is to move
    /// only while its own fleet is afloat.
    pub open spec fn wf(self) -> bool {
        &&& self.player_board.wf()
        &&& self.opponent_board.wf()
        &&& self.phase == Phase::GameOver(Side::Player) ==> self.opponent_board.defeated()
        &&& self.phase == Phase::GameOver(Side::Opponent) ==> self.player_board.defeated()
        &&& self.phase == Phase::OpponentTurn ==> !self.opponent_board.defeated()
    }

    /// Whether the game has ended.
    pub open spec fn is_over(self) -> bool {
        self.phase is GameOver
    }

    /// The phase that follows a shot by `shooter`, given whether the board
    /// that was fired on is defeated after it: the shooter has won if it is,
    /// and the turn passes to the other side if it is not.
    pub open spec fn phase_after(shooter: Side, target_defeated: bool) -> Phase {
        if target_defeated {
            Phase::GameOver(shooter)
        } else {
            match shooter {
                Side::Player => Phase::OpponentTurn,
                Side::Opponent => Phase::PlayerTurn,
            }
        }
    }

    /// The game after the side to move has fired at `(row, col)`. The player
    /// fires at the opponent's board and the opponent at the player's. Once
    /// the game is over nothing changes any more.
    pub open spec fn after_turn(self, row: int, col: int) -> GameView {
        match self.phase {
            Phase::PlayerTurn => {
                let target = self.opponent_board.fired(row, col);
                GameView {
                    player_board: self.player_board,
                    opponent_board: target,
                    phase: Self::phase_after(Side::Player, target.defeated()),
                }
            },
            Phase::OpponentTurn => {
                let target = self.player_board.fired(row, col);
                GameView {
                    player_board: target,
                    opponent_board: self.opponent_board,
                    phase: Self::phase_after(Side::Opponent, target.defeated()),
                }
            },
            Phase::GameOver(_) => self,
        }
    }

    /// What the shot of the side to move at `(row, col)` reports: a hit or a
    /// miss, or nothing once the game is over.
    pub open spec fn turn_result(self, row: int, col: int) -> Option<CellState> {
        match self.phase {
            Phase::PlayerTurn => Some(self.opponent_board.cell(row, col).shot_result()),
            Phase::OpponentTurn => Some(self.player_board.cell(row, col).shot_result()),
            Phase::GameOver(_) => None,
        }
    }

    /// The two sides move in strict alternation until one has won: after the
    /// player's shot the opponent is to move or the player has won, after the
    /// opponent's shot the player is to move or the opponent has won, and a
    /// finished game stays as it is. A shot changes only the board it is
    /// aimed at, and the game stays well formed.
    pub proof fn lemma_turns_alternate(self, row: int, col: int)
        requires
            self.wf(),
            BoardView::in_bounds(row, col),
        ensures
            self.after_turn(row, col).wf(),
            self.phase == Phase::PlayerTurn ==> {
                &&& self.after_turn(row, col).phase == Phase::OpponentTurn || self.after_turn(
                    row,
                    col,
                ).phase == Phase::GameOver(Side::Player)
                &&& self.after_turn(row, col).player_board == self.player_board
            },
            self.phase == Phase::OpponentTurn ==> {
                &&& self.after_turn(row, col).phase == Phase::PlayerTurn || self.after_turn(
                    row,
                    col,
                ).phase == Phase::GameOver(Side::Opponent)
                &&& self.after_turn(row, col).opponent_board == self.opponent_board
            },
            self.is_over() ==> self.after_turn(row, col) == self,
    {
        self.player_board.lemma_shot_keeps_wf(row, col);
        self.opponent_board.lemma_shot_keeps_wf(row, col);
    }
}

/// A game in progress: the two boards and whose turn it is.
pub struct Game {
    player_board: Board,
    opponent_board: Board,
    phase: Phase,
}

impl View for Game {
    type V = GameView;

    closed spec fn view(&self) -> GameView {
        GameView {
            player_board: self.player_board@,
            opponent_board: self.opponent_board@,
            phase: self.phase,
        }
    }
}

impl Game {
    /// A game on the two given boards, with the player to move first.
    pub fn new(player_board: Board, opponent_board: Board) -> (game: Game)
        requires
            player_board@.wf(),
            opponent_board@.wf(),
        ensures
            game@ == (GameView {
                player_board: player_board@,
                opponent_board: opponent_board@,
                phase: Phase::PlayerTurn,
            }),
            game@.wf(),
    {
        Game { player_board, opponent_board, phase: Phase::PlayerTurn }
    }

    /// A new game with a fleet placed at random on each board, the player's
    /// first, or `None` if a fleet could not be placed.
    pub fn start() -> (game: Option<Game>)
        ensures
            game matches Some(g) ==> {
                &&& g@.wf()
                &&& g@.phase == Phase::PlayerTurn
                &&& BoardView::empty().fleet_placed(crate::board::FLEET@, g@.player_board)
                &&& BoardView::empty().fleet_placed(crate::board::FLEET@, g@.opponent_board)
            },
    {
        let mut player_board = Board::new();
        let mut opponent_board = Board::new();
        if !player_board.place_fleet() {
            return None;
        }
        if !opponent_board.place_fleet() {
            return None;
        }
        Some(Game::new(player_board, opponent_board))
    }

    /// The side to move fires at `(row, col)` of the other side's board.
    /// Returns what the shot reports. If the board fired on is defeated
    /// after the shot, the game is over and the shooter has won; otherwise
    /// the turn passes to the other side. Once the game is over, nothing
    /// happens and `None` is returned.
    pub fn take_turn(&mut self, row: usize, col: usize) -> (result: Option<CellState>)
        requires
            old(self)@.wf(),
            row < BOARD_SIZE,
            col < BOARD_SIZE,
        ensures
            result == old(self)@.turn_result(row as int, col as int),
            final(self)@ == old(self)@.after_turn(row as int, col as int),
            final(self)@.wf(),
    {
        proof {
            self@.lemma_turns_alternate(row as int, col as int);
        }
        match self.phase {
            Phase::PlayerTurn => {
                let result = self.opponent_board.fire(row, col);
                let defeated = self.opponent_board.is_game_over();
                self.phase = if defeated { Phase::GameOver(Side::Player) } else { Phase::OpponentTurn };
                Some(result)
            },
            Phase::OpponentTurn => {
                let result = self.player_board.fire(row, col);
                let defeated = self.player_board.is_game_over();
                self.phase = if defeated { Phase::GameOver(Side::Opponent) } else { Phase::PlayerTurn };
                Some(result)
            },
            Phase::GameOver(_) => None,
        }
    }

    /// Whose turn it is, or who has won.
    pub fn phase(&self) -> (phase: Phase)
        ensures
            phase == self@.phase,
    {
        self.phase
    }

    /// The player's own board.
    pub fn player_board(&self) -> (board: &Board)
        ensures
            board@ == self@.player_board,
    {
        &self.player_board
    }

    /// The opponent's board.
    pub fn opponent_board(&self) -> (board: &Board)
        ensures
            board@ == self@.opponent_board,
    {
        &self.opponent_board
    }
}

} // verus!
