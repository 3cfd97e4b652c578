//! A two-player grid-guessing game: boards, ship placement, shot resolution
//! and the turn sequence, with every rule stated as a contract.
//!
//! - [`cell`]: the state of a square and what a shot does to it.
//! - [`board`]: the grid, placement of ships, firing, and defeat.
//! - [`game`]: the two boards and the alternation of turns.
//! - [`input`]: reading a square from a line of text.
//! - [`render`]: drawing a board as text.
//! - [`random`]: the random draws behind placement and the opponent's moves.

pub mod board;
pub mod cell;
pub mod game;
pub mod input;
pub mod random;
pub mod render;

pub use board::{Board, BoardView, FLEET, PLACEMENT_ATTEMPTS};
pub use cell::{CellState, BOARD_SIZE};
pub use game::{Game, GameView, Phase, Side};
pub use input::{parse_coordinates, InputError};
pub use random::generate_opponent_move;
pub use render::{glyph, glyph_text, Glyph};
