//! A two-player game of noughts and crosses on a fixed square grid.
//!
//! The crate holds the rules of the game: the board, the lines that win,
//! the reading of a move from a line of text, and the step that takes the
//! game from one move to the next. Reading from and writing to a console is
//! left to the program that uses it.

pub mod board;
pub mod error;
pub mod game;
pub mod input;
pub mod lines;
pub mod piece;

pub use board::{Board, BoardPosition, BOARD_CELLS, BOARD_WIDTH};
pub use error::TicTacToeError;
pub use game::{Game, GameState, Outcome};
pub use input::parse_move;
pub use piece::Piece;
