use vstd::prelude::*;

verus! {

/// Why a move was refused.
#[derive(Debug, Clone, Copy, PartialEq, Eq, Structural)]
pub enum TicTacToeError {
    /// The row or the column lies outside the grid.
    OutOfBounds,
    /// The cell at this row and column already holds a piece.
    PieceInPosition(usize, usize),
    /// The text of the move could not be read as a row and a column.
    InvalidMoveInput,
}

} // verus!
