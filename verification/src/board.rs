use crate::error::TicTacToeError;
use crate::piece::Piece;
use vstd::prelude::*;
use vstd::string::StringExecFns;

verus! {

/// The number of rows of the board, which is also its number of columns.
pub const BOARD_WIDTH: usize = 3;

/// The number of cells of the board.
pub const BOARD_CELLS: usize = BOARD_WIDTH * BOARD_WIDTH;

/// Whether `row` and `col` name a cell of the board.
pub open spec fn in_bounds(row: int, col: int) -> bool {
    0 <= row < BOARD_WIDTH && 0 <= col < BOARD_WIDTH
}

/// The place of the cell at `row` and `col` in the row-major sequence of
/// cells.
pub open spec fn slot(row: int, col: int) -> int {
    row * BOARD_WIDTH + col
}

/// Whether `g` has one entry for each cell of the board.
pub open spec fn is_grid(g: Seq<Option<Piece>>) -> bool {
    g.len() == BOARD_CELLS
}

/// The cells of a board on which nothing has been placed.
pub open spec fn empty_grid() -> Seq<Option<Piece>> {
    Seq::new(BOARD_CELLS as nat, |i: int| None::<Piece>)
}

/// What reading the cell at `row` and `col` of `g` gives: the cell, or
/// `OutOfBounds` where the row or the column is not one of the board.
pub open spec fn cell_at(g: Seq<Option<Piece>>, row: int, col: int) -> Result<
    Option<Piece>,
    TicTacToeError,
> {
    if in_bounds(row, col) {
        Ok(g[slot(row, col)])
    } else {
        Err(TicTacToeError::OutOfBounds)
    }
}

/// What placing `piece` at `row` and `col` of `g` gives: the cells of `g`
/// with that one cell now holding `piece`; `OutOfBounds` where the row or the
/// column is not one of the board; `PieceInPosition` with the row and the
/// column where the cell already holds a piece.
pub open spec fn placed(g: Seq<Option<Piece>>, row: int, col: int, piece: Piece) -> Result<
    Seq<Option<Piece>>,
    TicTacToeError,
> {
    if !in_bounds(row, col) {
        Err(TicTacToeError::OutOfBounds)
    } else if g[slot(row, col)] is Some {
        Err(TicTacToeError::PieceInPosition(row as usize, col as usize))
    } else {
        Ok(g.update(slot(row, col), Some(piece)))
    }
}

/// Whether every cell of `g` holds a piece.
pub open spec fn is_full_grid(g: Seq<Option<Piece>>) -> bool {
    forall|i: int| 0 <= i < g.len() ==> (#[trigger] g[i]) is Some
}

/// The character that shows a cell: the glyph of its piece, or `.` where it
/// is empty.
pub open spec fn cell_glyph(cell: Option<Piece>) -> char {
    match cell {
        Some(piece) => piece.glyph_of(),
        None => '.',
    }
}

/// The text that shows `g`: cell after cell in row-major order, each as its
/// one glyph, followed by a space inside a row and by a line feed at the end
/// of a row.
pub open spec fn rendering(g: Seq<Option<Piece>>) -> Seq<char> {
    Seq::new(
        2 * g.len(),
        |k: int|
            if k % 2 == 0 {
                cell_glyph(g[k / 2])
            } else if (k / 2) % (BOARD_WIDTH as int) == BOARD_WIDTH - 1 {
                '\n'
            } else {
                ' '
            },
    )
}

/// What a cell of the board holds: nothing, or one piece.
pub type BoardPosition = Option<Piece>;

/// A square grid of cells, each empty or holding one piece.
///
/// A board is never changed once made: placing a piece gives a new board.
/// Its view is the row-major sequence of its cells.
#[derive(Debug)]
pub struct Board {
    positions: Vec<BoardPosition>,
}

impl View for Board {
    type V = Seq<Option<Piece>>;

    closed spec fn view(&self) -> Seq<Option<Piece>> {
        self.positions@
    }
}

impl Board {
    #[verifier::type_invariant]
    spec fn well_formed(&self) -> bool {
        self.positions@.len() == BOARD_CELLS
    }

    /// Makes a board with every cell empty.
    pub fn new() -> (board: Board)
        ensures
            board@ == empty_grid(),
    {
        let mut positions: Vec<BoardPosition> = Vec::new();
        let mut i: usize = 0;
        while i < BOARD_CELLS
            invariant
                i <= BOARD_CELLS,
                positions@.len() == i,
                forall|k: int| 0 <= k < i ==> positions@[k] == None::<Piece>,
            decreases BOARD_CELLS - i,
        {
            positions.push(None);
            i = i + 1;
        }
        assert(positions@ =~= empty_grid());
        Board { positions }
    }

    /// Reads the cell at `row` and `col`.
    ///
    /// Fails with `OutOfBounds` exactly when the row or the column is not
    /// below the width of the board.
    pub fn get_position(&self, row: usize, col: usize) -> (r: Result<
        BoardPosition,
        TicTacToeError,
    >)
        ensures
            r == cell_at(self@, row as int, col as int),
            self@.len() == BOARD_CELLS,
    {
        proof {
            use_type_invariant(self);
        }
        if row >= BOARD_WIDTH || col >= BOARD_WIDTH {
            return Err(TicTacToeError::OutOfBounds);
        }
        Ok(self.positions[row * BOARD_WIDTH + col])
    }

    /// Gives a new board that equals this one but for the cell at `row` and
    /// `col`, which holds `piece`.
    ///
    /// Fails with `OutOfBounds` exactly when the row or the column is not
    /// below the width of the board, and otherwise with `PieceInPosition`
    /// exactly when the cell already holds a piece. This board is left as it
    /// was in every case.
    pub fn set_piece(&self, row: usize, col: usize, piece: Piece) -> (r: Result<
        Board,
        TicTacToeError,
    >)
        ensures
            match r {
                Ok(board) => placed(self@, row as int, col as int, piece) == Ok::<
                    Seq<Option<Piece>>,
                    TicTacToeError,
                >(board@),
                Err(e) => placed(self@, row as int, col as int, piece) == Err::<
                    Seq<Option<Piece>>,
                    TicTacToeError,
                >(e),
            },
            self@.len() == BOARD_CELLS,
    {
        proof {
            use_type_invariant(self);
        }
        match self.get_position(row, col) {
            Err(e) => {
                return Err(e);
            },
            Ok(Some(_)) => {
                return Err(TicTacToeError::PieceInPosition(row, col));
            },
            Ok(None) => {},
        }
        let target: usize = row * BOARD_WIDTH + col;
        let mut positions: Vec<BoardPosition> = Vec::new();
        let mut i: usize = 0;
        while i < BOARD_CELLS
            invariant
                i <= BOARD_CELLS,
                target < BOARD_CELLS,
                self.positions@.len() == BOARD_CELLS,
                positions@.len() == i,
                forall|k: int|
                    0 <= k < i ==> positions@[k] == self.positions@.update(
                        target as int,
                        Some(piece),
                    )[k],
            decreases BOARD_CELLS - i,
        {
            if i == target {
                positions.push(Some(piece));
            } else {
                positions.push(self.positions[i]);
            }
            i = i + 1;
        }
        assert(positions@ =~= self.positions@.update(target as int, Some(piece)));
        Ok(Board { positions })
    }

    /// Tells whether every cell holds a piece.
    pub fn is_full(&self) -> (full: bool)
        ensures
            full == is_full_grid(self@),
            self@.len() == BOARD_CELLS,
    {
        proof {
            use_type_invariant(self);
        }
        let mut i: usize = 0;
        while i < BOARD_CELLS
            invariant
                i <= BOARD_CELLS,
                self.positions@.len() == BOARD_CELLS,
                forall|k: int| 0 <= k < i ==> (#[trigger] self.positions@[k]) is Some,
            decreases BOARD_CELLS - i,
        {
            if self.positions[i].is_none() {
                return false;
            }
            i = i + 1;
        }
        true
    }

    /// Gives the cells of the board in row-major order.
    pub fn cells(&self) -> (cells: Vec<BoardPosition>)
        ensures
            cells@ == self@,
            cells@.len() == BOARD_CELLS,
    {
        let copy = self.clone();
        proof {
            use_type_invariant(&copy);
        }
        copy.positions
    }

    /// Gives the text that shows the board: one line for each row, each cell
    /// as one glyph (`.` where it is empty), the cells of a row separated by
    /// one space, each row ended by a line feed.
    pub fn render(&self) -> (text: String)
        ensures
            text@ == rendering(self@),
            self@.len() == BOARD_CELLS,
    {
        proof {
            use_type_invariant(self);
        }
        let mut text = String::new();
        let mut row: usize = 0;
        while row < BOARD_WIDTH
            invariant
                row <= BOARD_WIDTH,
                self.positions@.len() == BOARD_CELLS,
                text@.len() == 2 * (row * BOARD_WIDTH),
                forall|k: int| 0 <= k < text@.len() ==> text@[k] == rendering(self.positions@)[k],
            decreases BOARD_WIDTH - row,
        {
            let mut col: usize = 0;
            while col < BOARD_WIDTH
                invariant
                    row < BOARD_WIDTH,
                    col <= BOARD_WIDTH,
                    self.positions@.len() == BOARD_CELLS,
                    text@.len() == 2 * (row * BOARD_WIDTH + col),
                    forall|k: int|
                        0 <= k < text@.len() ==> text@[k] == rendering(self.positions@)[k],
                decreases BOARD_WIDTH - col,
            {
                let ghost before = text@;
                proof {
                    reveal_strlit("O");
                    reveal_strlit("X");
                    reveal_strlit(".");
                    reveal_strlit(" ");
                    reveal_strlit("\n");
                }
                match self.positions[row * BOARD_WIDTH + col] {
                    None => text.append("."),
                    Some(Piece::Naught) => text.append("O"),
                    Some(Piece::Cross) => text.append("X"),
                }
                if col + 1 == BOARD_WIDTH {
                    text.append("\n");
                } else {
                    text.append(" ");
                }
                assert(text@.len() == before.len() + 2);
                assert(forall|k: int| 0 <= k < before.len() ==> text@[k] == before[k]);
                col = col + 1;
            }
            row = row + 1;
        }
        assert(text@ =~= rendering(self.positions@));
        text
    }
}

impl Clone for Board {
    /// Gives a board with the same cells.
    fn clone(&self) -> (board: Board)
        ensures
            board@ == self@,
    {
        proof {
            use_type_invariant(self);
        }
        let mut positions: Vec<BoardPosition> = Vec::new();
        let mut i: usize = 0;
        while i < BOARD_CELLS
            invariant
                i <= BOARD_CELLS,
                self.positions@.len() == BOARD_CELLS,
                positions@.len() == i,
                forall|k: int| 0 <= k < i ==> positions@[k] == self.positions@[k],
            decreases BOARD_CELLS - i,
        {
            positions.push(self.positions[i]);
            i = i + 1;
        }
        assert(positions@ =~= self.positions@);
        Board { positions }
    }
}

impl PartialEq for Board {
    /// Two boards are equal when each cell of the one holds what the same
    /// cell of the other holds.
    fn eq(&self, other: &Board) -> (equal: bool) {
        proof {
            use_type_invariant(self);
            use_type_invariant(other);
        }
        let mut i: usize = 0;
        while i < BOARD_CELLS
            invariant
                i <= BOARD_CELLS,
                self.positions@.len() == BOARD_CELLS,
                other.positions@.len() == BOARD_CELLS,
                forall|k: int| 0 <= k < i ==> self.positions@[k] == other.positions@[k],
            decreases BOARD_CELLS - i,
        {
            let same: bool = match (self.positions[i], other.positions[i]) {
                (None, None) => true,
                (Some(a), Some(b)) => a == b,
                _ => false,
            };
            if !same {
                return false;
            }
            i = i + 1;
        }
        assert(self.positions@ =~= other.positions@);
        true
    }
}

impl vstd::std_specs::cmp::PartialEqSpecImpl for Board {
    open spec fn obeys_eq_spec() -> bool {
        true
    }

    open spec fn eq_spec(&self, other: &Board) -> bool {
        self@ == other@
    }
}

/// A piece placed on an empty cell of a board is what that cell then holds,
/// every other cell holds what it held, and the board that was placed on is a
/// value of its own, which the placing does not touch.
pub proof fn placing_then_reading(g: Seq<Option<Piece>>, row: int, col: int, piece: Piece)
    requires
        is_grid(g),
        in_bounds(row, col),
        g[slot(row, col)] is None,
    ensures
        placed(g, row, col, piece) is Ok,
        is_grid(placed(g, row, col, piece)->Ok_0),
        cell_at(placed(g, row, col, piece)->Ok_0, row, col) == Ok::<Option<Piece>, TicTacToeError>(
            Some(piece),
        ),
        forall|r: int, c: int|
            in_bounds(r, c) && (r != row || c != col) ==> #[trigger] cell_at(
                placed(g, row, col, piece)->Ok_0,
                r,
                c,
            ) == cell_at(g, r, c),
{
    slots_are_distinct_cells();
}

/// On a board with every cell empty, a piece can be placed on each cell of
/// the board, and is then read back from it.
pub proof fn placing_on_the_empty_board(row: int, col: int, piece: Piece)
    requires
        in_bounds(row, col),
    ensures
        placed(empty_grid(), row, col, piece) is Ok,
        cell_at(placed(empty_grid(), row, col, piece)->Ok_0, row, col) == Ok::<
            Option<Piece>,
            TicTacToeError,
        >(Some(piece)),
        cell_at(empty_grid(), row, col) == Ok::<Option<Piece>, TicTacToeError>(None),
{
    slots_are_distinct_cells();
    placing_then_reading(empty_grid(), row, col, piece);
}

/// A row or a column that is not below the width of the board makes both
/// reading and placing fail with `OutOfBounds`, whatever the board holds.
pub proof fn outside_the_board(g: Seq<Option<Piece>>, row: usize, col: usize, piece: Piece)
    requires
        row >= BOARD_WIDTH || col >= BOARD_WIDTH,
    ensures
        cell_at(g, row as int, col as int) == Err::<Option<Piece>, TicTacToeError>(
            TicTacToeError::OutOfBounds,
        ),
        placed(g, row as int, col as int, piece) == Err::<Seq<Option<Piece>>, TicTacToeError>(
            TicTacToeError::OutOfBounds,
        ),
{
}

/// Placing on a cell of the board that already holds a piece fails with
/// `PieceInPosition` and the cell's row and column, so no board comes of it.
pub proof fn placing_on_a_taken_cell(g: Seq<Option<Piece>>, row: usize, col: usize, piece: Piece)
    requires
        in_bounds(row as int, col as int),
        g[slot(row as int, col as int)] is Some,
    ensures
        placed(g, row as int, col as int, piece) == Err::<Seq<Option<Piece>>, TicTacToeError>(
            TicTacToeError::PieceInPosition(row, col),
        ),
{
}

/// Each cell of the board has a slot below the number of cells, and two
/// cells with one slot are one cell.
pub proof fn slots_are_distinct_cells()
    ensures
        forall|r: int, c: int| in_bounds(r, c) ==> 0 <= #[trigger] slot(r, c) < BOARD_CELLS,
        forall|r1: int, c1: int, r2: int, c2: int|
            in_bounds(r1, c1) && in_bounds(r2, c2) && #[trigger] slot(r1, c1) == #[trigger] slot(
                r2,
                c2,
            ) ==> r1 == r2 && c1 == c2,
{
}

} // verus!
