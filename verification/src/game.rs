use crate::board::{
    empty_grid, in_bounds, is_full_grid, is_grid, placed, slot, Board, BOARD_CELLS, BOARD_WIDTH,
};
use crate::error::TicTacToeError;
use crate::lines::{
    generate_lines, line_slot, lines_view, no_line_covers_another, on_line, winning_line,
    winning_lines, LINE_COUNT,
};
use crate::piece::Piece;
use vstd::prelude::*;

verus! {

/// What the cell at the row and the column `at` of `g` holds.
pub open spec fn cell_of(g: Seq<Option<Piece>>, at: (usize, usize)) -> Option<Piece> {
    g[slot(at.0 as int, at.1 as int)]
}

/// The piece that holds every cell of `line` on `g`, if one does.
pub open spec fn slice_winner(g: Seq<Option<Piece>>, line: Seq<(usize, usize)>) -> Option<Piece> {
    if line.len() > 0 && cell_of(g, line[0]) is Some && (forall|j: int|
        0 <= j < line.len() ==> cell_of(g, #[trigger] line[j]) == cell_of(g, line[0])) {
        cell_of(g, line[0])
    } else {
        None
    }
}

/// The piece that holds the first of `lines`, from the `k`-th on, of which
/// one piece holds every cell on `g`.
pub open spec fn winner_from(
    g: Seq<Option<Piece>>,
    lines: Seq<Seq<(usize, usize)>>,
    k: int,
) -> Option<Piece>
    decreases lines.len() - k,
{
    if k < 0 || k >= lines.len() {
        None
    } else if slice_winner(g, lines[k]) is Some {
        slice_winner(g, lines[k])
    } else {
        winner_from(g, lines, k + 1)
    }
}

/// The winner on `g`: the piece that holds the first winning line of which
/// one piece holds every cell, if there is such a line.
pub open spec fn winner(g: Seq<Option<Piece>>) -> Option<Piece> {
    winner_from(g, winning_lines(), 0)
}

/// Whether `piece` holds every cell of the `k`-th winning line on `g`.
pub open spec fn line_held_by(g: Seq<Option<Piece>>, k: int, piece: Piece) -> bool {
    forall|j: int| 0 <= j < BOARD_WIDTH ==> g[#[trigger] line_slot(k, j)] == Some(piece)
}

/// A round as the rules see it: the cells of the board and the piece that
/// moves next.
pub struct StateView {
    pub grid: Seq<Option<Piece>>,
    pub turn: Piece,
}

/// The state in which every round begins but for the piece that moves first.
pub open spec fn fresh_round(turn: Piece) -> StateView {
    StateView { grid: empty_grid(), turn }
}

/// The state of a new game: an empty board, and the naught moves first.
pub open spec fn initial_state() -> StateView {
    fresh_round(Piece::Naught)
}

/// What comes of the move `input` in the state `s`: the cells after the
/// piece to move is placed, or the reason why nothing is placed. A move that
/// could not be obtained keeps its reason.
pub open spec fn attempt(s: StateView, input: Result<(usize, usize), TicTacToeError>) -> Result<
    Seq<Option<Piece>>,
    TicTacToeError,
> {
    match input {
        Err(e) => Err(e),
        Ok(at) => placed(s.grid, at.0 as int, at.1 as int, s.turn),
    }
}

/// What a step gives back, with boards as their cells.
pub enum OutcomeView {
    Rejected(TicTacToeError),
    Placed,
    Won(Piece, Seq<Option<Piece>>),
    Drawn(Seq<Option<Piece>>),
}

/// What the step for `input` in the state `s` gives back.
///
/// A move that was not obtained or cannot be placed is rejected with its
/// reason. Else the piece is placed: if there is then a winner the round is
/// won; if not and the board is full it is drawn; otherwise play goes on.
pub open spec fn step_outcome(
    s: StateView,
    input: Result<(usize, usize), TicTacToeError>,
) -> OutcomeView {
    match attempt(s, input) {
        Err(e) => OutcomeView::Rejected(e),
        Ok(g) => match winner(g) {
            Some(piece) => OutcomeView::Won(piece, g),
            None => if is_full_grid(g) {
                OutcomeView::Drawn(g)
            } else {
                OutcomeView::Placed
            },
        },
    }
}

/// The state after the step for `input` in the state `s`.
///
/// A rejected move leaves the state as it is. A move that ends the round
/// leaves an empty board, one that does not leaves the board with the piece
/// placed; either way the other piece moves next.
pub open spec fn after_step(
    s: StateView,
    input: Result<(usize, usize), TicTacToeError>,
) -> StateView {
    match attempt(s, input) {
        Err(_) => s,
        Ok(g) => if winner(g) is Some || is_full_grid(g) {
            fresh_round(s.turn.other())
        } else {
            StateView { grid: g, turn: s.turn.other() }
        },
    }
}

/// The board of a round and the piece that moves next.
#[derive(Debug)]
pub struct GameState {
    pub board: Board,
    pub turn: Piece,
}

impl View for GameState {
    type V = StateView;

    open spec fn view(&self) -> StateView {
        StateView { grid: self.board@, turn: self.turn }
    }
}

/// What a step of the game did.
#[derive(Debug)]
pub enum Outcome {
    /// The move was refused for the reason given. Nothing has changed, and
    /// the same piece is to move.
    Rejected(TicTacToeError),
    /// The piece was placed and the round goes on with the other piece.
    Placed,
    /// The piece was placed and completed a line. Holds the winner and the
    /// board as the round ended; a new round has begun.
    Won(Piece, Board),
    /// The piece was placed and filled the board without completing a line.
    /// Holds the board as the round ended; a new round has begun.
    Drawn(Board),
}

impl View for Outcome {
    type V = OutcomeView;

    open spec fn view(&self) -> OutcomeView {
        match *self {
            Outcome::Rejected(e) => OutcomeView::Rejected(e),
            Outcome::Placed => OutcomeView::Placed,
            Outcome::Won(piece, board) => OutcomeView::Won(piece, board@),
            Outcome::Drawn(board) => OutcomeView::Drawn(board@),
        }
    }
}

/// A game: the round being played and the lines that win.
///
/// Its view is the state of the round. The lines are those of
/// `winning_lines` from the moment the game is made.
#[derive(Debug)]
pub struct Game {
    state: GameState,
    winning_positions: Vec<Vec<(usize, usize)>>,
}

impl View for Game {
    type V = StateView;

    closed spec fn view(&self) -> StateView {
        self.state@
    }
}

impl Game {
    #[verifier::type_invariant]
    spec fn well_formed(&self) -> bool {
        lines_view(&self.winning_positions) == winning_lines()
    }

    /// Makes a game at the start of its first round: the board is empty, the
    /// naught moves first, and the winning lines are laid out.
    pub fn new() -> (game: Game)
        ensures
            game@ == initial_state(),
    {
        Game::from_state(GameState { board: Board::new(), turn: Piece::Naught })
    }

    /// Makes a game that goes on from `state`, with the winning lines laid
    /// out.
    ///
    /// Any state is taken as it is, also one in which the round is over: a
    /// board with a winner on it, or a full one.
    pub fn from_state(state: GameState) -> (game: Game)
        ensures
            game@ == state@,
    {
        Game { state, winning_positions: generate_lines() }
    }

    /// Gives the state of the round: its board and the piece that moves
    /// next.
    pub fn state(&self) -> (state: &GameState)
        ensures
            state@ == self@,
    {
        &self.state
    }

    /// Gives the winning lines, each as the rows and columns of its cells.
    pub fn winning_positions(&self) -> (lines: &Vec<Vec<(usize, usize)>>)
        ensures
            lines_view(lines) == winning_lines(),
    {
        proof {
            use_type_invariant(self);
        }
        &self.winning_positions
    }

    /// Gives the state in which the next round begins: an empty board, and
    /// the piece to move is the other one than now.
    pub fn reset_state(&self) -> (state: GameState)
        ensures
            state@ == fresh_round(self@.turn.other()),
    {
        GameState { board: Board::new(), turn: self.change_turn() }
    }

    /// Gives the piece that moves after the one that moves now.
    pub fn change_turn(&self) -> (piece: Piece)
        ensures
            piece == self@.turn.other(),
    {
        self.state.turn.opponent()
    }

    /// Tells which piece holds every cell of `slice` on the board of the
    /// round, if one does.
    ///
    /// The slice names at least one cell, and each of its cells lies on the
    /// board.
    pub fn check_slice_for_winner(&self, slice: &Vec<(usize, usize)>) -> (r: Option<Piece>)
        requires
            slice@.len() > 0,
            forall|j: int|
                0 <= j < slice@.len() ==> in_bounds(
                    (#[trigger] slice@[j]).0 as int,
                    slice@[j].1 as int,
                ),
        ensures
            r == slice_winner(self@.grid, slice@),
    {
        let first = self.state.board.get_position(slice[0].0, slice[0].1).unwrap();
        let held = match first {
            Some(piece) => piece,
            None => {
                return None;
            },
        };
        let mut j: usize = 0;
        while j < slice.len()
            invariant
                j <= slice@.len(),
                first == Some(held),
                first == cell_of(self.state.board@, slice@[0]),
                forall|i: int|
                    0 <= i < slice@.len() ==> in_bounds(
                        (#[trigger] slice@[i]).0 as int,
                        slice@[i].1 as int,
                    ),
                forall|i: int|
                    0 <= i < j ==> cell_of(self.state.board@, #[trigger] slice@[i]) == first,
            decreases slice@.len() - j,
        {
            let cell = self.state.board.get_position(slice[j].0, slice[j].1).unwrap();
            let same: bool = match cell {
                Some(piece) => piece == held,
                None => false,
            };
            if !same {
                return None;
            }
            j = j + 1;
        }
        first
    }

    /// Tells the winner on the board of the round: the piece that holds the
    /// first winning line, in their order, of which one piece holds every
    /// cell; or none where there is no such line.
    pub fn check_winner(&self) -> (r: Option<Piece>)
        ensures
            r == winner(self@.grid),
    {
        proof {
            use_type_invariant(self);
        }
        let mut k: usize = 0;
        while k < self.winning_positions.len()
            invariant
                k <= self.winning_positions@.len(),
                lines_view(&self.winning_positions) == winning_lines(),
                winner(self.state.board@) == winner_from(
                    self.state.board@,
                    winning_lines(),
                    k as int,
                ),
            decreases self.winning_positions@.len() - k,
        {
            assert(self.winning_positions@[k as int]@ == winning_lines()[k as int]) by {
                assert(lines_view(&self.winning_positions)[k as int]
                    == self.winning_positions@[k as int]@);
            }
            assert(winning_lines()[k as int] == winning_line(k as int));
            if let Some(piece) = self.check_slice_for_winner(&self.winning_positions[k]) {
                return Some(piece);
            }
            k = k + 1;
        }
        None
    }

    /// Takes the game one move further.
    ///
    /// `input` is what the source of moves gave: a row and a column, or the
    /// reason why it has none. What comes back is `step_outcome` of the state
    /// before and the input, and the state after is `after_step` of them.
    pub fn step(&mut self, input: Result<(usize, usize), TicTacToeError>) -> (outcome: Outcome)
        ensures
            outcome@ == step_outcome(old(self)@, input),
            final(self)@ == after_step(old(self)@, input),
    {
        proof {
            use_type_invariant(&*self);
        }
        let (row, col) = match input {
            Ok(at) => at,
            Err(e) => {
                return Outcome::Rejected(e);
            },
        };
        let board = match self.state.board.set_piece(row, col, self.state.turn) {
            Ok(board) => board,
            Err(e) => {
                return Outcome::Rejected(e);
            },
        };
        self.state.board = board;
        match self.check_winner() {
            Some(piece) => {
                let mut finished = self.reset_state();
                core::mem::swap(&mut self.state, &mut finished);
                Outcome::Won(piece, finished.board)
            },
            None => {
                if self.state.board.is_full() {
                    let mut finished = self.reset_state();
                    core::mem::swap(&mut self.state, &mut finished);
                    Outcome::Drawn(finished.board)
                } else {
                    self.state.turn = self.change_turn();
                    Outcome::Placed
                }
            },
        }
    }
}

/// Whether the `m`-th winning line is held by `piece` on `g` and no line
/// before it is held by any piece.
pub open spec fn first_held_line(g: Seq<Option<Piece>>, m: int, piece: Piece) -> bool {
    &&& 0 <= m < LINE_COUNT
    &&& line_held_by(g, m, piece)
    &&& forall|i: int, q: Piece| 0 <= i < m ==> !#[trigger] line_held_by(g, i, q)
}

/// Whether a round in state `s` is under way: the board has its cells, no
/// piece has won on it, and a cell is still empty.
pub open spec fn playable(s: StateView) -> bool {
    &&& is_grid(s.grid)
    &&& winner(s.grid) is None
    &&& !is_full_grid(s.grid)
}

proof fn lemma_cell_of_line(g: Seq<Option<Piece>>, k: int, j: int)
    requires
        0 <= k < LINE_COUNT,
        0 <= j < BOARD_WIDTH,
    ensures
        cell_of(g, winning_line(k)[j]) == g[line_slot(k, j)],
{
}

/// One piece holds every cell of a winning line exactly when that piece is
/// what the line, taken as a slice of cells, gives as its winner.
pub proof fn held_line_is_slice_winner(g: Seq<Option<Piece>>, k: int, piece: Piece)
    requires
        0 <= k < LINE_COUNT,
    ensures
        slice_winner(g, winning_line(k)) == Some(piece) <==> line_held_by(g, k, piece),
{
    let line = winning_line(k);
    lemma_cell_of_line(g, k, 0);
    if line_held_by(g, k, piece) {
        assert(g[line_slot(k, 0)] == Some(piece));
        assert forall|j: int| 0 <= j < line.len() implies cell_of(g, #[trigger] line[j]) == cell_of(
            g,
            line[0],
        ) by {
            lemma_cell_of_line(g, k, j);
            assert(g[line_slot(k, j)] == Some(piece));
        }
    }
    if slice_winner(g, line) == Some(piece) {
        assert forall|j: int| 0 <= j < BOARD_WIDTH implies g[#[trigger] line_slot(k, j)] == Some(
            piece,
        ) by {
            lemma_cell_of_line(g, k, j);
            assert(cell_of(g, line[j]) == cell_of(g, line[0]));
        }
    }
}

proof fn lemma_winner_from(g: Seq<Option<Piece>>, k: int)
    requires
        0 <= k <= LINE_COUNT,
    ensures
        match winner_from(g, winning_lines(), k) {
            Some(piece) => exists|m: int|
                k <= m < LINE_COUNT && #[trigger] line_held_by(g, m, piece) && forall|
                    i: int,
                    q: Piece,
                |
                    k <= i < m ==> !#[trigger] line_held_by(g, i, q),
            None => forall|i: int, q: Piece|
                k <= i < LINE_COUNT ==> !#[trigger] line_held_by(g, i, q),
        },
    decreases LINE_COUNT - k,
{
    if k < LINE_COUNT {
        assert(winning_lines()[k] == winning_line(k));
        assert forall|q: Piece|
            slice_winner(g, winning_line(k)) == Some(q) <==> #[trigger] line_held_by(
                g,
                k,
                q,
            ) by {
            held_line_is_slice_winner(g, k, q);
        }
        match slice_winner(g, winning_line(k)) {
            Some(piece) => {
                assert(line_held_by(g, k, piece));
            },
            None => {
                lemma_winner_from(g, k + 1);
                match winner_from(g, winning_lines(), k + 1) {
                    Some(piece) => {
                        let m = choose|m: int|
                            k + 1 <= m < LINE_COUNT && #[trigger] line_held_by(g, m, piece)
                                && forall|i: int, q: Piece|
                                k + 1 <= i < m ==> !#[trigger] line_held_by(g, i, q);
                        assert(line_held_by(g, m, piece));
                    },
                    None => {},
                }
            },
        }
    }
}

/// The winner on a board is the piece that holds the first winning line
/// held by any piece; and where there is no winner, no piece holds any of
/// the winning lines.
pub proof fn winner_holds_the_first_held_line(g: Seq<Option<Piece>>)
    ensures
        match winner(g) {
            Some(piece) => exists|m: int| #[trigger] first_held_line(g, m, piece),
            None => forall|i: int, q: Piece|
                0 <= i < LINE_COUNT ==> !#[trigger] line_held_by(g, i, q),
        },
{
    lemma_winner_from(g, 0);
    match winner(g) {
        Some(piece) => {
            let m = choose|m: int|
                0 <= m < LINE_COUNT && #[trigger] line_held_by(g, m, piece) && forall|
                    i: int,
                    q: Piece,
                |
                    0 <= i < m ==> !#[trigger] line_held_by(g, i, q);
            assert(first_held_line(g, m, piece));
        },
        None => {},
    }
}

/// Where a piece holds a winning line and no piece holds an earlier one,
/// that piece is the winner.
pub proof fn the_first_held_line_wins(g: Seq<Option<Piece>>, m: int, piece: Piece)
    requires
        first_held_line(g, m, piece),
    ensures
        winner(g) == Some(piece),
{
    winner_holds_the_first_held_line(g);
    match winner(g) {
        Some(other) => {
            let n = choose|n: int| #[trigger] first_held_line(g, n, other);
            assert(n == m);
            assert(g[line_slot(m, 0)] == Some(piece));
            assert(g[line_slot(m, 0)] == Some(other));
        },
        None => {},
    }
}

/// On a board of which no piece holds a whole winning line there is no
/// winner.
pub proof fn no_held_line_no_winner(g: Seq<Option<Piece>>)
    requires
        forall|k: int, q: Piece| 0 <= k < LINE_COUNT ==> !#[trigger] line_held_by(g, k, q),
    ensures
        winner(g) is None,
{
    winner_holds_the_first_held_line(g);
}

/// On a board where one piece holds every cell of one winning line and
/// every other cell is empty, that piece is the winner.
pub proof fn a_single_held_line_wins(g: Seq<Option<Piece>>, k: int, piece: Piece)
    requires
        is_grid(g),
        0 <= k < LINE_COUNT,
        forall|i: int|
            0 <= i < BOARD_CELLS ==> #[trigger] g[i] == if on_line(k, i) {
                Some(piece)
            } else {
                None::<Piece>
            },
    ensures
        winner(g) == Some(piece),
{
    assert forall|j: int| 0 <= j < BOARD_WIDTH implies g[#[trigger] line_slot(k, j)] == Some(
        piece,
    ) by {
        assert(on_line(k, line_slot(k, j)));
    }
    assert forall|i: int, q: Piece| 0 <= i < k implies !#[trigger] line_held_by(g, i, q) by {
        no_line_covers_another(k, i);
        if !on_line(k, line_slot(i, 0)) {
            assert(g[line_slot(i, 0)] == None::<Piece>);
        } else {
            assert(g[line_slot(i, 1)] == None::<Piece>);
        }
    }
    the_first_held_line_wins(g, k, piece);
}

/// A round that has just begun is under way, whichever piece moves first:
/// so is a new game.
pub proof fn a_fresh_round_is_playable(turn: Piece)
    ensures
        playable(fresh_round(turn)),
        playable(initial_state()),
{
    let g = empty_grid();
    assert forall|k: int, q: Piece| 0 <= k < LINE_COUNT implies !#[trigger] line_held_by(
        g,
        k,
        q,
    ) by {
        assert(g[line_slot(k, 0)] == None::<Piece>);
    }
    no_held_line_no_winner(g);
    assert(g[0] is None);
}

/// A step keeps a round under way: after it the board again has no winner
/// and an empty cell, be it the same round or the next.
pub proof fn a_step_keeps_the_round_playable(
    s: StateView,
    input: Result<(usize, usize), TicTacToeError>,
)
    requires
        playable(s),
    ensures
        playable(after_step(s, input)),
{
    a_fresh_round_is_playable(s.turn.other());
}

/// While a round is under way there is a move that is not rejected, so a
/// game cannot come to a state in which every move is refused.
pub proof fn a_playable_round_has_a_move(s: StateView)
    requires
        playable(s),
    ensures
        exists|row: usize, col: usize| #[trigger] attempt(s, Ok((row, col))) is Ok,
{
    let i = choose|i: int| 0 <= i < s.grid.len() && !(#[trigger] s.grid[i] is Some);
    let row: usize = (i / (BOARD_WIDTH as int)) as usize;
    let col: usize = (i % (BOARD_WIDTH as int)) as usize;
    assert(slot(row as int, col as int) == i);
    assert(attempt(s, Ok((row, col))) is Ok);
}

/// A rejected move changes nothing; every other move passes the turn to
/// the other piece, so that after two of them the turn is back where it
/// was.
pub proof fn turns_alternate(
    s: StateView,
    first: Result<(usize, usize), TicTacToeError>,
    second: Result<(usize, usize), TicTacToeError>,
)
    ensures
        step_outcome(s, first) is Rejected ==> after_step(s, first) == s,
        !(step_outcome(s, first) is Rejected) ==> after_step(s, first).turn == s.turn.other(),
        !(step_outcome(s, first) is Rejected) && !(step_outcome(after_step(s, first), second)
            is Rejected) ==> after_step(after_step(s, first), second).turn == s.turn,
{
}

/// A move is rejected exactly when it was not obtained, lies outside the
/// board, or names a cell that holds a piece; the reason says which.
pub proof fn rejected_moves(s: StateView, input: Result<(usize, usize), TicTacToeError>)
    ensures
        step_outcome(s, input) is Rejected <==> attempt(s, input) is Err,
        input matches Err(e) ==> step_outcome(s, input) == OutcomeView::Rejected(e),
        input matches Ok(at) ==> (!in_bounds(at.0 as int, at.1 as int) ==> step_outcome(s, input)
            == OutcomeView::Rejected(TicTacToeError::OutOfBounds)),
        input matches Ok(at) ==> (in_bounds(at.0 as int, at.1 as int) && cell_of(s.grid, at)
            is Some ==> step_outcome(s, input) == OutcomeView::Rejected(
            TicTacToeError::PieceInPosition(at.0, at.1),
        )),
        input matches Ok(at) ==> (in_bounds(at.0 as int, at.1 as int) && cell_of(s.grid, at)
            is None ==> !(step_outcome(s, input) is Rejected)),
{
}

/// A move that ends a round, won or drawn, leaves an empty board on which
/// the other piece than the one that just moved is first to move. A round is
/// drawn exactly when the piece placed fills the board and leaves no winner.
pub proof fn the_end_of_a_round(s: StateView, input: Result<(usize, usize), TicTacToeError>)
    ensures
        step_outcome(s, input) is Won || step_outcome(s, input) is Drawn ==> after_step(s, input)
            == fresh_round(s.turn.other()),
        step_outcome(s, input) is Drawn <==> (attempt(s, input) matches Ok(g) && winner(g) is None
            && is_full_grid(g)),
        step_outcome(s, input) is Won <==> (attempt(s, input) matches Ok(g) && winner(g) is Some),
{
}

/// In a round under way, the piece that wins by a move is the piece that
/// made it.
pub proof fn the_winner_is_the_mover(s: StateView, input: Result<(usize, usize), TicTacToeError>)
    requires
        is_grid(s.grid),
        winner(s.grid) is None,
        step_outcome(s, input) is Won,
    ensures
        step_outcome(s, input)->Won_0 == s.turn,
{
    let at = input->Ok_0;
    let g = attempt(s, input)->Ok_0;
    let piece = winner(g)->Some_0;
    winner_holds_the_first_held_line(g);
    winner_holds_the_first_held_line(s.grid);
    let m = choose|m: int| #[trigger] first_held_line(g, m, piece);
    if piece != s.turn {
        assert forall|j: int| 0 <= j < BOARD_WIDTH implies s.grid[#[trigger] line_slot(m, j)]
            == Some(piece) by {
            assert(g[line_slot(m, j)] == Some(piece));
            assert(0 <= line_slot(m, j) < BOARD_CELLS);
        }
        assert(line_held_by(s.grid, m, piece));
    }
}

} // verus!
