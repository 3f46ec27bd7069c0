use crate::board::{in_bounds, slot, BOARD_WIDTH};
use vstd::prelude::*;

verus! {

/// The number of lines that win: each row, each column and the two
/// diagonals.
pub const LINE_COUNT: usize = 2 * BOARD_WIDTH + 2;

/// The row and the column of the `j`-th cell of the `k`-th winning line.
///
/// The lines come in a fixed order: row 0, column 0, row 1, column 1 and so
/// on; then the diagonal from the first cell of the first row; then the
/// diagonal from the last cell of the first row. The cells of a row go by
/// column, those of every other line by row.
pub open spec fn line_cell(k: int, j: int) -> (int, int) {
    if k < 2 * BOARD_WIDTH {
        if k % 2 == 0 {
            (k / 2, j)
        } else {
            (j, k / 2)
        }
    } else if k == 2 * BOARD_WIDTH {
        (j, j)
    } else {
        (j, BOARD_WIDTH - 1 - j)
    }
}

/// The slot of the `j`-th cell of the `k`-th winning line.
pub open spec fn line_slot(k: int, j: int) -> int {
    slot(line_cell(k, j).0, line_cell(k, j).1)
}

/// The `k`-th winning line, as the rows and columns of its cells.
pub open spec fn winning_line(k: int) -> Seq<(usize, usize)> {
    Seq::new(
        BOARD_WIDTH as nat,
        |j: int| (line_cell(k, j).0 as usize, line_cell(k, j).1 as usize),
    )
}

/// Whether the cell with slot `i` is one of the `k`-th winning line.
pub open spec fn on_line(k: int, i: int) -> bool {
    exists|j: int| 0 <= j < BOARD_WIDTH && #[trigger] line_slot(k, j) == i
}

/// All the winning lines, in their order.
pub open spec fn winning_lines() -> Seq<Seq<(usize, usize)>> {
    Seq::new(LINE_COUNT as nat, |k: int| winning_line(k))
}

/// What a vector of lines holds, each line as a sequence.
pub open spec fn lines_view(lines: &Vec<Vec<(usize, usize)>>) -> Seq<Seq<(usize, usize)>> {
    Seq::new(lines@.len(), |k: int| lines@[k]@)
}

/// The cells of row `row`, by column.
fn row_line(row: usize) -> (line: Vec<(usize, usize)>)
    requires
        row < BOARD_WIDTH,
    ensures
        line@ == winning_line(2 * row),
{
    let mut line: Vec<(usize, usize)> = Vec::new();
    let mut j: usize = 0;
    while j < BOARD_WIDTH
        invariant
            j <= BOARD_WIDTH,
            row < BOARD_WIDTH,
            line@.len() == j,
            forall|i: int| 0 <= i < j ==> line@[i] == winning_line(2 * row)[i],
        decreases BOARD_WIDTH - j,
    {
        line.push((row, j));
        j = j + 1;
    }
    assert(line@ =~= winning_line(2 * row));
    line
}

/// The cells of column `col`, by row.
fn column_line(col: usize) -> (line: Vec<(usize, usize)>)
    requires
        col < BOARD_WIDTH,
    ensures
        line@ == winning_line(2 * col + 1),
{
    let mut line: Vec<(usize, usize)> = Vec::new();
    let mut j: usize = 0;
    while j < BOARD_WIDTH
        invariant
            j <= BOARD_WIDTH,
            col < BOARD_WIDTH,
            line@.len() == j,
            forall|i: int| 0 <= i < j ==> line@[i] == winning_line(2 * col + 1)[i],
        decreases BOARD_WIDTH - j,
    {
        line.push((j, col));
        j = j + 1;
    }
    assert(line@ =~= winning_line(2 * col + 1));
    line
}

/// The cells of the diagonal that starts at the first cell of the first row.
fn diagonal_line() -> (line: Vec<(usize, usize)>)
    ensures
        line@ == winning_line(2 * BOARD_WIDTH),
{
    let mut line: Vec<(usize, usize)> = Vec::new();
    let mut j: usize = 0;
    while j < BOARD_WIDTH
        invariant
            j <= BOARD_WIDTH,
            line@.len() == j,
            forall|i: int| 0 <= i < j ==> line@[i] == winning_line(2 * BOARD_WIDTH)[i],
        decreases BOARD_WIDTH - j,
    {
        line.push((j, j));
        j = j + 1;
    }
    assert(line@ =~= winning_line(2 * BOARD_WIDTH));
    line
}

/// The cells of the diagonal that starts at the last cell of the first row.
fn anti_diagonal_line() -> (line: Vec<(usize, usize)>)
    ensures
        line@ == winning_line(2 * BOARD_WIDTH + 1),
{
    let mut line: Vec<(usize, usize)> = Vec::new();
    let mut j: usize = 0;
    while j < BOARD_WIDTH
        invariant
            j <= BOARD_WIDTH,
            line@.len() == j,
            forall|i: int| 0 <= i < j ==> line@[i] == winning_line(2 * BOARD_WIDTH + 1)[i],
        decreases BOARD_WIDTH - j,
    {
        line.push((j, BOARD_WIDTH - 1 - j));
        j = j + 1;
    }
    assert(line@ =~= winning_line(2 * BOARD_WIDTH + 1));
    line
}

/// Builds the winning lines: for each index, the row and then the column of
/// that index, and after them the two diagonals.
pub fn generate_lines() -> (lines: Vec<Vec<(usize, usize)>>)
    ensures
        lines_view(&lines) == winning_lines(),
{
    let mut lines: Vec<Vec<(usize, usize)>> = Vec::new();
    let mut i: usize = 0;
    while i < BOARD_WIDTH
        invariant
            i <= BOARD_WIDTH,
            lines@.len() == 2 * i,
            forall|k: int| 0 <= k < 2 * i ==> (#[trigger] lines@[k])@ == winning_line(k),
        decreases BOARD_WIDTH - i,
    {
        lines.push(row_line(i));
        lines.push(column_line(i));
        i = i + 1;
    }
    lines.push(diagonal_line());
    lines.push(anti_diagonal_line());
    assert(lines_view(&lines) =~= winning_lines());
    lines
}

/// There are two winning lines for each index of the board and two more;
/// each has as many cells as the board is wide; each of its cells lies on
/// the board; and no two of the lines are the same.
pub proof fn winning_lines_are_sound()
    ensures
        winning_lines().len() == 2 * BOARD_WIDTH + 2,
        forall|k: int|
            0 <= k < winning_lines().len() ==> (#[trigger] winning_lines()[k]).len()
                == BOARD_WIDTH,
        forall|k: int, j: int|
            0 <= k < winning_lines().len() && 0 <= j < BOARD_WIDTH ==> in_bounds(
                (#[trigger] winning_lines()[k][j]).0 as int,
                winning_lines()[k][j].1 as int,
            ),
        forall|k1: int, k2: int|
            0 <= k1 < k2 < winning_lines().len() ==> #[trigger] winning_lines()[k1]
                != #[trigger] winning_lines()[k2],
{
    assert forall|k1: int, k2: int|
        0 <= k1 < k2 < winning_lines().len() implies #[trigger] winning_lines()[k1]
        != #[trigger] winning_lines()[k2] by {
        let a = winning_line(k1);
        let b = winning_line(k2);
        assert(a[0] != b[0] || a[1] != b[1]);
    }
}

/// No winning line covers another: of the first two cells of a line, one
/// at least is no cell of any other given line.
pub proof fn no_line_covers_another(k: int, i: int)
    requires
        0 <= k < LINE_COUNT,
        0 <= i < LINE_COUNT,
        i != k,
    ensures
        !on_line(k, line_slot(i, 0)) || !on_line(k, line_slot(i, 1)),
{
}

} // verus!
