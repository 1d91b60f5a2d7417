//! The board: a fixed grid of settled cells.

use crate::tetrimino::{catalogue_cell, cell_free, state_cell, Tetrimino, PIECE_SIZE};
use vstd::prelude::*;

verus! {

/// Number of columns of the board.
pub const BOARD_WIDTH: usize = 10;

/// Number of rows of the board.
pub const BOARD_HEIGHT: usize = 16;

/// Largest value a cell can hold: the number of shapes.
pub const MAX_CELL: u8 = 7;

/// A row without any settled cell.
pub open spec fn empty_row() -> Seq<u8> {
    Seq::new(BOARD_WIDTH as nat, |c: int| 0u8)
}

/// A grid of `BOARD_HEIGHT` empty rows.
pub open spec fn empty_grid() -> Seq<Seq<u8>> {
    Seq::new(BOARD_HEIGHT as nat, |r: int| empty_row())
}

/// A row of the right width whose cells are empty (0) or hold a shape id.
pub open spec fn valid_row(row: Seq<u8>) -> bool {
    &&& row.len() == BOARD_WIDTH
    &&& forall|c: int| 0 <= c < row.len() ==> #[trigger] row[c] <= MAX_CELL
}

/// A grid of the right height made of valid rows.
pub open spec fn valid_grid(grid: Seq<Seq<u8>>) -> bool {
    &&& grid.len() == BOARD_HEIGHT
    &&& forall|r: int| 0 <= r < grid.len() ==> valid_row(#[trigger] grid[r])
}

/// A row is complete when none of its cells is empty.
pub open spec fn row_complete(row: Seq<u8>) -> bool {
    forall|c: int| 0 <= c < row.len() ==> #[trigger] row[c] != 0
}

/// The rows that stay when the complete ones are taken out, in their order.
pub open spec fn surviving_rows(grid: Seq<Seq<u8>>) -> Seq<Seq<u8>> {
    grid.filter(|row: Seq<u8>| !row_complete(row))
}

/// How many rows of the grid are complete.
pub open spec fn complete_count(grid: Seq<Seq<u8>>) -> nat {
    (grid.len() - surviving_rows(grid).len()) as nat
}

/// The grid after its complete rows are removed: the surviving rows sink to
/// the bottom and as many empty rows enter at the top.
pub open spec fn cleared_grid(grid: Seq<Seq<u8>>) -> Seq<Seq<u8>> {
    Seq::new(complete_count(grid), |r: int| empty_row()) + surviving_rows(grid)
}

/// Whether the piece has an occupied cell on the board cell at `col`, `row`.
pub open spec fn covers(piece: Tetrimino, col: int, row: int) -> bool {
    &&& 0 <= row - piece.y < PIECE_SIZE
    &&& 0 <= col - piece.x < PIECE_SIZE
    &&& state_cell(piece.shape, piece.current_state as int, row - piece.y, col - piece.x) != 0
}

/// The grid once the piece is written into it: the cells under the piece's
/// occupied cells hold the id of its shape, all others are as before.
pub open spec fn grid_with_piece(grid: Seq<Seq<u8>>, piece: Tetrimino) -> Seq<Seq<u8>> {
    Seq::new(
        grid.len(),
        |r: int|
            Seq::new(
                grid[r].len(),
                |c: int|
                    if covers(piece, c, r) {
                        piece.shape.id()
                    } else {
                        grid[r][c]
                    },
            ),
    )
}

/// The grid while the piece is being written: only the piece's cells that
/// come before `row`, `col` of its matrix, row by row, are written yet.
spec fn grid_with_part(grid: Seq<Seq<u8>>, piece: Tetrimino, row: int, col: int) -> Seq<Seq<u8>> {
    Seq::new(
        grid.len(),
        |r: int|
            Seq::new(
                grid[r].len(),
                |c: int|
                    if covers(piece, c, r) && (r - piece.y < row || (r - piece.y == row && c
                        - piece.x < col)) {
                        piece.shape.id()
                    } else {
                        grid[r][c]
                    },
            ),
    )
}

/// The cells held by a vector of rows.
pub open spec fn grid_of(rows: Seq<Vec<u8>>) -> Seq<Seq<u8>> {
    Seq::new(rows.len(), |r: int| rows[r]@)
}

/// The settled cells of the game: `BOARD_HEIGHT` rows of `BOARD_WIDTH` cells,
/// row 0 at the top. A cell holds 0 when empty, else the id of the shape that
/// filled it.
pub struct Board {
    rows: Vec<Vec<u8>>,
}

impl View for Board {
    type V = Seq<Seq<u8>>;

    closed spec fn view(&self) -> Seq<Seq<u8>> {
        grid_of(self.rows@)
    }
}

impl Board {
    /// The board's invariant: its grid is a valid grid.
    pub open spec fn wf(&self) -> bool {
        valid_grid(self@)
    }

    /// An empty board.
    pub fn new() -> (board: Board)
        ensures
            board.wf(),
            board@ == empty_grid(),
    {
        let mut rows: Vec<Vec<u8>> = Vec::new();
        while rows.len() < BOARD_HEIGHT
            invariant
                rows.len() <= BOARD_HEIGHT,
                forall|r: int| 0 <= r < rows.len() ==> (#[trigger] rows@[r])@ == empty_row(),
            decreases BOARD_HEIGHT - rows.len(),
        {
            let row = new_row();
            rows.push(row);
        }
        let board = Board { rows };
        assert(board@ =~= empty_grid());
        board
    }

    /// The board that holds the given rows; `None` unless they form a valid
    /// grid.
    pub fn from_rows(rows: Vec<Vec<u8>>) -> (board: Option<Board>)
        ensures
            valid_grid(grid_of(rows@)) == board.is_some(),
            board matches Some(b) ==> b.wf() && b@ == grid_of(rows@),
    {
        if rows.len() != BOARD_HEIGHT {
            return None;
        }
        let mut r: usize = 0;
        while r < BOARD_HEIGHT
            invariant
                r <= BOARD_HEIGHT,
                rows@.len() == BOARD_HEIGHT,
                forall|i: int| 0 <= i < r ==> valid_row(#[trigger] grid_of(rows@)[i]),
            decreases BOARD_HEIGHT - r,
        {
            if rows[r].len() != BOARD_WIDTH {
                assert(!valid_row(grid_of(rows@)[r as int]));
                return None;
            }
            let mut c: usize = 0;
            while c < BOARD_WIDTH
                invariant
                    c <= BOARD_WIDTH,
                    r < BOARD_HEIGHT,
                    rows@.len() == BOARD_HEIGHT,
                    rows@[r as int]@.len() == BOARD_WIDTH,
                    forall|j: int| 0 <= j < c ==> #[trigger] rows@[r as int]@[j] <= MAX_CELL,
                decreases BOARD_WIDTH - c,
            {
                if rows[r][c] > MAX_CELL {
                    assert(grid_of(rows@)[r as int][c as int] > MAX_CELL);
                    assert(!valid_row(grid_of(rows@)[r as int]));
                    return None;
                }
                c += 1;
            }
            assert(valid_row(grid_of(rows@)[r as int]));
            r += 1;
        }
        Some(Board { rows })
    }

    /// A copy of the board's rows, top row first.
    pub fn rows(&self) -> (rows: Vec<Vec<u8>>)
        requires
            self.wf(),
        ensures
            grid_of(rows@) == self@,
    {
        let mut rows: Vec<Vec<u8>> = Vec::new();
        let mut r: usize = 0;
        while r < BOARD_HEIGHT
            invariant
                r <= BOARD_HEIGHT,
                self.wf(),
                rows@.len() == r,
                forall|i: int| 0 <= i < r ==> (#[trigger] rows@[i])@ == self@[i],
            decreases BOARD_HEIGHT - r,
        {
            let mut row: Vec<u8> = Vec::new();
            let mut c: usize = 0;
            while c < BOARD_WIDTH
                invariant
                    c <= BOARD_WIDTH,
                    r < BOARD_HEIGHT,
                    self.wf(),
                    row@.len() == c,
                    forall|j: int| 0 <= j < c ==> #[trigger] row@[j] == self@[r as int][j],
                decreases BOARD_WIDTH - c,
            {
                row.push(self.cell(r, c));
                c += 1;
            }
            assert(valid_row(self@[r as int]));
            assert(row@ =~= self@[r as int]);
            rows.push(row);
            r += 1;
        }
        assert(grid_of(rows@) =~= self@);
        rows
    }

    /// Writes the piece into the board for good: every board cell under an
    /// occupied cell of the piece takes the id of the piece's shape. The
    /// placement must have been tested before; it is not tested again.
    pub fn apply_piece(&mut self, piece: &Tetrimino)
        requires
            old(self).wf(),
            piece.wf(),
            piece.fits_here(old(self)@),
        ensures
            final(self).wf(),
            final(self)@ == grid_with_piece(old(self)@, *piece),
    {
        let ghost before = self@;
        let id = piece.shape.id();
        let mut r: usize = 0;
        assert(self@ =~= grid_with_part(before, *piece, 0, 0)) by {
            assert forall|i: int| 0 <= i < BOARD_HEIGHT implies #[trigger] self@[i]
                =~= grid_with_part(before, *piece, 0, 0)[i] by {}
        }
        while r < PIECE_SIZE
            invariant
                r <= PIECE_SIZE,
                valid_grid(before),
                piece.wf(),
                piece.fits_here(before),
                id == piece.shape.id(),
                self.wf(),
                self@ == grid_with_part(before, *piece, r as int, 0),
            decreases PIECE_SIZE - r,
        {
            let mut c: usize = 0;
            while c < PIECE_SIZE
                invariant
                    c <= PIECE_SIZE,
                    r < PIECE_SIZE,
                    valid_grid(before),
                    piece.wf(),
                    piece.fits_here(before),
                    id == piece.shape.id(),
                    self.wf(),
                    self@ == grid_with_part(before, *piece, r as int, c as int),
                decreases PIECE_SIZE - c,
            {
                let ghost current = self@;
                if catalogue_cell(piece.shape, piece.current_state, r, c) != 0 {
                    assert(cell_free(before, piece.x + c, piece.y + r));
                    let row = piece.y + r;
                    let col = (piece.x + c as isize) as usize;
                    assert(valid_row(self@[row as int]));
                    self.rows[row][col] = id;
                    assert(self@ =~= current.update(
                        row as int,
                        current[row as int].update(col as int, id),
                    ));
                }
                proof {
                    let next = grid_with_part(before, *piece, r as int, c as int + 1);
                    assert forall|i: int| 0 <= i < BOARD_HEIGHT implies #[trigger] self@[i]
                        =~= next[i] by {
                        assert(valid_row(before[i]));
                    }
                    assert(self@ =~= next);
                    assert forall|i: int| 0 <= i < BOARD_HEIGHT implies valid_row(
                        #[trigger] self@[i],
                    ) by {
                        assert(valid_row(current[i]));
                    }
                }
                c += 1;
            }
            proof {
                let row_done = grid_with_part(before, *piece, r as int, PIECE_SIZE as int);
                let next_row = grid_with_part(before, *piece, r as int + 1, 0);
                assert forall|i: int| 0 <= i < BOARD_HEIGHT implies #[trigger] row_done[i]
                    =~= next_row[i] by {}
                assert(row_done =~= next_row);
            }
            r += 1;
        }
        proof {
            let all_done = grid_with_part(before, *piece, PIECE_SIZE as int, 0);
            let written = grid_with_piece(before, *piece);
            assert forall|i: int| 0 <= i < BOARD_HEIGHT implies #[trigger] all_done[i]
                =~= written[i] by {}
            assert(all_done =~= written);
        }
    }

    /// The value of the cell at `row`, `col`.
    pub fn cell(&self, row: usize, col: usize) -> (value: u8)
        requires
            self.wf(),
            row < BOARD_HEIGHT,
            col < BOARD_WIDTH,
        ensures
            value == self@[row as int][col as int],
    {
        assert(valid_row(self@[row as int]));
        self.rows[row][col]
    }

    /// Removes every complete row in one pass. The rows that stay keep their
    /// order and sink to the bottom; as many empty rows enter at the top, so
    /// the board keeps its height. Returns the number of rows removed.
    pub fn clear_completed_rows(&mut self) -> (cleared: usize)
        requires
            old(self).wf(),
        ensures
            final(self).wf(),
            old(self)@.len() == BOARD_HEIGHT && final(self)@.len() == BOARD_HEIGHT,
            final(self)@ == cleared_grid(old(self)@),
            cleared == complete_count(old(self)@),
    {
        let ghost before = self@;
        let mut kept: Vec<Vec<u8>> = Vec::new();
        let mut y: usize = 0;
        while y < BOARD_HEIGHT
            invariant
                y <= BOARD_HEIGHT,
                valid_grid(before),
                self.rows@.len() == BOARD_HEIGHT,
                forall|r: int|
                    y <= r < BOARD_HEIGHT ==> (#[trigger] self.rows@[r])@ == before[r],
                grid_of(kept@) == surviving_rows(before.take(y as int)),
            decreases BOARD_HEIGHT - y,
        {
            let complete = is_complete(&self.rows[y]);
            proof {
                lemma_surviving_rows_push(before.take(y as int), before[y as int]);
                assert(before.take(y as int + 1) =~= before.take(y as int).push(
                    before[y as int],
                ));
            }
            if !complete {
                let ghost kept_before = kept@;
                let mut row: Vec<u8> = Vec::new();
                std::mem::swap(&mut row, &mut self.rows[y]);
                kept.push(row);
                assert(grid_of(kept@) =~= grid_of(kept_before).push(before[y as int]));
            }
            y += 1;
        }
        assert(before.take(BOARD_HEIGHT as int) =~= before);
        proof {
            before.lemma_filter_len(|row: Seq<u8>| !row_complete(row));
        }
        let cleared: usize = BOARD_HEIGHT - kept.len();
        let mut rows: Vec<Vec<u8>> = Vec::new();
        while rows.len() < cleared
            invariant
                rows.len() <= cleared,
                forall|r: int| 0 <= r < rows.len() ==> (#[trigger] rows@[r])@ == empty_row(),
            decreases cleared - rows.len(),
        {
            let row = new_row();
            rows.push(row);
        }
        rows.append(&mut kept);
        self.rows = rows;
        assert(self@ =~= cleared_grid(before));
        proof {
            lemma_cleared_grid_valid(before);
        }
        cleared
    }
}

/// Whether no cell of the row is empty.
fn is_complete(row: &Vec<u8>) -> (complete: bool)
    ensures
        complete == row_complete(row@),
{
    let mut x: usize = 0;
    while x < row.len()
        invariant
            x <= row.len(),
            forall|c: int| 0 <= c < x ==> #[trigger] row@[c] != 0,
        decreases row.len() - x,
    {
        if row[x] == 0 {
            return false;
        }
        x += 1;
    }
    true
}

/// Taking the surviving rows of a grid with one more row at the bottom.
proof fn lemma_surviving_rows_push(grid: Seq<Seq<u8>>, row: Seq<u8>)
    ensures
        surviving_rows(grid.push(row)) == if row_complete(row) {
            surviving_rows(grid)
        } else {
            surviving_rows(grid).push(row)
        },
{
    reveal(Seq::filter);
    assert(grid.push(row).drop_last() =~= grid);
}

/// Every surviving row is a row of the grid that has an empty cell.
proof fn lemma_surviving_rows_valid(grid: Seq<Seq<u8>>)
    requires
        forall|r: int| 0 <= r < grid.len() ==> valid_row(#[trigger] grid[r]),
    ensures
        surviving_rows(grid).len() <= grid.len(),
        forall|r: int|
            0 <= r < surviving_rows(grid).len() ==> valid_row(#[trigger] surviving_rows(grid)[r]),
    decreases grid.len(),
{
    if grid.len() == 0 {
        reveal(Seq::filter);
    } else {
        let rest = grid.drop_last();
        lemma_surviving_rows_valid(rest);
        lemma_surviving_rows_push(rest, grid.last());
        assert(rest.push(grid.last()) =~= grid);
    }
}

/// Clearing a valid grid gives a valid grid.
pub proof fn lemma_cleared_grid_valid(grid: Seq<Seq<u8>>)
    requires
        valid_grid(grid),
    ensures
        valid_grid(cleared_grid(grid)),
{
    lemma_surviving_rows_valid(grid);
    let cleared = cleared_grid(grid);
    let n = complete_count(grid);
    assert forall|r: int| 0 <= r < cleared.len() implies valid_row(#[trigger] cleared[r]) by {
        if r < n {
            assert(cleared[r] == empty_row());
        } else {
            assert(cleared[r] == surviving_rows(grid)[r - n]);
        }
    }
}

/// How many complete rows lie below row `row`.
pub open spec fn complete_below(grid: Seq<Seq<u8>>, row: int) -> nat {
    complete_count(grid.skip(row + 1))
}

/// Clearing never changes the number of rows: for every grid, as many empty
/// rows enter as complete rows leave.
pub proof fn lemma_clear_keeps_height(grid: Seq<Seq<u8>>)
    ensures
        complete_count(grid) <= grid.len(),
        cleared_grid(grid).len() == grid.len(),
        forall|r: int|
            0 <= r < complete_count(grid) ==> #[trigger] cleared_grid(grid)[r] == empty_row(),
{
    grid.lemma_filter_len(|row: Seq<u8>| !row_complete(row));
}

/// A row with an empty cell is never removed: clearing moves it down by the
/// number of complete rows below it, and no further.
pub proof fn lemma_incomplete_row_stays(grid: Seq<Seq<u8>>, row: int)
    requires
        0 <= row < grid.len(),
        !row_complete(grid[row]),
    ensures
        row + complete_below(grid, row) < grid.len(),
        cleared_grid(grid)[row + complete_below(grid, row)] == grid[row],
{
    let keep = |r: Seq<u8>| !row_complete(r);
    let above = grid.take(row);
    let below = grid.skip(row + 1);
    assert(grid =~= above.push(grid[row]) + below);
    Seq::filter_distributes_over_add(above.push(grid[row]), below, keep);
    lemma_surviving_rows_push(above, grid[row]);
    above.lemma_filter_len(keep);
    below.lemma_filter_len(keep);
    let at = surviving_rows(above).len() as int;
    assert(surviving_rows(grid)[at] == grid[row]);
}

/// After clearing a valid grid no complete row is left.
pub proof fn lemma_cleared_has_no_complete_row(grid: Seq<Seq<u8>>)
    requires
        valid_grid(grid),
    ensures
        complete_count(cleared_grid(grid)) == 0,
        cleared_grid(cleared_grid(grid)) == cleared_grid(grid),
{
    let keep = |r: Seq<u8>| !row_complete(r);
    let top = Seq::new(complete_count(grid), |r: int| empty_row());
    let kept = surviving_rows(grid);
    lemma_clear_keeps_height(grid);
    assert(!row_complete(empty_row())) by {
        assert(empty_row()[0] == 0);
    }
    lemma_filter_keeps_all(top, keep);
    assert forall|r: int| 0 <= r < kept.len() implies keep(#[trigger] kept[r]) by {
        grid.lemma_filter_pred(keep, r);
    }
    lemma_filter_keeps_all(kept, keep);
    Seq::filter_distributes_over_add(top, kept, keep);
    assert(surviving_rows(cleared_grid(grid)) =~= cleared_grid(grid));
    assert(cleared_grid(cleared_grid(grid)) =~= cleared_grid(grid));
}

/// A filter keeps a sequence whole when every element passes.
proof fn lemma_filter_keeps_all(rows: Seq<Seq<u8>>, keep: spec_fn(Seq<u8>) -> bool)
    requires
        forall|r: int| 0 <= r < rows.len() ==> keep(#[trigger] rows[r]),
    ensures
        rows.filter(keep) == rows,
    decreases rows.len(),
{
    reveal(Seq::filter);
    if rows.len() > 0 {
        lemma_filter_keeps_all(rows.drop_last(), keep);
        assert(rows.drop_last().push(rows.last()) =~= rows);
    }
}

/// Writing a piece that fits into a valid grid gives a valid grid, in which
/// every cell the piece covers was empty before.
pub proof fn lemma_grid_with_piece_valid(grid: Seq<Seq<u8>>, piece: Tetrimino)
    requires
        valid_grid(grid),
        piece.fits_here(grid),
    ensures
        valid_grid(grid_with_piece(grid, piece)),
        forall|r: int, c: int|
            0 <= r < BOARD_HEIGHT && 0 <= c < BOARD_WIDTH && #[trigger] covers(piece, c, r)
                ==> grid[r][c] == 0,
{
    let after = grid_with_piece(grid, piece);
    assert forall|r: int| 0 <= r < after.len() implies valid_row(#[trigger] after[r]) by {
        assert(valid_row(grid[r]));
    }
    assert forall|r: int, c: int|
        0 <= r < BOARD_HEIGHT && 0 <= c < BOARD_WIDTH && #[trigger] covers(
            piece,
            c,
            r,
        ) implies grid[r][c] == 0 by {
        let (i, j) = (r - piece.y, c - piece.x);
        assert(state_cell(piece.shape, piece.current_state as int, i, j) != 0);
        assert(cell_free(grid, piece.x + j, piece.y + i));
    }
}

/// A fresh empty row.
fn new_row() -> (row: Vec<u8>)
    ensures
        row@ == empty_row(),
{
    let mut row: Vec<u8> = Vec::new();
    while row.len() < BOARD_WIDTH
        invariant
            row.len() <= BOARD_WIDTH,
            forall|c: int| 0 <= c < row.len() ==> #[trigger] row@[c] == 0,
        decreases BOARD_WIDTH - row.len(),
    {
        row.push(0);
    }
    assert(row@ =~= empty_row());
    row
}

} // verus!
