//! The seven shapes with their rotation states, and the falling piece.

use crate::board::{Board, BOARD_HEIGHT, BOARD_WIDTH};
use rand::Rng;
use vstd::prelude::*;

verus! {

/// Side of the square matrix that holds one rotation state.
pub const PIECE_SIZE: usize = 4;

/// Number of shapes.
pub const SHAPE_COUNT: u8 = 7;

/// Column at which a new piece enters the board.
pub const SPAWN_X: isize = 3;

/// Row at which a new piece enters the board.
pub const SPAWN_Y: usize = 0;

pub const I_STATES: [[[u8; 4]; 4]; 2] = [
    [[1, 1, 1, 1], [0, 0, 0, 0], [0, 0, 0, 0], [0, 0, 0, 0]],
    [[0, 1, 0, 0], [0, 1, 0, 0], [0, 1, 0, 0], [0, 1, 0, 0]],
];

pub const J_STATES: [[[u8; 4]; 4]; 4] = [
    [[2, 0, 0, 0], [2, 2, 2, 0], [0, 0, 0, 0], [0, 0, 0, 0]],
    [[2, 2, 0, 0], [2, 0, 0, 0], [2, 0, 0, 0], [0, 0, 0, 0]],
    [[2, 2, 2, 0], [0, 0, 2, 0], [0, 0, 0, 0], [0, 0, 0, 0]],
    [[0, 2, 0, 0], [0, 2, 0, 0], [2, 2, 0, 0], [0, 0, 0, 0]],
];

pub const L_STATES: [[[u8; 4]; 4]; 4] = [
    [[0, 0, 3, 0], [3, 3, 3, 0], [0, 0, 0, 0], [0, 0, 0, 0]],
    [[3, 0, 0, 0], [3, 0, 0, 0], [3, 3, 0, 0], [0, 0, 0, 0]],
    [[3, 3, 3, 0], [3, 0, 0, 0], [0, 0, 0, 0], [0, 0, 0, 0]],
    [[3, 3, 0, 0], [0, 3, 0, 0], [0, 3, 0, 0], [0, 0, 0, 0]],
];

pub const O_STATES: [[[u8; 4]; 4]; 1] = [
    [[4, 4, 0, 0], [4, 4, 0, 0], [0, 0, 0, 0], [0, 0, 0, 0]],
];

pub const S_STATES: [[[u8; 4]; 4]; 2] = [
    [[0, 5, 5, 0], [5, 5, 0, 0], [0, 0, 0, 0], [0, 0, 0, 0]],
    [[5, 0, 0, 0], [5, 5, 0, 0], [0, 5, 0, 0], [0, 0, 0, 0]],
];

pub const Z_STATES: [[[u8; 4]; 4]; 2] = [
    [[6, 6, 0, 0], [0, 6, 6, 0], [0, 0, 0, 0], [0, 0, 0, 0]],
    [[0, 6, 0, 0], [6, 6, 0, 0], [6, 0, 0, 0], [0, 0, 0, 0]],
];

pub const T_STATES: [[[u8; 4]; 4]; 4] = [
    [[0, 7, 0, 0], [7, 7, 7, 0], [0, 0, 0, 0], [0, 0, 0, 0]],
    [[7, 0, 0, 0], [7, 7, 0, 0], [7, 0, 0, 0], [0, 0, 0, 0]],
    [[7, 7, 7, 0], [0, 7, 0, 0], [0, 0, 0, 0], [0, 0, 0, 0]],
    [[0, 7, 0, 0], [7, 7, 0, 0], [0, 7, 0, 0], [0, 0, 0, 0]],
];

/// One of the seven shapes.
#[derive(Clone, Copy, Debug, PartialEq, Eq, Structural)]
pub enum Shape {
    I,
    J,
    L,
    O,
    S,
    Z,
    T,
}

impl Shape {
    /// The shape's id, from 1 to 7: the value its cells hold on the board.
    pub open spec fn spec_id(self) -> u8 {
        match self {
            Shape::I => 1,
            Shape::J => 2,
            Shape::L => 3,
            Shape::O => 4,
            Shape::S => 5,
            Shape::Z => 6,
            Shape::T => 7,
        }
    }

    /// How many rotation states the shape has.
    pub open spec fn spec_rotation_count(self) -> usize {
        match self {
            Shape::I => 2,
            Shape::J => 4,
            Shape::L => 4,
            Shape::O => 1,
            Shape::S => 2,
            Shape::Z => 2,
            Shape::T => 4,
        }
    }

    /// The shape's id, from 1 to 7.
    #[verifier::when_used_as_spec(spec_id)]
    pub fn id(self) -> (id: u8)
        ensures
            id == self.spec_id(),
            1 <= id <= SHAPE_COUNT,
    {
        match self {
            Shape::I => 1,
            Shape::J => 2,
            Shape::L => 3,
            Shape::O => 4,
            Shape::S => 5,
            Shape::Z => 6,
            Shape::T => 7,
        }
    }

    /// The shape with the given id; `None` unless the id is from 1 to 7.
    pub fn from_id(id: u8) -> (shape: Option<Shape>)
        ensures
            (1 <= id <= SHAPE_COUNT) == shape.is_some(),
            shape matches Some(s) ==> s.id() == id,
    {
        match id {
            1 => Some(Shape::I),
            2 => Some(Shape::J),
            3 => Some(Shape::L),
            4 => Some(Shape::O),
            5 => Some(Shape::S),
            6 => Some(Shape::Z),
            7 => Some(Shape::T),
            _ => None,
        }
    }

    /// How many rotation states the shape has.
    #[verifier::when_used_as_spec(spec_rotation_count)]
    pub fn rotation_count(self) -> (count: usize)
        ensures
            count == self.spec_rotation_count(),
            1 <= count <= 4,
    {
        match self {
            Shape::I => 2,
            Shape::J => 4,
            Shape::L => 4,
            Shape::O => 1,
            Shape::S => 2,
            Shape::Z => 2,
            Shape::T => 4,
        }
    }
}

/// The catalogue as a function: the cell at `row`, `col` of rotation state
/// `rotation` of `shape`. Meaningful for `rotation` below the shape's
/// rotation count and `row`, `col` below `PIECE_SIZE`.
#[verifier::opaque]
pub open spec fn state_cell(shape: Shape, rotation: int, row: int, col: int) -> u8 {
    match shape {
        Shape::I => I_STATES[rotation][row][col],
        Shape::J => J_STATES[rotation][row][col],
        Shape::L => L_STATES[rotation][row][col],
        Shape::O => O_STATES[rotation][row][col],
        Shape::S => S_STATES[rotation][row][col],
        Shape::Z => Z_STATES[rotation][row][col],
        Shape::T => T_STATES[rotation][row][col],
    }
}

/// Whether `rotation`, `row`, `col` name a cell of the shape's catalogue entry.
pub open spec fn in_catalogue(shape: Shape, rotation: int, row: int, col: int) -> bool {
    &&& 0 <= rotation < shape.rotation_count()
    &&& 0 <= row < PIECE_SIZE
    &&& 0 <= col < PIECE_SIZE
}

/// The ordered rotation states of a shape, each a matrix of `PIECE_SIZE` rows
/// and columns.
pub open spec fn states_of(shape: Shape) -> Seq<Seq<Seq<u8>>> {
    Seq::new(
        shape.rotation_count() as nat,
        |k: int|
            Seq::new(
                PIECE_SIZE as nat,
                |r: int| Seq::new(PIECE_SIZE as nat, |c: int| state_cell(shape, k, r, c)),
            ),
    )
}

/// Reads one cell of the catalogue.
pub fn catalogue_cell(shape: Shape, rotation: usize, row: usize, col: usize) -> (value: u8)
    requires
        in_catalogue(shape, rotation as int, row as int, col as int),
    ensures
        value == state_cell(shape, rotation as int, row as int, col as int),
{
    proof {
        reveal(state_cell);
    }
    match shape {
        Shape::I => I_STATES[rotation][row][col],
        Shape::J => J_STATES[rotation][row][col],
        Shape::L => L_STATES[rotation][row][col],
        Shape::O => O_STATES[rotation][row][col],
        Shape::S => S_STATES[rotation][row][col],
        Shape::Z => Z_STATES[rotation][row][col],
        Shape::T => T_STATES[rotation][row][col],
    }
}

/// In the catalogue a cell is empty or holds the id of its shape.
pub proof fn lemma_cells_hold_shape_id(shape: Shape, rotation: int, row: int, col: int)
    requires
        in_catalogue(shape, rotation, row, col),
    ensures
        state_cell(shape, rotation, row, col) == 0 || state_cell(shape, rotation, row, col)
            == shape.id(),
{
    reveal(state_cell);
}

/// The ordered rotation states of a shape, as matrices of cell values.
pub fn rotation_states(shape: Shape) -> (states: Vec<Vec<Vec<u8>>>)
    ensures
        states@.len() == states_of(shape).len(),
        forall|k: int| 0 <= k < states@.len() ==> (#[trigger] states@[k])@.len() == PIECE_SIZE,
        forall|k: int, r: int|
            0 <= k < states@.len() && 0 <= r < PIECE_SIZE ==> (#[trigger] states@[k]@[r])@
                == states_of(shape)[k][r],
{
    let count = shape.rotation_count();
    let mut states: Vec<Vec<Vec<u8>>> = Vec::new();
    let mut k: usize = 0;
    while k < count
        invariant
            k <= count,
            count == shape.rotation_count(),
            states@.len() == k,
            forall|i: int| 0 <= i < k ==> (#[trigger] states@[i])@.len() == PIECE_SIZE,
            forall|i: int, r: int|
                0 <= i < k && 0 <= r < PIECE_SIZE ==> (#[trigger] states@[i]@[r])@ == states_of(
                    shape,
                )[i][r],
        decreases count - k,
    {
        let mut matrix: Vec<Vec<u8>> = Vec::new();
        let mut r: usize = 0;
        while r < PIECE_SIZE
            invariant
                r <= PIECE_SIZE,
                k < count,
                count == shape.rotation_count(),
                matrix@.len() == r,
                forall|i: int|
                    0 <= i < r ==> (#[trigger] matrix@[i])@ == states_of(shape)[k as int][i],
            decreases PIECE_SIZE - r,
        {
            let mut row: Vec<u8> = Vec::new();
            let mut c: usize = 0;
            while c < PIECE_SIZE
                invariant
                    c <= PIECE_SIZE,
                    r < PIECE_SIZE,
                    k < count,
                    count == shape.rotation_count(),
                    row@.len() == c,
                    forall|j: int|
                        0 <= j < c ==> #[trigger] row@[j] == state_cell(
                            shape,
                            k as int,
                            r as int,
                            j,
                        ),
                decreases PIECE_SIZE - c,
            {
                row.push(catalogue_cell(shape, k, r, c));
                c += 1;
            }
            assert(row@ =~= states_of(shape)[k as int][r as int]);
            matrix.push(row);
            r += 1;
        }
        states.push(matrix);
        k += 1;
    }
    states
}

/// Draws a number with `rand::Rng::gen_range`, called on the generator that
/// `rand::thread_rng` hands out, for the half-open range `low..high`.
/// `gen_range` panics on an empty range, so `low` must be below `high`; its
/// result lies in the range. Which number of the range comes is not stated:
/// two calls may differ. `thread_rng` panics where the system cannot seed
/// the generator; no argument of this function brings that about.
#[verifier::external_body]
fn random_in(low: u8, high: u8) -> (drawn: u8)
    requires
        low < high,
    ensures
        low <= drawn < high,
{
    rand::thread_rng().gen_range(low..high)
}

/// The shape at position `index` of the catalogue, counted from 0 and going
/// round after the last shape.
pub fn shape_at(index: u8) -> (shape: Shape)
    ensures
        shape.id() == index % SHAPE_COUNT + 1,
{
    match index % SHAPE_COUNT {
        0 => Shape::I,
        1 => Shape::J,
        2 => Shape::L,
        3 => Shape::O,
        4 => Shape::S,
        5 => Shape::Z,
        _ => Shape::T,
    }
}

/// Picks the shape of the next piece at random, each of the seven shapes
/// being drawn with the same chance.
pub fn spawn_shape() -> (shape: Shape)
    ensures
        1 <= shape.id() <= SHAPE_COUNT,
{
    shape_at(random_in(0, SHAPE_COUNT))
}

/// A piece on its way down: its shape, which of the shape's rotation states
/// it is in, and the board coordinates of the top-left corner of its matrix.
#[derive(Clone, Copy, Debug, PartialEq, Eq, Structural)]
pub struct Tetrimino {
    pub shape: Shape,
    pub current_state: usize,
    pub x: isize,
    pub y: usize,
}

/// Whether the board cell at `col`, `row` exists and is empty.
pub open spec fn cell_free(grid: Seq<Seq<u8>>, col: int, row: int) -> bool {
    &&& 0 <= col < BOARD_WIDTH
    &&& 0 <= row < BOARD_HEIGHT
    &&& grid[row][col] == 0
}

/// Whether rotation state `rotation` of `shape`, with its matrix anchored at
/// column `x` and row `y`, has every occupied cell on an empty cell of the
/// grid.
pub open spec fn fits(grid: Seq<Seq<u8>>, shape: Shape, rotation: int, x: int, y: int) -> bool {
    forall|r: int, c: int|
        0 <= r < PIECE_SIZE && 0 <= c < PIECE_SIZE && #[trigger] state_cell(shape, rotation, r, c)
            != 0 ==> cell_free(grid, x + c, y + r)
}

/// A column at which the top row of the given rotation state is occupied.
spec fn top_column(shape: Shape, rotation: int) -> int {
    match shape {
        Shape::I => if rotation == 0 { 0 } else { 1 },
        Shape::J => if rotation == 3 { 1 } else { 0 },
        Shape::L => if rotation == 0 { 2 } else { 0 },
        Shape::O => 0,
        Shape::S => if rotation == 0 { 1 } else { 0 },
        Shape::Z => if rotation == 0 { 0 } else { 1 },
        Shape::T => if rotation == 0 || rotation == 3 { 1 } else { 0 },
    }
}

/// Every rotation state has an occupied cell in its top row, so a placement
/// that fits has its anchor row on the board and its anchor column less than
/// `PIECE_SIZE` columns left of the board and not right of it.
pub proof fn lemma_fitting_anchor(grid: Seq<Seq<u8>>, shape: Shape, rotation: int, x: int, y: int)
    requires
        0 <= rotation < shape.rotation_count(),
        fits(grid, shape, rotation, x, y),
    ensures
        0 <= y < BOARD_HEIGHT,
        -(PIECE_SIZE as int) < x < BOARD_WIDTH,
{
    reveal(state_cell);
    let c = top_column(shape, rotation);
    assert(0 <= c < PIECE_SIZE);
    assert(state_cell(shape, rotation, 0, c) != 0);
    assert(cell_free(grid, x + c, y + 0));
}

impl Tetrimino {
    /// The piece's invariant: its rotation index names a state of its shape.
    pub open spec fn wf(self) -> bool {
        self.current_state < self.shape.rotation_count()
    }

    /// The piece as it enters the board.
    pub open spec fn spawned(shape: Shape) -> Tetrimino {
        Tetrimino { shape, current_state: 0, x: SPAWN_X, y: SPAWN_Y }
    }

    /// Whether the piece, as it stands, fits the grid.
    pub open spec fn fits_here(self, grid: Seq<Seq<u8>>) -> bool {
        fits(grid, self.shape, self.current_state as int, self.x as int, self.y as int)
    }

    /// The rotation index that follows the current one, wrapping to 0.
    pub open spec fn next_state(self) -> usize {
        if self.current_state + 1 >= self.shape.rotation_count() {
            0
        } else {
            (self.current_state + 1) as usize
        }
    }

    /// The piece after an attempt to move it to `x`, `y`: moved if it fits
    /// there, else unchanged.
    pub open spec fn moved(self, grid: Seq<Seq<u8>>, x: isize, y: usize) -> Tetrimino {
        if fits(grid, self.shape, self.current_state as int, x as int, y as int) {
            Tetrimino { x, y, ..self }
        } else {
            self
        }
    }

    /// The piece after an attempt to rotate it where it stands: in its next
    /// state if that fits, else unchanged.
    pub open spec fn rotated(self, grid: Seq<Seq<u8>>) -> Tetrimino {
        if fits(grid, self.shape, self.next_state() as int, self.x as int, self.y as int) {
            Tetrimino { current_state: self.next_state(), ..self }
        } else {
            self
        }
    }

    /// A piece of the given shape at the spawn anchor, in its first state.
    pub fn new(shape: Shape) -> (piece: Tetrimino)
        ensures
            piece == Tetrimino::spawned(shape),
            piece.wf(),
    {
        Tetrimino { shape, current_state: 0, x: SPAWN_X, y: SPAWN_Y }
    }

    /// Tests a proposed placement: true exactly when every occupied cell of
    /// the given rotation state, anchored at `x`, `y`, lies on a column of
    /// the board, on a row of the board, and on an empty cell. Nothing is
    /// clamped: a proposal that leaves the board is rejected.
    pub fn test_position(&self, board: &Board, x: isize, y: usize, rotation: usize) -> (ok: bool)
        requires
            board.wf(),
            rotation < self.shape.rotation_count(),
        ensures
            ok == fits(board@, self.shape, rotation as int, x as int, y as int),
    {
        let mut r: usize = 0;
        while r < PIECE_SIZE
            invariant
                r <= PIECE_SIZE,
                board.wf(),
                rotation < self.shape.rotation_count(),
                forall|i: int, j: int|
                    0 <= i < r && 0 <= j < PIECE_SIZE && #[trigger] state_cell(
                        self.shape,
                        rotation as int,
                        i,
                        j,
                    ) != 0 ==> cell_free(board@, x + j, y + i),
            decreases PIECE_SIZE - r,
        {
            let mut c: usize = 0;
            while c < PIECE_SIZE
                invariant
                    c <= PIECE_SIZE,
                    r < PIECE_SIZE,
                    board.wf(),
                    rotation < self.shape.rotation_count(),
                    forall|j: int|
                        0 <= j < c && #[trigger] state_cell(
                            self.shape,
                            rotation as int,
                            r as int,
                            j,
                        ) != 0 ==> cell_free(board@, x + j, y + r),
                decreases PIECE_SIZE - c,
            {
                if catalogue_cell(self.shape, rotation, r, c) != 0 {
                    let on_board = y < BOARD_HEIGHT - r && 0 - (c as isize) <= x && x
                        < BOARD_WIDTH as isize - c as isize;
                    if !on_board {
                        return false;
                    }
                    if board.cell(y + r, (x + c as isize) as usize) != 0 {
                        return false;
                    }
                }
                c += 1;
            }
            r += 1;
        }
        true
    }

    /// Tests the piece where it stands, in the state it is in.
    pub fn test_current_position(&self, board: &Board) -> (ok: bool)
        requires
            board.wf(),
            self.wf(),
        ensures
            ok == self.fits_here(board@),
    {
        self.test_position(board, self.x, self.y, self.current_state)
    }

    /// Moves the piece to `new_x`, `new_y` if it fits there in its current
    /// state, and says whether it did. A rejected move leaves the piece as it
    /// was.
    pub fn change_position(&mut self, board: &Board, new_x: isize, new_y: usize) -> (moved: bool)
        requires
            board.wf(),
            old(self).wf(),
        ensures
            moved == fits(
                board@,
                old(self).shape,
                old(self).current_state as int,
                new_x as int,
                new_y as int,
            ),
            *final(self) == old(self).moved(board@, new_x, new_y),
            final(self).wf(),
    {
        if self.test_position(board, new_x, new_y, self.current_state) {
            self.x = new_x;
            self.y = new_y;
            true
        } else {
            false
        }
    }

    /// Turns the piece into its next rotation state if that state fits at
    /// the piece's anchor, which does not move. A rejected rotation leaves
    /// the piece as it was: no other anchor is tried.
    pub fn rotate(&mut self, board: &Board)
        requires
            board.wf(),
            old(self).wf(),
        ensures
            *final(self) == old(self).rotated(board@),
            final(self).wf(),
    {
        let mut next = self.current_state + 1;
        if next >= self.shape.rotation_count() {
            next = 0;
        }
        if self.test_position(board, self.x, self.y, next) {
            self.current_state = next;
        }
    }
}

/// A placement is rejected as soon as one occupied cell of the rotation
/// state falls left or right of the board's columns, above or below its
/// rows, or on a cell that is not empty.
pub proof fn lemma_fits_rejects(
    grid: Seq<Seq<u8>>,
    shape: Shape,
    rotation: int,
    x: int,
    y: int,
    row: int,
    col: int,
)
    requires
        0 <= row < PIECE_SIZE,
        0 <= col < PIECE_SIZE,
        state_cell(shape, rotation, row, col) != 0,
        !(0 <= x + col < BOARD_WIDTH) || !(0 <= y + row < BOARD_HEIGHT) || grid[y + row][x + col]
            != 0,
    ensures
        !fits(grid, shape, rotation, x, y),
{
    assert(!cell_free(grid, x + col, y + row));
}

/// A rotation whose next state does not fit at the anchor leaves the piece
/// unchanged. One that fits changes the rotation index alone. Either way
/// the shape and the anchor stay and the piece stays well formed.
pub proof fn lemma_rotation(piece: Tetrimino, grid: Seq<Seq<u8>>)
    requires
        piece.wf(),
    ensures
        !fits(grid, piece.shape, piece.next_state() as int, piece.x as int, piece.y as int)
            ==> piece.rotated(grid) == piece,
        fits(grid, piece.shape, piece.next_state() as int, piece.x as int, piece.y as int)
            ==> piece.rotated(grid).current_state == piece.next_state() && piece.rotated(
            grid,
        ).fits_here(grid),
        piece.rotated(grid).shape == piece.shape,
        piece.rotated(grid).x == piece.x,
        piece.rotated(grid).y == piece.y,
        piece.rotated(grid).wf(),
        piece.next_state() == (piece.current_state + 1) % (piece.shape.rotation_count() as int),
{
}

/// A move to a place where the piece does not fit leaves the piece
/// unchanged. One that fits changes the anchor alone.
pub proof fn lemma_move(piece: Tetrimino, grid: Seq<Seq<u8>>, x: isize, y: usize)
    ensures
        !fits(grid, piece.shape, piece.current_state as int, x as int, y as int) ==> piece.moved(
            grid,
            x,
            y,
        ) == piece,
        fits(grid, piece.shape, piece.current_state as int, x as int, y as int) ==> piece.moved(
            grid,
            x,
            y,
        ) == (Tetrimino { x, y, ..piece }) && piece.moved(grid, x, y).fits_here(grid),
        piece.moved(grid, x, y).shape == piece.shape,
        piece.moved(grid, x, y).current_state == piece.current_state,
{
}

/// A new piece of a shape drawn at random, at the spawn anchor.
pub fn create_new_tetrimino() -> (piece: Tetrimino)
    ensures
        piece == Tetrimino::spawned(piece.shape),
        piece.wf(),
{
    Tetrimino::new(spawn_shape())
}

} // verus!
