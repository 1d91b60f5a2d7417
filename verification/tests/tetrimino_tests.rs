use tetris::board::{Board, BOARD_HEIGHT, BOARD_WIDTH};
use tetris::tetrimino::{
    catalogue_cell, create_new_tetrimino, rotation_states, shape_at, spawn_shape, Shape,
    Tetrimino, SPAWN_X, SPAWN_Y,
};

const SHAPES: [Shape; 7] =
    [Shape::I, Shape::J, Shape::L, Shape::O, Shape::S, Shape::Z, Shape::T];

fn board_with(cells: &[(usize, usize, u8)]) -> Board {
    let mut rows = vec![vec![0u8; BOARD_WIDTH]; BOARD_HEIGHT];
    for &(r, c, v) in cells {
        rows[r][c] = v;
    }
    Board::from_rows(rows).unwrap()
}

#[test]
fn shape_ids_run_from_one_to_seven() {
    for (i, shape) in SHAPES.iter().enumerate() {
        assert_eq!(shape.id() as usize, i + 1);
        assert_eq!(Shape::from_id(shape.id()), Some(*shape));
        assert_eq!(shape_at(i as u8), *shape);
    }
    assert_eq!(shape_at(7), Shape::I);
    assert_eq!(shape_at(13), Shape::T);
    assert_eq!(shape_at(255), Shape::O);
    assert_eq!(Shape::from_id(0), None);
    assert_eq!(Shape::from_id(8), None);
    assert_eq!(Shape::from_id(255), None);
}

#[test]
fn rotation_counts() {
    assert_eq!(Shape::I.rotation_count(), 2);
    assert_eq!(Shape::J.rotation_count(), 4);
    assert_eq!(Shape::L.rotation_count(), 4);
    assert_eq!(Shape::O.rotation_count(), 1);
    assert_eq!(Shape::S.rotation_count(), 2);
    assert_eq!(Shape::Z.rotation_count(), 2);
    assert_eq!(Shape::T.rotation_count(), 4);
}

#[test]
fn rotation_states_match_the_catalogue() {
    for shape in SHAPES {
        let states = rotation_states(shape);
        assert_eq!(states.len(), shape.rotation_count());
        for (k, state) in states.iter().enumerate() {
            assert_eq!(state.len(), 4);
            let mut occupied = 0;
            for (r, row) in state.iter().enumerate() {
                assert_eq!(row.len(), 4);
                for (c, &value) in row.iter().enumerate() {
                    assert_eq!(value, catalogue_cell(shape, k, r, c));
                    assert!(value == 0 || value == shape.id());
                    if value != 0 {
                        occupied += 1;
                    }
                }
            }
            assert_eq!(occupied, 4);
        }
    }
}

#[test]
fn rotation_states_of_t() {
    let states = rotation_states(Shape::T);
    assert_eq!(
        states[0],
        vec![vec![0, 7, 0, 0], vec![7, 7, 7, 0], vec![0, 0, 0, 0], vec![0, 0, 0, 0]]
    );
    assert_eq!(
        states[1],
        vec![vec![7, 0, 0, 0], vec![7, 7, 0, 0], vec![7, 0, 0, 0], vec![0, 0, 0, 0]]
    );
}

#[test]
fn rotation_states_of_i_and_o() {
    assert_eq!(
        rotation_states(Shape::I),
        vec![
            vec![vec![1, 1, 1, 1], vec![0, 0, 0, 0], vec![0, 0, 0, 0], vec![0, 0, 0, 0]],
            vec![vec![0, 1, 0, 0], vec![0, 1, 0, 0], vec![0, 1, 0, 0], vec![0, 1, 0, 0]],
        ]
    );
    assert_eq!(
        rotation_states(Shape::O),
        vec![vec![vec![4, 4, 0, 0], vec![4, 4, 0, 0], vec![0, 0, 0, 0], vec![0, 0, 0, 0]]]
    );
}

#[test]
fn new_piece_stands_at_spawn_anchor() {
    for shape in SHAPES {
        let piece = Tetrimino::new(shape);
        assert_eq!(piece, Tetrimino { shape, current_state: 0, x: SPAWN_X, y: SPAWN_Y });
        assert!(piece.test_current_position(&Board::new()));
    }
}

#[test]
fn spawn_shape_draws_every_shape() {
    let mut seen = [false; 7];
    for _ in 0..5000 {
        let shape = spawn_shape();
        let id = shape.id();
        assert!((1..=7).contains(&id));
        seen[(id - 1) as usize] = true;
    }
    assert_eq!(seen, [true; 7]);
}

#[test]
fn create_new_tetrimino_stands_at_spawn_anchor() {
    for _ in 0..50 {
        let piece = create_new_tetrimino();
        assert_eq!(piece, Tetrimino::new(piece.shape));
    }
}

#[test]
fn test_position_accepts_free_placement() {
    let board = Board::new();
    let piece = Tetrimino::new(Shape::I);
    assert!(piece.test_position(&board, 0, 0, 0));
    assert!(piece.test_position(&board, 6, 15, 0));
    assert!(piece.test_position(&board, -1, 12, 1));
    assert!(piece.test_position(&board, 8, 12, 1));
}

#[test]
fn test_position_rejects_columns_off_the_board() {
    let board = Board::new();
    let piece = Tetrimino::new(Shape::I);
    assert!(!piece.test_position(&board, -1, 0, 0));
    assert!(!piece.test_position(&board, 7, 0, 0));
    assert!(!piece.test_position(&board, -2, 0, 1));
    assert!(!piece.test_position(&board, 9, 0, 1));
    assert!(!piece.test_position(&board, isize::MIN, 0, 0));
    assert!(!piece.test_position(&board, isize::MAX, 0, 0));
}

#[test]
fn test_position_rejects_rows_off_the_board() {
    let board = Board::new();
    let piece = Tetrimino::new(Shape::I);
    assert!(!piece.test_position(&board, 0, 16, 0));
    assert!(!piece.test_position(&board, 0, 13, 1));
    assert!(!piece.test_position(&board, 0, usize::MAX, 0));
    let square = Tetrimino::new(Shape::O);
    assert!(square.test_position(&board, 8, 14, 0));
    assert!(!square.test_position(&board, 8, 15, 0));
}

#[test]
fn test_position_rejects_overlap() {
    let board = board_with(&[(10, 5, 2)]);
    let piece = Tetrimino::new(Shape::O);
    assert!(!piece.test_position(&board, 5, 10, 0));
    assert!(!piece.test_position(&board, 4, 9, 0));
    assert!(piece.test_position(&board, 6, 10, 0));
    assert!(piece.test_position(&board, 3, 10, 0));
    // an empty cell of the matrix may lie over a settled cell
    let tee = Tetrimino::new(Shape::T);
    assert!(tee.test_position(&board, 5, 10, 0));
    assert!(!tee.test_position(&board, 4, 10, 0));
}

#[test]
fn test_current_position_uses_own_anchor_and_state() {
    let board = board_with(&[(0, 4, 1)]);
    let mut piece = Tetrimino::new(Shape::I);
    assert!(!piece.test_current_position(&board));
    piece.y = 1;
    assert!(piece.test_current_position(&board));
    piece.y = 0;
    piece.current_state = 1;
    assert!(!piece.test_current_position(&board));
    piece.x = 4;
    assert!(piece.test_current_position(&board));
}

#[test]
fn change_position_moves_when_free() {
    let board = Board::new();
    let mut piece = Tetrimino::new(Shape::L);
    assert!(piece.change_position(&board, 0, 7));
    assert_eq!(piece, Tetrimino { shape: Shape::L, current_state: 0, x: 0, y: 7 });
}

#[test]
fn change_position_rejects_and_keeps_piece() {
    let board = board_with(&[(8, 0, 6)]);
    let mut piece = Tetrimino { shape: Shape::L, current_state: 0, x: 0, y: 6 };
    let before = piece;
    assert!(!piece.change_position(&board, 0, 7));
    assert_eq!(piece, before);
    assert!(!piece.change_position(&board, -1, 6));
    assert_eq!(piece, before);
    assert!(!piece.change_position(&board, 8, 6));
    assert_eq!(piece, before);
    assert!(!piece.change_position(&board, 0, 15));
    assert_eq!(piece, before);
}

#[test]
fn rotate_advances_and_wraps() {
    let board = Board::new();
    let mut piece = Tetrimino { shape: Shape::J, current_state: 0, x: 3, y: 5 };
    for expected in [1usize, 2, 3, 0, 1] {
        piece.rotate(&board);
        assert_eq!(piece.current_state, expected);
        assert_eq!((piece.x, piece.y), (3, 5));
    }
    let mut square = Tetrimino::new(Shape::O);
    square.rotate(&board);
    assert_eq!(square, Tetrimino::new(Shape::O));
}

#[test]
fn rotate_rejected_at_the_wall_changes_nothing() {
    let board = Board::new();
    let mut piece = Tetrimino { shape: Shape::I, current_state: 1, x: 8, y: 3 };
    let before = piece;
    piece.rotate(&board);
    assert_eq!(piece, before);
}

#[test]
fn rotate_rejected_by_settled_cell_changes_nothing() {
    let board = board_with(&[(5, 5, 3)]);
    let mut piece = Tetrimino { shape: Shape::T, current_state: 0, x: 3, y: 4 };
    let before = piece;
    // state 1 would occupy (4,3), (5,3), (5,4), (6,3): free
    piece.rotate(&board);
    assert_eq!(piece.current_state, 1);
    // state 2 would occupy row 4 columns 3..5 and (5,4): free
    piece.rotate(&board);
    assert_eq!(piece.current_state, 2);
    let blocked = board_with(&[(4, 5, 3)]);
    let mut piece = Tetrimino { current_state: 1, ..before };
    let kept = piece;
    piece.rotate(&blocked);
    assert_eq!(piece, kept);
}
