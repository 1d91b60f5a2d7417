use tetris::board::{BOARD_HEIGHT, BOARD_WIDTH};
use tetris::control::{
    apply_gravity, handle_events, handle_intent, is_time_over, next_frame, run_frame, Frame,
    Intent,
};
use tetris::game_board::{
    level_for, level_interval, Phase, Tetris, LEVEL_TIMES, LINES_PER_LEVEL, MAX_LEVEL,
};
use tetris::tetrimino::{Shape, Tetrimino};

fn empty_rows() -> Vec<Vec<u8>> {
    vec![vec![0u8; BOARD_WIDTH]; BOARD_HEIGHT]
}

/// Spawns a piece, moves it `dx` columns (left if negative) and drops it.
fn drop_at(tetris: &mut Tetris, shape: Shape, dx: isize) {
    assert!(tetris.spawn(shape));
    for _ in 0..dx.abs() {
        tetris.shift(dx < 0);
    }
    assert!(tetris.hard_drop(0));
}

/// Fills and clears two rows with five squares.
fn clear_two_rows(tetris: &mut Tetris) {
    for dx in [-3isize, -1, 1, 3, 5] {
        drop_at(tetris, Shape::O, dx);
    }
}

#[test]
fn new_session_starts_empty() {
    let tetris = Tetris::new();
    assert_eq!(tetris.board().rows(), empty_rows());
    assert_eq!(tetris.current_piece(), None);
    assert_eq!(tetris.score(), 0);
    assert_eq!(tetris.nb_lines(), 0);
    assert_eq!(tetris.current_level(), 1);
    assert_eq!(tetris.last_tick(), 0);
    assert_eq!(tetris.phase(), Phase::Spawning);
}

#[test]
fn spawn_starts_falling() {
    let mut tetris = Tetris::new();
    assert!(tetris.spawn(Shape::S));
    assert_eq!(tetris.phase(), Phase::Falling);
    assert_eq!(tetris.current_piece(), Some(Tetrimino::new(Shape::S)));
    // a second spawn leaves the falling piece alone
    assert!(tetris.spawn(Shape::I));
    assert_eq!(tetris.current_piece(), Some(Tetrimino::new(Shape::S)));
}

#[test]
fn spawn_on_occupied_anchor_ends_the_game() {
    let mut tetris = Tetris::new();
    for _ in 0..8 {
        drop_at(&mut tetris, Shape::O, 0);
    }
    let board = tetris.board().rows();
    assert_eq!(board[0][3], 4);
    assert_eq!(tetris.phase(), Phase::Spawning);
    assert!(!Tetrimino::new(Shape::T).test_current_position(tetris.board()));
    assert!(!tetris.spawn(Shape::T));
    assert_eq!(tetris.phase(), Phase::GameOver);
    assert_eq!(tetris.current_piece(), None);
    assert_eq!(tetris.board().rows(), board);
    assert_eq!(tetris.score(), 0);
    assert_eq!(tetris.nb_lines(), 0);
}

#[test]
fn game_over_accepts_nothing_more() {
    let mut tetris = Tetris::new();
    for _ in 0..8 {
        drop_at(&mut tetris, Shape::O, 0);
    }
    assert!(!tetris.spawn(Shape::T));
    let board = tetris.board().rows();
    assert!(!tetris.spawn(Shape::I));
    assert!(!apply_gravity(&mut tetris, 1_000_000));
    let mut quit = false;
    let intents = vec![Intent::MoveLeft, Intent::Rotate, Intent::SoftDrop, Intent::HardDrop];
    assert!(!handle_events(&mut tetris, &mut quit, 5, &intents));
    assert!(!quit);
    assert_eq!(tetris.phase(), Phase::GameOver);
    assert_eq!(tetris.board().rows(), board);
    assert_eq!(tetris.last_tick(), 0);
    let frame = run_frame(&mut tetris, 2_000_000, &intents, Shape::I);
    assert_eq!(frame, Frame { quit: false, game_over: true });
    assert_eq!(tetris.board().rows(), board);
}

#[test]
fn make_permanent_writes_the_piece() {
    let mut tetris = Tetris::new();
    assert!(tetris.spawn(Shape::Z));
    tetris.make_permanent();
    assert_eq!(tetris.current_piece(), None);
    assert_eq!(tetris.phase(), Phase::Spawning);
    let mut expected = empty_rows();
    expected[0][3] = 6;
    expected[0][4] = 6;
    expected[1][4] = 6;
    expected[1][5] = 6;
    assert_eq!(tetris.board().rows(), expected);
    assert_eq!(tetris.score(), 0);
    assert_eq!(tetris.nb_lines(), 0);
}

#[test]
fn make_permanent_without_piece_changes_nothing() {
    let mut tetris = Tetris::new();
    tetris.make_permanent();
    assert_eq!(tetris.board().rows(), empty_rows());
    assert_eq!(tetris.score(), 0);
    assert_eq!(tetris.phase(), Phase::Spawning);
}

#[test]
fn clearing_one_row_scores_the_level() {
    let mut tetris = Tetris::new();
    drop_at(&mut tetris, Shape::I, -3);
    drop_at(&mut tetris, Shape::I, 1);
    assert_eq!(tetris.score(), 0);
    drop_at(&mut tetris, Shape::O, 5);
    assert_eq!(tetris.nb_lines(), 1);
    assert_eq!(tetris.score(), 1);
    assert_eq!(tetris.current_level(), 1);
    let mut expected = empty_rows();
    expected[15][8] = 4;
    expected[15][9] = 4;
    assert_eq!(tetris.board().rows(), expected);
}

#[test]
fn clearing_two_rows_at_once() {
    let mut tetris = Tetris::new();
    clear_two_rows(&mut tetris);
    assert_eq!(tetris.nb_lines(), 2);
    assert_eq!(tetris.score(), 2);
    assert_eq!(tetris.board().rows(), empty_rows());
}

#[test]
fn level_rises_with_lines_and_rows_score_more() {
    let mut tetris = Tetris::new();
    for _ in 0..9 {
        clear_two_rows(&mut tetris);
    }
    assert_eq!(tetris.nb_lines(), 18);
    assert_eq!(tetris.score(), 18);
    assert_eq!(tetris.current_level(), 1);
    clear_two_rows(&mut tetris);
    assert_eq!(tetris.nb_lines(), 20);
    assert_eq!(tetris.score(), 20);
    assert_eq!(tetris.current_level(), 2);
    clear_two_rows(&mut tetris);
    assert_eq!(tetris.nb_lines(), 22);
    assert_eq!(tetris.score(), 24);
    assert_eq!(tetris.current_level(), 2);
}

#[test]
fn level_for_lines_table() {
    assert_eq!(level_for(0), 1);
    assert_eq!(level_for(LINES_PER_LEVEL - 1), 1);
    assert_eq!(level_for(LINES_PER_LEVEL), 2);
    assert_eq!(level_for(39), 2);
    assert_eq!(level_for(40), 3);
    assert_eq!(level_for(179), 9);
    assert_eq!(level_for(180), MAX_LEVEL);
    assert_eq!(level_for(u32::MAX), MAX_LEVEL);
}

#[test]
fn level_intervals_shrink() {
    assert_eq!(level_interval(1), 1000);
    assert_eq!(level_interval(2), 850);
    assert_eq!(level_interval(10), 150);
    for level in 1..MAX_LEVEL {
        assert!(level_interval(level + 1) < level_interval(level));
        assert_eq!(level_interval(level), LEVEL_TIMES[(level - 1) as usize]);
    }
}

#[test]
fn time_is_over_strictly_after_the_interval() {
    let mut tetris = Tetris::new();
    assert!(!is_time_over(&tetris, 0));
    assert!(!is_time_over(&tetris, 1000));
    assert!(is_time_over(&tetris, 1001));
    tetris.reset_timer(500);
    assert_eq!(tetris.last_tick(), 500);
    assert!(!is_time_over(&tetris, 1500));
    assert!(is_time_over(&tetris, 1501));
    // a clock that went backwards
    assert!(!is_time_over(&tetris, 499));
    assert!(!is_time_over(&tetris, 0));
    tetris.reset_timer(u64::MAX);
    assert!(!is_time_over(&tetris, u64::MAX));
}

#[test]
fn gravity_moves_the_piece_down_when_time_is_over() {
    let mut tetris = Tetris::new();
    assert!(tetris.spawn(Shape::T));
    assert!(!apply_gravity(&mut tetris, 1000));
    assert_eq!(tetris.current_piece().unwrap().y, 0);
    assert_eq!(tetris.last_tick(), 0);
    assert!(!apply_gravity(&mut tetris, 1001));
    assert_eq!(tetris.current_piece().unwrap().y, 1);
    assert_eq!(tetris.last_tick(), 1001);
    assert!(!apply_gravity(&mut tetris, 2001));
    assert_eq!(tetris.current_piece().unwrap().y, 1);
    assert!(!apply_gravity(&mut tetris, 2002));
    assert_eq!(tetris.current_piece().unwrap().y, 2);
}

#[test]
fn gravity_locks_a_piece_that_cannot_fall() {
    let mut tetris = Tetris::new();
    assert!(tetris.spawn(Shape::O));
    let mut now = 0;
    for row in 1..=14 {
        now += 1001;
        assert!(!apply_gravity(&mut tetris, now));
        assert_eq!(tetris.current_piece().unwrap().y, row);
    }
    now += 1001;
    assert!(apply_gravity(&mut tetris, now));
    assert_eq!(tetris.current_piece(), None);
    assert_eq!(tetris.last_tick(), now);
    assert_eq!(tetris.board().cell(15, 3), 4);
    assert_eq!(tetris.board().cell(14, 4), 4);
}

#[test]
fn gravity_without_piece_restarts_the_timer() {
    let mut tetris = Tetris::new();
    assert!(!apply_gravity(&mut tetris, 900));
    assert_eq!(tetris.last_tick(), 0);
    assert!(!apply_gravity(&mut tetris, 1200));
    assert_eq!(tetris.last_tick(), 1200);
}

#[test]
fn lateral_moves_and_silent_rejections() {
    let mut tetris = Tetris::new();
    assert!(tetris.spawn(Shape::O));
    for expected in [2isize, 1, 0, 0, 0] {
        assert!(!handle_intent(&mut tetris, Intent::MoveLeft, 7));
        assert_eq!(tetris.current_piece().unwrap().x, expected);
    }
    for expected in [1isize, 2, 3, 4, 5, 6, 7, 8, 8] {
        assert!(!handle_intent(&mut tetris, Intent::MoveRight, 7));
        assert_eq!(tetris.current_piece().unwrap().x, expected);
    }
    assert_eq!(tetris.current_piece().unwrap().y, 0);
    assert_eq!(tetris.phase(), Phase::Falling);
    assert_eq!(tetris.last_tick(), 0);
    assert_eq!(tetris.board().rows(), empty_rows());
}

#[test]
fn rotate_intent_turns_or_does_nothing() {
    let mut tetris = Tetris::new();
    assert!(tetris.spawn(Shape::I));
    assert!(!handle_intent(&mut tetris, Intent::Rotate, 0));
    assert_eq!(tetris.current_piece().unwrap().current_state, 1);
    for _ in 0..6 {
        handle_intent(&mut tetris, Intent::MoveRight, 0);
    }
    assert_eq!(tetris.current_piece().unwrap().x, 8);
    let before = tetris.current_piece();
    assert!(!handle_intent(&mut tetris, Intent::Rotate, 0));
    assert_eq!(tetris.current_piece(), before);
}

#[test]
fn soft_drop_moves_down_and_restarts_the_timer() {
    let mut tetris = Tetris::new();
    assert!(tetris.spawn(Shape::L));
    assert!(!handle_intent(&mut tetris, Intent::SoftDrop, 40));
    assert_eq!(tetris.current_piece(), Some(Tetrimino { y: 1, ..Tetrimino::new(Shape::L) }));
    assert_eq!(tetris.last_tick(), 40);
}

#[test]
fn soft_drop_on_the_floor_locks() {
    let mut tetris = Tetris::new();
    assert!(tetris.spawn(Shape::I));
    for _ in 0..15 {
        assert!(!handle_intent(&mut tetris, Intent::SoftDrop, 1));
    }
    assert_eq!(tetris.current_piece().unwrap().y, 15);
    assert!(handle_intent(&mut tetris, Intent::SoftDrop, 77));
    assert_eq!(tetris.current_piece(), None);
    assert_eq!(tetris.phase(), Phase::Spawning);
    assert_eq!(tetris.last_tick(), 77);
    let mut expected = empty_rows();
    for c in 3..7 {
        expected[15][c] = 1;
    }
    assert_eq!(tetris.board().rows(), expected);
}

#[test]
fn hard_drop_lands_on_the_stack() {
    let mut tetris = Tetris::new();
    drop_at(&mut tetris, Shape::I, 0);
    assert!(tetris.spawn(Shape::T));
    assert!(handle_intent(&mut tetris, Intent::HardDrop, 9));
    assert_eq!(tetris.last_tick(), 9);
    let mut expected = empty_rows();
    for c in 3..7 {
        expected[15][c] = 1;
    }
    expected[13][4] = 7;
    expected[14][3] = 7;
    expected[14][4] = 7;
    expected[14][5] = 7;
    assert_eq!(tetris.board().rows(), expected);
    assert_eq!(tetris.current_piece(), None);
}

#[test]
fn intents_without_piece_do_nothing() {
    let mut tetris = Tetris::new();
    for intent in [
        Intent::MoveLeft,
        Intent::MoveRight,
        Intent::Rotate,
        Intent::SoftDrop,
        Intent::HardDrop,
        Intent::Idle,
        Intent::Quit,
    ] {
        assert!(!handle_intent(&mut tetris, intent, 123));
    }
    assert_eq!(tetris.phase(), Phase::Spawning);
    assert_eq!(tetris.last_tick(), 0);
    assert_eq!(tetris.board().rows(), empty_rows());
}

#[test]
fn events_are_taken_in_order() {
    let mut tetris = Tetris::new();
    assert!(tetris.spawn(Shape::O));
    let mut quit = false;
    let intents =
        vec![Intent::MoveLeft, Intent::MoveLeft, Intent::Idle, Intent::SoftDrop, Intent::MoveRight];
    assert!(!handle_events(&mut tetris, &mut quit, 10, &intents));
    assert!(!quit);
    assert_eq!(tetris.current_piece(), Some(Tetrimino { shape: Shape::O, current_state: 0, x: 2, y: 1 }));
    assert_eq!(tetris.last_tick(), 10);
}

#[test]
fn quit_ends_the_turn() {
    let mut tetris = Tetris::new();
    assert!(tetris.spawn(Shape::O));
    let mut quit = false;
    let intents = vec![Intent::MoveLeft, Intent::Quit, Intent::MoveLeft, Intent::HardDrop];
    assert!(!handle_events(&mut tetris, &mut quit, 10, &intents));
    assert!(quit);
    assert_eq!(tetris.current_piece(), Some(Tetrimino { shape: Shape::O, current_state: 0, x: 2, y: 0 }));
    // the flag stays set
    assert!(!handle_events(&mut tetris, &mut quit, 11, &Vec::new()));
    assert!(quit);
}

#[test]
fn events_after_a_lock_find_no_piece() {
    let mut tetris = Tetris::new();
    assert!(tetris.spawn(Shape::O));
    let mut quit = false;
    let intents = vec![Intent::HardDrop, Intent::MoveLeft, Intent::SoftDrop];
    assert!(handle_events(&mut tetris, &mut quit, 3, &intents));
    assert_eq!(tetris.current_piece(), None);
    assert_eq!(tetris.last_tick(), 3);
    let mut expected = empty_rows();
    for (r, c) in [(14, 3), (14, 4), (15, 3), (15, 4)] {
        expected[r][c] = 4;
    }
    assert_eq!(tetris.board().rows(), expected);
}

#[test]
fn frame_runs_gravity_spawn_and_events() {
    let mut tetris = Tetris::new();
    let frame = run_frame(&mut tetris, 0, &vec![Intent::MoveRight], Shape::J);
    assert_eq!(frame, Frame { quit: false, game_over: false });
    assert_eq!(tetris.current_piece(), Some(Tetrimino { x: 4, ..Tetrimino::new(Shape::J) }));
    // gravity acts before the events; the shape is not used while a piece falls
    let frame = run_frame(&mut tetris, 1001, &vec![Intent::MoveRight, Intent::Quit], Shape::I);
    assert_eq!(frame, Frame { quit: true, game_over: false });
    assert_eq!(
        tetris.current_piece(),
        Some(Tetrimino { shape: Shape::J, current_state: 0, x: 5, y: 1 })
    );
    assert_eq!(tetris.last_tick(), 1001);
}

#[test]
fn frame_ends_the_game_when_spawn_is_blocked() {
    let mut tetris = Tetris::new();
    for _ in 0..8 {
        drop_at(&mut tetris, Shape::O, 0);
    }
    let board = tetris.board().rows();
    let frame = run_frame(&mut tetris, 10, &vec![Intent::Quit], Shape::L);
    assert_eq!(frame, Frame { quit: false, game_over: true });
    assert_eq!(tetris.phase(), Phase::GameOver);
    assert_eq!(tetris.board().rows(), board);
}

#[test]
fn next_frame_spawns_a_random_piece() {
    let mut tetris = Tetris::new();
    let frame = next_frame(&mut tetris, 0, &Vec::new());
    assert_eq!(frame, Frame { quit: false, game_over: false });
    let piece = tetris.current_piece().unwrap();
    assert_eq!(piece, Tetrimino::new(piece.shape));
    let frame = next_frame(&mut tetris, 1, &vec![Intent::SoftDrop]);
    assert_eq!(frame, Frame { quit: false, game_over: false });
    assert_eq!(tetris.current_piece(), Some(Tetrimino { y: 1, ..piece }));
}

#[test]
fn next_frame_plays_until_the_game_ends() {
    let mut tetris = Tetris::new();
    let mut frames = 0;
    loop {
        let frame = next_frame(&mut tetris, frames, &vec![Intent::HardDrop]);
        frames += 1;
        assert!(!frame.quit);
        if frame.game_over {
            break;
        }
        assert!(frames < 1000);
    }
    assert_eq!(tetris.phase(), Phase::GameOver);
    assert_eq!(tetris.current_piece(), None);
}
