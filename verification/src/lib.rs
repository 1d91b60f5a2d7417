//! A falling-block puzzle engine: the board, the seven pieces and their
//! rotations, the session that drives them, and the high-score ledger.

pub mod board;
pub mod control;
pub mod game_board;
pub mod highscores;
pub mod tetrimino;
