//! The game session: the board, the falling piece, score, lines and level,
//! and the transitions between spawning, falling and the end of the game.

use crate::board::{cleared_grid, complete_count, grid_with_piece, valid_grid, Board, BOARD_HEIGHT};
use crate::tetrimino::{fits, lemma_fitting_anchor, Shape, Tetrimino};
use vstd::prelude::*;

verus! {

/// The highest level.
pub const MAX_LEVEL: u32 = 10;

/// Cleared lines it takes to rise one level.
pub const LINES_PER_LEVEL: u32 = 20;

/// Milliseconds between two forced downward moves, for levels 1 to
/// `MAX_LEVEL`.
pub const LEVEL_TIMES: [u32; 10] = [1000, 850, 700, 600, 500, 400, 300, 250, 200, 150];

/// The level reached with the given number of cleared lines: one level for
/// each `LINES_PER_LEVEL` lines, starting at 1 and ending at `MAX_LEVEL`.
pub open spec fn level_for_lines(lines: u32) -> u32 {
    if lines / LINES_PER_LEVEL >= MAX_LEVEL - 1 {
        MAX_LEVEL
    } else {
        (lines / LINES_PER_LEVEL + 1) as u32
    }
}

/// The gravity interval of a level, in milliseconds.
pub open spec fn level_time(level: u32) -> u32 {
    LEVEL_TIMES[level - 1]
}

/// `a + b`, held at the largest `u32` when the sum does not fit.
pub open spec fn capped_sum(a: u32, b: int) -> u32 {
    if a + b > u32::MAX {
        u32::MAX
    } else {
        (a + b) as u32
    }
}

/// Where a session stands.
#[derive(Clone, Copy, Debug, PartialEq, Eq, Structural)]
pub enum Phase {
    /// No piece is falling: the next one is to be spawned.
    Spawning,
    /// A piece is falling.
    Falling,
    /// A piece found no room to spawn: the game has ended.
    GameOver,
}

/// What a session is, as a mathematical value.
pub struct Session {
    /// The settled cells.
    pub board: Seq<Seq<u8>>,
    /// The falling piece, if there is one.
    pub piece: Option<Tetrimino>,
    /// The level, from 1.
    pub level: u32,
    /// The score.
    pub score: u32,
    /// The number of lines cleared.
    pub lines: u32,
    /// Whether the game has ended.
    pub over: bool,
    /// When gravity last acted, in milliseconds of the caller's clock.
    pub last_tick: u64,
}

impl Session {
    /// The session's invariant: a valid board, a level that is the one its
    /// lines give, a falling piece that fits the board, and no falling piece
    /// once the game has ended.
    pub open spec fn wf(self) -> bool {
        &&& valid_grid(self.board)
        &&& self.level == level_for_lines(self.lines)
        &&& (self.piece matches Some(p) ==> p.wf() && p.fits_here(self.board))
        &&& (self.over ==> self.piece is None)
    }

    /// The phase the session is in.
    pub open spec fn phase(self) -> Phase {
        if self.over {
            Phase::GameOver
        } else if self.piece is Some {
            Phase::Falling
        } else {
            Phase::Spawning
        }
    }

    /// The session at the start of a game.
    pub open spec fn initial() -> Session {
        Session {
            board: crate::board::empty_grid(),
            piece: None,
            level: 1,
            score: 0,
            lines: 0,
            over: false,
            last_tick: 0,
        }
    }

    /// The counters after `cleared` rows were cleared at once: each row is
    /// worth as many points as the level at which it was cleared, the lines
    /// add up, and the level is the one that the new number of lines gives.
    pub open spec fn scored(self, cleared: nat) -> Session {
        let lines = capped_sum(self.lines, cleared as int);
        Session {
            score: capped_sum(self.score, cleared * self.level),
            lines,
            level: level_for_lines(lines),
            ..self
        }
    }

    /// The session after the complete rows of its board are cleared and
    /// counted.
    pub open spec fn checked(self) -> Session {
        Session { board: cleared_grid(self.board), ..self.scored(complete_count(self.board)) }
    }

    /// The session after the falling piece, if any, is written into the
    /// board, the complete rows are cleared and counted, and the piece is
    /// let go.
    pub open spec fn locked(self) -> Session {
        match self.piece {
            Some(p) => Session {
                board: grid_with_piece(self.board, p),
                piece: None,
                ..self
            }.checked(),
            None => self.checked(),
        }
    }

    /// The session after an attempt to spawn a piece of the given shape.
    /// Only a session that is spawning changes: the piece starts to fall if
    /// it fits at the spawn anchor, else the game ends, the board untouched.
    pub open spec fn spawned(self, shape: Shape) -> Session {
        if self.phase() != Phase::Spawning {
            self
        } else if Tetrimino::spawned(shape).fits_here(self.board) {
            Session { piece: Some(Tetrimino::spawned(shape)), ..self }
        } else {
            Session { over: true, ..self }
        }
    }

    /// The session after an attempt to move the falling piece `dx` columns
    /// to the right. A rejected move changes nothing.
    pub open spec fn shifted(self, dx: int) -> Session {
        match self.piece {
            Some(p) => if fits(self.board, p.shape, p.current_state as int, p.x + dx, p.y as int) {
                Session { piece: Some(Tetrimino { x: (p.x + dx) as isize, ..p }), ..self }
            } else {
                self
            },
            None => self,
        }
    }

    /// The session after an attempt to rotate the falling piece. A rejected
    /// rotation changes nothing.
    pub open spec fn turned(self) -> Session {
        match self.piece {
            Some(p) => Session { piece: Some(p.rotated(self.board)), ..self },
            None => self,
        }
    }

    /// Whether the falling piece can go one row down.
    pub open spec fn can_fall(self) -> bool {
        self.piece matches Some(p) && fits(
            self.board,
            p.shape,
            p.current_state as int,
            p.x as int,
            p.y + 1,
        )
    }

    /// The session with its falling piece one row lower.
    pub open spec fn lowered(self) -> Session {
        match self.piece {
            Some(p) => Session { piece: Some(Tetrimino { y: (p.y + 1) as usize, ..p }), ..self },
            None => self,
        }
    }

    /// The session after one downward step at time `now`: the falling piece
    /// goes one row down if it can, else it is locked. Either way gravity
    /// starts counting again from `now`. Without a falling piece nothing
    /// changes.
    pub open spec fn stepped_down(self, now: u64) -> Session {
        if self.piece is None {
            self
        } else if self.can_fall() {
            Session { last_tick: now, ..self.lowered() }
        } else {
            Session { last_tick: now, ..self.locked() }
        }
    }

    /// The session with its falling piece lowered as far as it goes. A
    /// piece that can fall stands above the last row, so the test of its row
    /// never decides: it shows that the lowering ends.
    pub open spec fn landed(self) -> Session
        decreases
            match self.piece {
                Some(p) => BOARD_HEIGHT - p.y,
                None => 0,
            },
    {
        match self.piece {
            Some(p) => if p.y < BOARD_HEIGHT && self.can_fall() {
                self.lowered().landed()
            } else {
                self
            },
            None => self,
        }
    }

    /// The session after a hard drop at time `now`: the falling piece goes
    /// down as far as it can and is locked there, and gravity starts
    /// counting again from `now`. Without a falling piece nothing changes.
    pub open spec fn dropped(self, now: u64) -> Session {
        if self.piece is None {
            self
        } else {
            Session { last_tick: now, ..self.landed().locked() }
        }
    }
}

/// The level never falls as lines add up.
pub proof fn lemma_level_for_lines_grows(fewer: u32, more: u32)
    requires
        fewer <= more,
    ensures
        1 <= level_for_lines(fewer) <= level_for_lines(more) <= MAX_LEVEL,
{
    assert(fewer / LINES_PER_LEVEL <= more / LINES_PER_LEVEL) by (nonlinear_arith)
        requires
            fewer <= more,
            LINES_PER_LEVEL == 20,
    ;
}

/// The gravity interval shrinks from each level to the next.
pub proof fn lemma_level_time_shrinks(lower: u32, higher: u32)
    requires
        1 <= lower < higher <= MAX_LEVEL,
    ensures
        level_time(higher) < level_time(lower),
{
}

/// Counting cleared rows keeps a session well formed. Lines add up, the
/// level never falls, the score never falls, and a clear of one row or more
/// raises the score unless it stands at its cap.
pub proof fn lemma_scored(session: Session, cleared: nat)
    requires
        session.wf(),
    ensures
        session.scored(cleared).wf(),
        session.scored(cleared).lines >= session.lines,
        session.scored(cleared).lines == session.lines + cleared || session.scored(cleared).lines
            == u32::MAX,
        session.scored(cleared).level >= session.level,
        session.scored(cleared).score >= session.score,
        cleared >= 1 && session.score < u32::MAX ==> session.scored(cleared).score > session.score,
        cleared == 0 ==> session.scored(cleared) == session,
{
    lemma_level_for_lines_grows(session.lines, session.scored(cleared).lines);
    assert(cleared * session.level >= cleared) by (nonlinear_arith)
        requires
            session.level >= 1,
    ;
    assert(cleared == 0 ==> cleared * session.level == 0) by (nonlinear_arith);
}

/// Locking keeps a session well formed and leaves no falling piece. The
/// board takes the piece and loses its complete rows; the level never
/// falls.
pub proof fn lemma_locked(session: Session)
    requires
        session.wf(),
    ensures
        session.locked().wf(),
        session.locked().piece is None,
        session.locked().over == session.over,
        session.locked().last_tick == session.last_tick,
        session.locked().level >= session.level,
        session.locked().score >= session.score,
        session.locked().lines >= session.lines,
        complete_count(session.locked().board) == 0,
{
    match session.piece {
        Some(p) => {
            crate::board::lemma_grid_with_piece_valid(session.board, p);
            let placed = Session {
                board: grid_with_piece(session.board, p),
                piece: None,
                ..session
            };
            lemma_scored(placed, complete_count(placed.board));
            crate::board::lemma_cleared_grid_valid(placed.board);
            crate::board::lemma_cleared_has_no_complete_row(placed.board);
        },
        None => {
            lemma_scored(session, complete_count(session.board));
            crate::board::lemma_cleared_grid_valid(session.board);
            crate::board::lemma_cleared_has_no_complete_row(session.board);
        },
    }
}

/// A spawn on an anchor that is taken ends the game and leaves board, score,
/// lines and level as they were. A spawn that finds room starts the fall.
/// A session that is not spawning does not change.
pub proof fn lemma_spawned(session: Session, shape: Shape)
    requires
        session.wf(),
    ensures
        session.spawned(shape).wf(),
        session.spawned(shape).board == session.board,
        session.spawned(shape).score == session.score,
        session.spawned(shape).lines == session.lines,
        session.spawned(shape).level == session.level,
        session.spawned(shape).phase() != Phase::Spawning,
        session.phase() == Phase::Spawning && !Tetrimino::spawned(shape).fits_here(session.board)
            ==> session.spawned(shape).phase() == Phase::GameOver,
        session.phase() == Phase::Spawning && Tetrimino::spawned(shape).fits_here(session.board)
            ==> session.spawned(shape).piece == Some(Tetrimino::spawned(shape)),
        session.phase() != Phase::Spawning ==> session.spawned(shape) == session,
{
}

/// Where a hard drop lands: the piece keeps its shape, its state and its
/// column, fits at every row on its way, and cannot go lower.
pub proof fn lemma_landed(session: Session)
    requires
        session.wf(),
        session.piece is Some,
    ensures
        session.landed().wf(),
        session.landed().piece is Some,
        !session.landed().can_fall(),
        session.landed() == (Session { piece: session.landed().piece, ..session }),
        session.landed().piece->0 == (Tetrimino {
            y: session.landed().piece->0.y,
            ..session.piece->0
        }),
        session.landed().piece->0.y >= session.piece->0.y,
        forall|y: int|
            session.piece->0.y <= y <= session.landed().piece->0.y ==> #[trigger] fits(
                session.board,
                session.piece->0.shape,
                session.piece->0.current_state as int,
                session.piece->0.x as int,
                y,
            ),
    decreases BOARD_HEIGHT - session.piece->0.y,
{
    let p = session.piece->0;
    lemma_fitting_anchor(session.board, p.shape, p.current_state as int, p.x as int, p.y as int);
    if session.can_fall() {
        lemma_fitting_anchor(session.board, p.shape, p.current_state as int, p.x as int, p.y + 1);
        lemma_landed(session.lowered());
    }
}

/// A game session.
pub struct Tetris {
    game_map: Board,
    current_level: u32,
    score: u32,
    nb_lines: u32,
    current_piece: Option<Tetrimino>,
    game_over: bool,
    last_tick: u64,
}

impl View for Tetris {
    type V = Session;

    closed spec fn view(&self) -> Session {
        Session {
            board: self.game_map@,
            piece: self.current_piece,
            level: self.current_level,
            score: self.score,
            lines: self.nb_lines,
            over: self.game_over,
            last_tick: self.last_tick,
        }
    }
}

/// The level reached with the given number of cleared lines.
pub fn level_for(lines: u32) -> (level: u32)
    ensures
        level == level_for_lines(lines),
        1 <= level <= MAX_LEVEL,
{
    let steps = lines / LINES_PER_LEVEL;
    if steps >= MAX_LEVEL - 1 {
        MAX_LEVEL
    } else {
        steps + 1
    }
}

/// The gravity interval of a level, in milliseconds.
pub fn level_interval(level: u32) -> (millis: u32)
    requires
        1 <= level <= MAX_LEVEL,
    ensures
        millis == level_time(level),
{
    LEVEL_TIMES[(level - 1) as usize]
}

impl Tetris {
    /// The session's invariant.
    pub open spec fn wf(&self) -> bool {
        self@.wf()
    }

    /// A session at the start of a game: an empty board, no piece, level 1,
    /// no score and no lines.
    pub fn new() -> (tetris: Tetris)
        ensures
            tetris.wf(),
            tetris@ == Session::initial(),
    {
        Tetris {
            game_map: Board::new(),
            current_level: 1,
            score: 0,
            nb_lines: 0,
            current_piece: None,
            game_over: false,
            last_tick: 0,
        }
    }

    /// The board.
    pub fn board(&self) -> (board: &Board)
        ensures
            board@ == self@.board,
    {
        &self.game_map
    }

    /// The falling piece, if there is one.
    pub fn current_piece(&self) -> (piece: Option<Tetrimino>)
        ensures
            piece == self@.piece,
    {
        self.current_piece
    }

    /// The score.
    pub fn score(&self) -> (score: u32)
        ensures
            score == self@.score,
    {
        self.score
    }

    /// The number of lines cleared.
    pub fn nb_lines(&self) -> (lines: u32)
        ensures
            lines == self@.lines,
    {
        self.nb_lines
    }

    /// The level.
    pub fn current_level(&self) -> (level: u32)
        ensures
            level == self@.level,
    {
        self.current_level
    }

    /// When gravity last acted.
    pub fn last_tick(&self) -> (millis: u64)
        ensures
            millis == self@.last_tick,
    {
        self.last_tick
    }

    /// The phase the session is in.
    pub fn phase(&self) -> (phase: Phase)
        ensures
            phase == self@.phase(),
    {
        if self.game_over {
            Phase::GameOver
        } else if self.current_piece.is_some() {
            Phase::Falling
        } else {
            Phase::Spawning
        }
    }

    /// Takes the time from which gravity counts.
    pub fn reset_timer(&mut self, now: u64)
        ensures
            final(self)@ == (Session { last_tick: now, ..old(self)@ }),
    {
        self.last_tick = now;
    }

    /// Clears the complete rows of the board and counts them into score,
    /// lines and level.
    fn check_lines(&mut self)
        requires
            old(self).wf(),
            old(self)@.piece is None,
        ensures
            final(self).wf(),
            final(self)@ == old(self)@.checked(),
    {
        let cleared = self.game_map.clear_completed_rows();
        proof {
            self.game_map@.lemma_filter_len(|row: Seq<u8>| !crate::board::row_complete(row));
            old(self)@.board.lemma_filter_len(|row: Seq<u8>| !crate::board::row_complete(row));
        }
        let cleared: u32 = cleared as u32;
        assert(cleared * self.current_level <= 160) by (nonlinear_arith)
            requires
                cleared <= 16,
                self.current_level <= 10,
        ;
        self.score = self.score.saturating_add(cleared * self.current_level);
        self.nb_lines = self.nb_lines.saturating_add(cleared);
        self.current_level = level_for(self.nb_lines);
    }

    /// Locks the falling piece: writes it into the board, clears the
    /// complete rows, counts them into score, lines and level, and lets the
    /// piece go. Without a falling piece only the rows are cleared and
    /// counted.
    pub fn make_permanent(&mut self)
        requires
            old(self).wf(),
        ensures
            final(self).wf(),
            final(self)@ == old(self)@.locked(),
    {
        if let Some(piece) = self.current_piece {
            self.game_map.apply_piece(&piece);
            self.current_piece = None;
        }
        self.check_lines();
    }

    /// Spawns a piece of the given shape at the spawn anchor, and says
    /// whether a piece is falling afterwards. Where the piece finds no room
    /// the game ends and the board stays as it is.
    pub fn spawn(&mut self, shape: Shape) -> (falling: bool)
        requires
            old(self).wf(),
        ensures
            final(self).wf(),
            final(self)@ == old(self)@.spawned(shape),
            falling == (final(self)@.phase() == Phase::Falling),
    {
        if self.game_over {
            return false;
        }
        if self.current_piece.is_some() {
            return true;
        }
        let piece = Tetrimino::new(shape);
        if piece.test_current_position(&self.game_map) {
            self.current_piece = Some(piece);
            true
        } else {
            self.game_over = true;
            false
        }
    }

    /// Tries to move the falling piece one column to the left, if `left`,
    /// or to the right. A rejected move changes nothing.
    pub fn shift(&mut self, left: bool)
        requires
            old(self).wf(),
        ensures
            final(self).wf(),
            final(self)@ == old(self)@.shifted(if left { -1int } else { 1int }),
    {
        if let Some(mut piece) = self.current_piece {
            proof {
                lemma_fitting_anchor(
                    self@.board,
                    piece.shape,
                    piece.current_state as int,
                    piece.x as int,
                    piece.y as int,
                );
            }
            let x = if left { piece.x - 1 } else { piece.x + 1 };
            let y = piece.y;
            piece.change_position(&self.game_map, x, y);
            self.current_piece = Some(piece);
        }
    }

    /// Tries to rotate the falling piece where it stands. A rejected
    /// rotation changes nothing.
    pub fn turn(&mut self)
        requires
            old(self).wf(),
        ensures
            final(self).wf(),
            final(self)@ == old(self)@.turned(),
    {
        if let Some(mut piece) = self.current_piece {
            piece.rotate(&self.game_map);
            self.current_piece = Some(piece);
        }
    }

    /// Tries to move the falling piece one row down, and says whether it
    /// went. Nothing else changes.
    fn lower(&mut self) -> (went: bool)
        requires
            old(self).wf(),
        ensures
            final(self).wf(),
            went == old(self)@.can_fall(),
            final(self)@ == if went { old(self)@.lowered() } else { old(self)@ },
    {
        if let Some(mut piece) = self.current_piece {
            proof {
                lemma_fitting_anchor(
                    self@.board,
                    piece.shape,
                    piece.current_state as int,
                    piece.x as int,
                    piece.y as int,
                );
            }
            let x = piece.x;
            let y = piece.y + 1;
            let went = piece.change_position(&self.game_map, x, y);
            self.current_piece = Some(piece);
            went
        } else {
            false
        }
    }

    /// One downward step at time `now`: the falling piece goes one row down
    /// if it can, else it is locked. Says whether the piece was locked.
    pub fn step_down(&mut self, now: u64) -> (locked: bool)
        requires
            old(self).wf(),
        ensures
            final(self).wf(),
            final(self)@ == old(self)@.stepped_down(now),
            locked == (old(self)@.piece is Some && !old(self)@.can_fall()),
    {
        if self.current_piece.is_none() {
            return false;
        }
        let went = self.lower();
        if !went {
            self.make_permanent();
        }
        self.last_tick = now;
        !went
    }

    /// A hard drop at time `now`: the falling piece goes down as far as it
    /// can and is locked there. Says whether a piece was locked.
    pub fn hard_drop(&mut self, now: u64) -> (locked: bool)
        requires
            old(self).wf(),
        ensures
            final(self).wf(),
            final(self)@ == old(self)@.dropped(now),
            locked == old(self)@.piece is Some,
    {
        if self.current_piece.is_none() {
            return false;
        }
        loop
            invariant_except_break
                self.wf(),
                self@.piece is Some,
                self@.landed() == old(self)@.landed(),
            ensures
                self.wf(),
                self@ == old(self)@.landed(),
                self@.piece is Some,
            decreases BOARD_HEIGHT - self@.piece->0.y,
        {
            proof {
                let p = self@.piece->0;
                lemma_fitting_anchor(
                    self@.board,
                    p.shape,
                    p.current_state as int,
                    p.x as int,
                    p.y as int,
                );
                if self@.can_fall() {
                    lemma_fitting_anchor(
                        self@.board,
                        p.shape,
                        p.current_state as int,
                        p.x as int,
                        p.y + 1,
                    );
                }
            }
            if !self.lower() {
                break;
            }
        }
        self.make_permanent();
        self.last_tick = now;
        true
    }
}

} // verus!
