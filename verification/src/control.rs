//! One turn of the control loop: gravity, spawning, and the player's
//! intents, applied to a session in the order they arrive.

use crate::game_board::{level_interval, level_time, Phase, Session, Tetris};
use crate::tetrimino::{spawn_shape, Shape};
use vstd::prelude::*;

verus! {

/// What the player asks for.
#[derive(Clone, Copy, Debug, PartialEq, Eq, Structural)]
pub enum Intent {
    /// Leave the game.
    Quit,
    /// Move the falling piece one column to the left.
    MoveLeft,
    /// Move the falling piece one column to the right.
    MoveRight,
    /// Rotate the falling piece.
    Rotate,
    /// Move the falling piece one row down.
    SoftDrop,
    /// Let the falling piece fall all the way and lock it.
    HardDrop,
    /// Nothing.
    Idle,
}

/// How a turn of the control loop ended.
#[derive(Clone, Copy, Debug, PartialEq, Eq, Structural)]
pub struct Frame {
    /// The player asked to leave.
    pub quit: bool,
    /// The game has ended: a piece found no room to spawn.
    pub game_over: bool,
}

/// Whether one of the intents asks to leave the game.
pub open spec fn quit_requested(intents: Seq<Intent>) -> bool {
    exists|i: int| 0 <= i < intents.len() && intents[i] == Intent::Quit
}

impl Session {
    /// Whether at time `now` more than the level's interval has passed since
    /// gravity last acted. A clock that went backwards says no.
    pub open spec fn time_over(self, now: u64) -> bool {
        now > self.last_tick && now - self.last_tick > level_time(self.level)
    }

    /// The session after gravity had its say at time `now`. When the time is
    /// over the falling piece takes one downward step, and gravity starts
    /// counting again from `now` whether a piece is falling or not. A game
    /// that has ended does not change.
    pub open spec fn after_gravity(self, now: u64) -> Session {
        if self.over || !self.time_over(now) {
            self
        } else if self.piece is Some {
            self.stepped_down(now)
        } else {
            Session { last_tick: now, ..self }
        }
    }

    /// The session after one intent, received at time `now`.
    pub open spec fn after_intent(self, intent: Intent, now: u64) -> Session {
        match intent {
            Intent::Quit => self,
            Intent::MoveLeft => self.shifted(-1),
            Intent::MoveRight => self.shifted(1),
            Intent::Rotate => self.turned(),
            Intent::SoftDrop => self.stepped_down(now),
            Intent::HardDrop => self.dropped(now),
            Intent::Idle => self,
        }
    }

    /// The session after the intents of one turn, taken in the order they
    /// arrived. What follows a request to leave is not looked at.
    pub open spec fn after_intents(self, intents: Seq<Intent>, now: u64) -> Session
        decreases intents.len(),
    {
        if intents.len() == 0 || intents[0] == Intent::Quit {
            self
        } else {
            self.after_intent(intents[0], now).after_intents(intents.drop_first(), now)
        }
    }

    /// The session after one turn of the control loop at time `now`: gravity
    /// first; then, if no piece is falling, a piece of the given shape is
    /// spawned; then, unless the game has ended, the intents.
    pub open spec fn after_frame(self, now: u64, intents: Seq<Intent>, shape: Shape) -> Session {
        let ready = self.after_gravity(now).spawned(shape);
        if ready.over {
            ready
        } else {
            ready.after_intents(intents, now)
        }
    }

    /// How the turn that `after_frame` describes ends.
    pub open spec fn frame_result(self, now: u64, intents: Seq<Intent>, shape: Shape) -> Frame {
        let ready = self.after_gravity(now).spawned(shape);
        if ready.over {
            Frame { quit: false, game_over: true }
        } else {
            Frame { quit: quit_requested(intents), game_over: false }
        }
    }
}

/// One intent keeps a session well formed. It never touches score, lines,
/// level or board unless it locks the piece, and a session without a
/// falling piece, so also a game that has ended, does not change.
pub proof fn lemma_after_intent(session: Session, intent: Intent, now: u64)
    requires
        session.wf(),
    ensures
        session.after_intent(intent, now).wf(),
        session.piece is None ==> session.after_intent(intent, now) == session,
        session.after_intent(intent, now).over == session.over,
        session.after_intent(intent, now).level >= session.level,
        session.after_intent(intent, now).piece is Some ==> session.after_intent(
            intent,
            now,
        ).board == session.board && session.after_intent(intent, now).score == session.score
            && session.after_intent(intent, now).lines == session.lines,
        (intent == Intent::MoveLeft || intent == Intent::MoveRight || intent == Intent::Rotate)
            ==> session.after_intent(intent, now).piece is Some == session.piece is Some
            && session.after_intent(intent, now).last_tick == session.last_tick,
{
    match session.piece {
        Some(p) => {
            crate::tetrimino::lemma_rotation(p, session.board);
            crate::tetrimino::lemma_fitting_anchor(
                session.board,
                p.shape,
                p.current_state as int,
                p.x as int,
                p.y as int,
            );
            crate::game_board::lemma_locked(session);
            if session.can_fall() {
                crate::tetrimino::lemma_fitting_anchor(
                    session.board,
                    p.shape,
                    p.current_state as int,
                    p.x as int,
                    p.y + 1,
                );
            }
            crate::game_board::lemma_landed(session);
            crate::game_board::lemma_locked(session.landed());
        },
        None => {},
    }
}

/// The intents of one turn keep a session well formed, and the level never
/// falls. A game that has ended does not change.
pub proof fn lemma_after_intents(session: Session, intents: Seq<Intent>, now: u64)
    requires
        session.wf(),
    ensures
        session.after_intents(intents, now).wf(),
        session.after_intents(intents, now).over == session.over,
        session.after_intents(intents, now).level >= session.level,
        session.piece is None ==> session.after_intents(intents, now) == session,
    decreases intents.len(),
{
    if intents.len() > 0 && intents[0] != Intent::Quit {
        lemma_after_intent(session, intents[0], now);
        lemma_after_intents(session.after_intent(intents[0], now), intents.drop_first(), now);
    }
}

/// Gravity keeps a session well formed, and the level never falls. A game
/// that has ended does not change.
pub proof fn lemma_after_gravity(session: Session, now: u64)
    requires
        session.wf(),
    ensures
        session.after_gravity(now).wf(),
        session.after_gravity(now).over == session.over,
        session.after_gravity(now).level >= session.level,
        session.over ==> session.after_gravity(now) == session,
{
    lemma_after_intent(session, Intent::SoftDrop, now);
}

/// A whole turn keeps a session well formed and the level never falls. Once
/// the game has ended it stays ended, and nothing changes any more.
pub proof fn lemma_after_frame(session: Session, now: u64, intents: Seq<Intent>, shape: Shape)
    requires
        session.wf(),
    ensures
        session.after_frame(now, intents, shape).wf(),
        session.after_frame(now, intents, shape).level >= session.level,
        session.over ==> session.after_frame(now, intents, shape) == session,
        session.over ==> session.frame_result(now, intents, shape).game_over,
        session.frame_result(now, intents, shape).game_over == session.after_frame(
            now,
            intents,
            shape,
        ).over,
{
    lemma_after_gravity(session, now);
    crate::game_board::lemma_spawned(session.after_gravity(now), shape);
    lemma_after_intents(session.after_gravity(now).spawned(shape), intents, now);
}

/// Whether it is time for gravity to act: more than the interval of the
/// session's level has passed between the last time it acted and `now`.
pub fn is_time_over(tetris: &Tetris, now: u64) -> (over: bool)
    requires
        tetris.wf(),
    ensures
        over == tetris@.time_over(now),
{
    let last = tetris.last_tick();
    if now <= last {
        return false;
    }
    let level = tetris.current_level();
    assert(1 <= level <= crate::game_board::MAX_LEVEL);
    now - last > level_interval(level) as u64
}

/// Lets gravity act at time `now`, and says whether the falling piece was
/// locked.
pub fn apply_gravity(tetris: &mut Tetris, now: u64) -> (made_permanent: bool)
    requires
        old(tetris).wf(),
    ensures
        final(tetris).wf(),
        final(tetris)@ == old(tetris)@.after_gravity(now),
        made_permanent == (old(tetris)@.piece is Some && final(tetris)@.piece is None),
{
    match tetris.phase() {
        Phase::GameOver => false,
        Phase::Falling => {
            if is_time_over(tetris, now) {
                tetris.step_down(now)
            } else {
                false
            }
        },
        Phase::Spawning => {
            if is_time_over(tetris, now) {
                tetris.reset_timer(now);
            }
            false
        },
    }
}

/// Applies one intent, received at time `now`, and says whether the falling
/// piece was locked. A rejected move or rotation changes nothing; only a
/// downward move that fails locks the piece.
pub fn handle_intent(tetris: &mut Tetris, intent: Intent, now: u64) -> (made_permanent: bool)
    requires
        old(tetris).wf(),
    ensures
        final(tetris).wf(),
        final(tetris)@ == old(tetris)@.after_intent(intent, now),
        made_permanent == (old(tetris)@.piece is Some && final(tetris)@.piece is None),
        old(tetris)@.piece is None ==> final(tetris)@ == old(tetris)@,
{
    match intent {
        Intent::Quit => false,
        Intent::MoveLeft => {
            tetris.shift(true);
            false
        },
        Intent::MoveRight => {
            tetris.shift(false);
            false
        },
        Intent::Rotate => {
            tetris.turn();
            false
        },
        Intent::SoftDrop => tetris.step_down(now),
        Intent::HardDrop => tetris.hard_drop(now),
        Intent::Idle => false,
    }
}

/// Applies the intents of one turn, received at time `now`, in the order
/// they arrived. A request to leave sets `quit` and ends the turn: what
/// follows it is dropped. Says whether the falling piece was locked.
pub fn handle_events(
    tetris: &mut Tetris,
    quit: &mut bool,
    now: u64,
    intents: &Vec<Intent>,
) -> (made_permanent: bool)
    requires
        old(tetris).wf(),
    ensures
        final(tetris).wf(),
        final(tetris)@ == old(tetris)@.after_intents(intents@, now),
        *final(quit) == (*old(quit) || quit_requested(intents@)),
        made_permanent == (old(tetris)@.piece is Some && final(tetris)@.piece is None),
{
    let mut made_permanent = false;
    let mut i: usize = 0;
    assert(intents@.skip(0) =~= intents@);
    while i < intents.len()
        invariant
            i <= intents.len(),
            tetris.wf(),
            *quit == *old(quit),
            forall|j: int| 0 <= j < i ==> intents@[j] != Intent::Quit,
            tetris@.after_intents(intents@.skip(i as int), now) == old(tetris)@.after_intents(
                intents@,
                now,
            ),
            made_permanent == (old(tetris)@.piece is Some && tetris@.piece is None),
            old(tetris)@.piece is None ==> tetris@ == old(tetris)@,
        decreases intents.len() - i,
    {
        let intent = intents[i];
        proof {
            let rest = intents@.skip(i as int);
            assert(rest[0] == intent);
            assert(rest.drop_first() =~= intents@.skip(i + 1));
        }
        if intent == Intent::Quit {
            *quit = true;
            return made_permanent;
        }
        if handle_intent(tetris, intent, now) {
            made_permanent = true;
        }
        i += 1;
    }
    made_permanent
}

/// One turn of the control loop at time `now`, with the shape of the piece
/// to spawn if one is needed.
pub fn run_frame(
    tetris: &mut Tetris,
    now: u64,
    intents: &Vec<Intent>,
    shape: Shape,
) -> (frame: Frame)
    requires
        old(tetris).wf(),
    ensures
        final(tetris).wf(),
        final(tetris)@ == old(tetris)@.after_frame(now, intents@, shape),
        frame == old(tetris)@.frame_result(now, intents@, shape),
{
    apply_gravity(tetris, now);
    if !tetris.spawn(shape) {
        return Frame { quit: false, game_over: true };
    }
    let mut quit = false;
    handle_events(tetris, &mut quit, now, intents);
    Frame { quit, game_over: false }
}

/// One turn of the control loop at time `now`. Where a piece is to be
/// spawned its shape is drawn at random, so the turn is the one that
/// `run_frame` makes for some shape.
pub fn next_frame(tetris: &mut Tetris, now: u64, intents: &Vec<Intent>) -> (frame: Frame)
    requires
        old(tetris).wf(),
    ensures
        final(tetris).wf(),
        exists|shape: Shape|
            final(tetris)@ == #[trigger] old(tetris)@.after_frame(now, intents@, shape) && frame
                == old(tetris)@.frame_result(now, intents@, shape),
{
    apply_gravity(tetris, now);
    let shape = match tetris.phase() {
        Phase::Spawning => spawn_shape(),
        _ => Shape::I,
    };
    if !tetris.spawn(shape) {
        assert(tetris@ == old(tetris)@.after_frame(now, intents@, shape));
        return Frame { quit: false, game_over: true };
    }
    let mut quit = false;
    handle_events(tetris, &mut quit, now, intents);
    assert(tetris@ == old(tetris)@.after_frame(now, intents@, shape));
    Frame { quit, game_over: false }
}

} // verus!
