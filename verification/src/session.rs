//! The session: one game from its first move to its end.
//!
//! A session owns the field, counts the flags and the seconds, and moves
//! from `Ready` over `Running` to `Stopped` as the player's commands come in.
//! The timer runs exactly while the game is running.

use vstd::prelude::*;
use crate::clock::AppTimer;
use crate::grid::{flag_set, has_mine, Grid, Pos};
use crate::layout::lemma_spot_count;
use crate::minefield::Minefield;
use crate::placement::{laid, placement_error};
use crate::laws::{
    law_chord_keeps_flags, law_step_boom_is_explosion, law_step_keeps_flags,
    law_toggle_counts_flags, lemma_flags_bounded, lemma_untouched_field,
};
use crate::rules::{
    cleared, intact, resolve_grid, resolve_outcome, step_grid, step_outcome, toggle_delta,
    toggle_grid, untouched,
};
use crate::spot::{FieldError, StepResult};

verus! {

/// Current state of the game
#[derive(Copy, Clone, PartialEq, Eq, Debug, Structural)]
pub enum GameState {
    /// Game is ready to start running
    Ready,
    /// Game is running
    Running,
    /// Game is stopped, and was either won (`true`), or lost (`false`)
    Stopped(bool),
}

impl GameState {
    /// The state after a command with the given outcome, on a field that the
    /// command leaves cleared or not. A stopped game stays as it is; a mine
    /// ends the game as lost, a cleared field ends it as won, and anything
    /// else leaves it running.
    pub open spec fn after(self, outcome: StepResult, cleared: bool) -> GameState {
        match self {
            GameState::Stopped(won) => GameState::Stopped(won),
            _ => match outcome {
                StepResult::Boom => GameState::Stopped(false),
                StepResult::Continue => if cleared {
                    GameState::Stopped(true)
                } else {
                    GameState::Running
                },
            },
        }
    }

    /// The state after a command; see [`GameState::after`].
    pub fn next(self, outcome: StepResult, cleared: bool) -> (state: GameState)
        ensures
            state == self.after(outcome, cleared),
    {
        match self {
            GameState::Stopped(won) => GameState::Stopped(won),
            _ => match outcome {
                StepResult::Boom => GameState::Stopped(false),
                StepResult::Continue => if cleared {
                    GameState::Stopped(true)
                } else {
                    GameState::Running
                },
            },
        }
    }
}

/// The size of a game.
#[derive(Copy, Clone, PartialEq, Eq, Debug, Structural)]
pub struct GameConfig {
    pub width: u16,
    pub height: u16,
    pub mines: u16,
}

impl Default for GameConfig {
    /// Ten by ten spots, ten mines.
    fn default() -> (config: Self)
        ensures
            config == (GameConfig { width: 10, height: 10, mines: 10 }),
    {
        GameConfig { width: 10, height: 10, mines: 10 }
    }
}

/// One game.
pub struct GameSession {
    minefield: Minefield,
    placed_flags: i64,
    timer: AppTimer,
    seconds_lapsed: u32,
    game_state: GameState,
}

impl GameSession {
    pub closed spec fn spec_minefield(&self) -> &Minefield {
        &self.minefield
    }

    pub closed spec fn spec_placed_flags(&self) -> i64 {
        self.placed_flags
    }

    pub closed spec fn spec_seconds_lapsed(&self) -> u32 {
        self.seconds_lapsed
    }

    pub closed spec fn spec_game_state(&self) -> GameState {
        self.game_state
    }

    /// The timer of the session runs.
    pub closed spec fn ticking(&self) -> bool {
        self.timer.is_running()
    }

    /// The grid of the session's field.
    pub open spec fn grid(&self) -> Grid {
        self.minefield()@
    }

    /// What holds of every session: the timer runs exactly while the game is
    /// running, the counter of flags is the number of flagged spots, and the
    /// state of the game is what the field shows. A game that is ready has
    /// an untouched field; a running game has neither set off a mine nor
    /// cleared the field; a won game has cleared the field without setting
    /// off a mine; a lost game has set off a mine.
    pub open spec fn wf(&self) -> bool {
        &&& self.minefield().wf()
        &&& self.ticking() <==> self.game_state() is Running
        &&& self.placed_flags() == flag_set(self.grid()).len()
        &&& match self.game_state() {
            GameState::Ready => untouched(self.grid()),
            GameState::Running => intact(self.grid()) && !cleared(self.grid()),
            GameState::Stopped(true) => intact(self.grid()) && cleared(self.grid()),
            GameState::Stopped(false) => !intact(self.grid()),
        }
    }

    /// A session that is ready to play on a fresh field.
    pub open spec fn is_fresh(&self) -> bool {
        &&& self.wf()
        &&& self.game_state() is Ready
        &&& self.placed_flags() == 0
        &&& self.seconds_lapsed() == 0
    }

    /// Nothing but the seconds differs between this session and `other`.
    pub open spec fn same_game(&self, other: &GameSession) -> bool {
        &&& self.grid() == other.grid()
        &&& self.minefield().width() == other.minefield().width()
        &&& self.minefield().height() == other.minefield().height()
        &&& self.minefield().mines() == other.minefield().mines()
        &&& self.game_state() == other.game_state()
        &&& self.placed_flags() == other.placed_flags()
    }

    fn fresh(minefield: Minefield) -> (session: GameSession)
        requires
            minefield.wf(),
            untouched(minefield@),
        ensures
            session.is_fresh(),
            *session.minefield() == minefield,
    {
        proof {
            lemma_untouched_field(
                minefield@,
                minefield.width() as int,
                minefield.height() as int,
            );
        }
        GameSession {
            minefield,
            placed_flags: 0,
            timer: AppTimer::new(),
            seconds_lapsed: 0,
            game_state: GameState::Ready,
        }
    }

    /// A new game on a field of the given size, with the given number of
    /// mines laid at random. The mines must leave at least one spot empty.
    pub fn new(width: u16, height: u16, mines: u32) -> (made: Result<GameSession, FieldError>)
        ensures
            match made {
                Ok(session) => {
                    &&& mines < width * height
                    &&& session.is_fresh()
                    &&& session.minefield().width() == width
                    &&& session.minefield().height() == height
                    &&& session.minefield().mines() == mines
                },
                Err(e) => e == FieldError::TooManyMines && mines >= width * height,
            },
    {
        match Minefield::build(width, height, mines) {
            Ok(minefield) => Ok(GameSession::fresh(minefield)),
            Err(e) => Err(e),
        }
    }

    /// A new game of the configured size.
    pub fn from_config(config: &GameConfig) -> (made: Result<GameSession, FieldError>)
        ensures
            match made {
                Ok(session) => {
                    &&& config.mines < config.width * config.height
                    &&& session.is_fresh()
                    &&& session.minefield().width() == config.width
                    &&& session.minefield().height() == config.height
                    &&& session.minefield().mines() == config.mines
                },
                Err(e) => e == FieldError::TooManyMines && config.mines >= config.width
                    * config.height,
            },
    {
        GameSession::new(config.width, config.height, config.mines as u32)
    }

    /// A new game on the field that [`Minefield::with_mines_at`] builds of
    /// the given size and mines.
    pub fn with_mines_at(width: u16, height: u16, mines: &Vec<(u16, u16)>) -> (made: Result<
        GameSession,
        FieldError,
    >)
        ensures
            match made {
                Ok(session) => {
                    &&& placement_error(width as int, height as int, mines@) is None
                    &&& session.is_fresh()
                    &&& session.minefield().width() == width
                    &&& session.minefield().height() == height
                    &&& session.minefield().mines() == mines@.len()
                    &&& forall|p: Pos| #[trigger]
                        has_mine(session.grid(), p) <==> laid(
                            mines@,
                            mines@.len() as int,
                            p,
                        )
                },
                Err(e) => placement_error(width as int, height as int, mines@)
                    == Some(e),
            },
    {
        match Minefield::with_mines_at(width, height, mines) {
            Ok(minefield) => Ok(GameSession::fresh(minefield)),
            Err(e) => Err(e),
        }
    }

    /// The field of the game.
    #[verifier::when_used_as_spec(spec_minefield)]
    pub fn minefield(&self) -> (field: &Minefield)
        ensures
            field == self.minefield(),
    {
        &self.minefield
    }

    /// The number of flags on the field. It may exceed the number of mines.
    #[verifier::when_used_as_spec(spec_placed_flags)]
    pub fn placed_flags(&self) -> (flags: i64)
        ensures
            flags == self.placed_flags(),
    {
        self.placed_flags
    }

    /// The seconds that the game has run.
    #[verifier::when_used_as_spec(spec_seconds_lapsed)]
    pub fn seconds_lapsed(&self) -> (seconds: u32)
        ensures
            seconds == self.seconds_lapsed(),
    {
        self.seconds_lapsed
    }

    /// The state of the game.
    #[verifier::when_used_as_spec(spec_game_state)]
    pub fn game_state(&self) -> (state: GameState)
        ensures
            state == self.game_state(),
    {
        self.game_state
    }

    /// Starts the game, and its timer, if it has not started yet.
    fn check_ready_to_running(&mut self)
        requires
            old(self).wf(),
            !(old(self).game_state() is Stopped),
        ensures
            final(self).game_state() is Running,
            final(self).ticking(),
            final(self).minefield == old(self).minefield,
            final(self).placed_flags() == old(self).placed_flags(),
            final(self).seconds_lapsed() == old(self).seconds_lapsed(),
    {
        if self.game_state == GameState::Ready {
            self.game_state = GameState::Running;
            self.timer.start();
        }
    }

    /// Ends the game and stops its timer.
    fn game_over(&mut self, is_won: bool)
        ensures
            final(self).game_state() == GameState::Stopped(is_won),
            !final(self).ticking(),
            final(self).minefield == old(self).minefield,
            final(self).placed_flags() == old(self).placed_flags(),
            final(self).seconds_lapsed() == old(self).seconds_lapsed(),
    {
        self.game_state = GameState::Stopped(is_won);
        self.timer.stop();
    }

    /// Moves on after a command with the given outcome: a mine ends the game
    /// as lost, a cleared field ends it as won. Whether the field is cleared
    /// is of interest only if no mine has gone off.
    fn settle(&mut self, outcome: StepResult)
        requires
            old(self).game_state() is Running,
            old(self).ticking(),
        ensures
            final(self).game_state() == GameState::Running.after(
                outcome,
                cleared(old(self).grid()),
            ),
            final(self).ticking() <==> final(self).game_state() is Running,
            final(self).minefield == old(self).minefield,
            final(self).placed_flags() == old(self).placed_flags(),
            final(self).seconds_lapsed() == old(self).seconds_lapsed(),
    {
        let is_cleared = match outcome {
            StepResult::Boom => false,
            StepResult::Continue => self.minefield.is_cleared(),
        };
        match self.game_state.next(outcome, is_cleared) {
            GameState::Stopped(is_won) => {
                self.game_over(is_won);
            },
            _ => {},
        }
    }

    /// Steps on the spot at `(x, y)`, as [`Minefield::step`] does. The first
    /// command of a game starts it; a mine ends it as lost, a cleared field
    /// as won. On a game that has ended nothing happens.
    ///
    /// A coordinate outside the field is rejected, and nothing changes.
    pub fn step(&mut self, x: u16, y: u16) -> (outcome: Result<StepResult, FieldError>)
        requires
            old(self).wf(),
        ensures
            final(self).wf(),
            final(self).seconds_lapsed() == old(self).seconds_lapsed(),
            final(self).minefield().width() == old(self).minefield().width(),
            final(self).minefield().height() == old(self).minefield().height(),
            final(self).minefield().mines() == old(self).minefield().mines(),
            final(self).placed_flags() == old(self).placed_flags(),
            match outcome {
                Ok(result) => {
                    &&& old(self).minefield().holds(x, y)
                    &&& if old(self).game_state() is Stopped {
                        result is Continue && final(self).same_game(old(self))
                    } else {
                        &&& result == step_outcome(old(self).grid(), (x as int, y as int))
                        &&& final(self).grid() == step_grid(old(self).grid(), (x as int, y as int))
                        &&& final(self).game_state() == old(self).game_state().after(
                            result,
                            cleared(final(self).grid()),
                        )
                    }
                },
                Err(e) => {
                    &&& e == FieldError::OutOfBounds
                    &&& !old(self).minefield().holds(x, y)
                    &&& final(self).same_game(old(self))
                },
            },
    {
        if !(x < self.minefield.width() && y < self.minefield.height()) {
            return Err(FieldError::OutOfBounds);
        }
        if let GameState::Stopped(_) = self.game_state {
            return Ok(StepResult::Continue);
        }
        let ghost g = self.grid();
        self.check_ready_to_running();
        let result = match self.minefield.step(x, y) {
            Ok(result) => result,
            Err(e) => {
                return Err(e);
            },
        };
        proof {
            law_step_keeps_flags(g, (x as int, y as int));
            law_step_boom_is_explosion(g, (x as int, y as int));
        }
        self.settle(result);
        Ok(result)
    }

    /// Toggles the flag on the spot at `(x, y)`, as
    /// [`Minefield::toggle_flag`] does, and adds the delta, which it returns,
    /// to the counter of flags. The first command of a game starts it; a
    /// cleared field ends it as won. On a game that has ended nothing
    /// happens.
    ///
    /// A coordinate outside the field is rejected, and nothing changes.
    pub fn toggle_flag(&mut self, x: u16, y: u16) -> (delta: Result<i32, FieldError>)
        requires
            old(self).wf(),
        ensures
            final(self).wf(),
            final(self).seconds_lapsed() == old(self).seconds_lapsed(),
            final(self).minefield().width() == old(self).minefield().width(),
            final(self).minefield().height() == old(self).minefield().height(),
            final(self).minefield().mines() == old(self).minefield().mines(),
            match delta {
                Ok(by) => {
                    &&& old(self).minefield().holds(x, y)
                    &&& final(self).placed_flags() == old(self).placed_flags() + by
                    &&& if old(self).game_state() is Stopped {
                        by == 0 && final(self).same_game(old(self))
                    } else {
                        &&& by == toggle_delta(old(self).grid(), (x as int, y as int))
                        &&& final(self).grid() == toggle_grid(
                            old(self).grid(),
                            (x as int, y as int),
                        )
                        &&& final(self).game_state() == old(self).game_state().after(
                            StepResult::Continue,
                            cleared(final(self).grid()),
                        )
                    }
                },
                Err(e) => {
                    &&& e == FieldError::OutOfBounds
                    &&& !old(self).minefield().holds(x, y)
                    &&& final(self).same_game(old(self))
                },
            },
    {
        if !(x < self.minefield.width() && y < self.minefield.height()) {
            return Err(FieldError::OutOfBounds);
        }
        if let GameState::Stopped(_) = self.game_state {
            return Ok(0);
        }
        let ghost g = self.grid();
        self.check_ready_to_running();
        let by = match self.minefield.toggle_flag(x, y) {
            Ok(by) => by,
            Err(e) => {
                return Err(e);
            },
        };
        proof {
            law_toggle_counts_flags(g, (x as int, y as int));
            lemma_flags_bounded(
                g,
                self.minefield.width() as int,
                self.minefield.height() as int,
            );
            lemma_spot_count(self.minefield.width() as int, self.minefield.height() as int);
        }
        self.placed_flags = self.placed_flags + by as i64;
        self.settle(StepResult::Continue);
        Ok(by)
    }

    /// Chords on the spot at `(x, y)`, as [`Minefield::try_resolve_step`]
    /// does. The first command of a game starts it; a mine ends it as lost, a
    /// cleared field as won. On a game that has ended nothing happens.
    ///
    /// A coordinate outside the field is rejected, and nothing changes.
    pub fn try_resolve_step(&mut self, x: u16, y: u16) -> (outcome: Result<StepResult, FieldError>)
        requires
            old(self).wf(),
        ensures
            final(self).wf(),
            final(self).seconds_lapsed() == old(self).seconds_lapsed(),
            final(self).minefield().width() == old(self).minefield().width(),
            final(self).minefield().height() == old(self).minefield().height(),
            final(self).minefield().mines() == old(self).minefield().mines(),
            final(self).placed_flags() == old(self).placed_flags(),
            match outcome {
                Ok(result) => {
                    &&& old(self).minefield().holds(x, y)
                    &&& if old(self).game_state() is Stopped {
                        result is Continue && final(self).same_game(old(self))
                    } else {
                        &&& result == resolve_outcome(old(self).grid(), (x as int, y as int))
                        &&& final(self).grid() == resolve_grid(
                            old(self).grid(),
                            (x as int, y as int),
                        )
                        &&& final(self).game_state() == old(self).game_state().after(
                            result,
                            cleared(final(self).grid()),
                        )
                    }
                },
                Err(e) => {
                    &&& e == FieldError::OutOfBounds
                    &&& !old(self).minefield().holds(x, y)
                    &&& final(self).same_game(old(self))
                },
            },
    {
        if !(x < self.minefield.width() && y < self.minefield.height()) {
            return Err(FieldError::OutOfBounds);
        }
        if let GameState::Stopped(_) = self.game_state {
            return Ok(StepResult::Continue);
        }
        let ghost g = self.grid();
        self.check_ready_to_running();
        let result = match self.minefield.try_resolve_step(x, y) {
            Ok(result) => result,
            Err(e) => {
                return Err(e);
            },
        };
        proof {
            law_chord_keeps_flags(g, (x as int, y as int));
        }
        self.settle(result);
        Ok(result)
    }

    /// Takes the ticks that have arrived out of the timer, all of them, and
    /// counts one second for each. Returns their number. The counter of
    /// seconds stops at its largest value.
    ///
    /// Only a running game has ticks to count.
    pub fn service_timer(&mut self) -> (ticks: u32)
        requires
            old(self).wf(),
        ensures
            final(self).wf(),
            final(self).same_game(old(self)),
            final(self).seconds_lapsed() == old(self).seconds_lapsed() + ticks,
            !(old(self).game_state() is Running) ==> ticks == 0,
    {
        let mut ticks: u32 = 0;
        let mut more = true;
        while more && self.seconds_lapsed < u32::MAX
            invariant
                self.wf(),
                self.same_game(old(self)),
                self.seconds_lapsed() == old(self).seconds_lapsed() + ticks,
                !(old(self).game_state() is Running) ==> ticks == 0,
            decreases u32::MAX - self.seconds_lapsed + if more { 1int } else { 0int },
        {
            let tick = self.timer.poll();
            more = self.count_tick(tick);
            if more {
                ticks = ticks + 1;
            }
        }
        ticks
    }

    /// Takes what a poll of the timer gave. A tick counts one second if the
    /// game is running and the counter of seconds is below its largest
    /// value; anything else counts nothing. Returns whether a second was
    /// counted.
    pub fn count_tick(&mut self, tick: Option<()>) -> (counted: bool)
        requires
            old(self).wf(),
        ensures
            final(self).wf(),
            final(self).same_game(old(self)),
            counted == (tick is Some && old(self).game_state() is Running && old(
                self,
            ).seconds_lapsed() < u32::MAX),
            final(self).seconds_lapsed() == old(self).seconds_lapsed() + if counted {
                1int
            } else {
                0int
            },
    {
        match tick {
            Some(_) => {
                if self.game_state == GameState::Running && self.seconds_lapsed < u32::MAX {
                    self.seconds_lapsed = self.seconds_lapsed + 1;
                    true
                } else {
                    false
                }
            },
            None => false,
        }
    }
}

} // verus!
