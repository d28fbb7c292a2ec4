use minesweep::{
    FieldError, GameConfig, GameSession, GameState, SpotKind, SpotState, StepResult,
};
use std::time::{Duration, Instant};

/// Blocks for the given span: nothing is ever sent into the queue.
fn wait(span: Duration) {
    let (_tx, rx) = std::sync::mpsc::channel::<()>();
    let start = Instant::now();
    while start.elapsed() < span {
        let _ = rx.recv_timeout(span - start.elapsed());
    }
}

fn flags_on(session: &GameSession) -> i64 {
    let field = session.minefield();
    let mut n = 0;
    for y in 0..field.height() {
        for x in 0..field.width() {
            if field.spot(x, y).unwrap().state() == SpotState::Flagged {
                n += 1;
            }
        }
    }
    n
}

#[test]
fn default_config_is_ten_by_ten_with_ten_mines() {
    let config = GameConfig::default();
    assert_eq!((config.width, config.height, config.mines), (10, 10, 10));
}

#[test]
fn new_session_is_ready() {
    let session = GameSession::from_config(&GameConfig::default()).unwrap();
    assert_eq!(session.game_state(), GameState::Ready);
    assert_eq!(session.placed_flags(), 0);
    assert_eq!(session.seconds_lapsed(), 0);
    assert_eq!(session.minefield().width(), 10);
    assert_eq!(session.minefield().height(), 10);
    assert_eq!(session.minefield().mines(), 10);
    let mut mines = 0;
    for y in 0..10 {
        for x in 0..10 {
            let spot = session.minefield().spot(x, y).unwrap();
            assert_eq!(spot.state(), SpotState::Hidden);
            if spot.kind() == SpotKind::Mine {
                mines += 1;
            }
        }
    }
    assert_eq!(mines, 10);
}

#[test]
fn new_session_rejects_too_many_mines() {
    assert_eq!(GameSession::new(3, 3, 9).err(), Some(FieldError::TooManyMines));
    assert_eq!(GameSession::new(0, 0, 0).err(), Some(FieldError::TooManyMines));
    let config = GameConfig { width: 2, height: 2, mines: 4 };
    assert_eq!(GameSession::from_config(&config).err(), Some(FieldError::TooManyMines));
    assert!(GameSession::new(3, 3, 8).is_ok());
    assert_eq!(
        GameSession::with_mines_at(3, 3, &vec![(3, 3)]).err(),
        Some(FieldError::OutOfBounds)
    );
    assert_eq!(
        GameSession::with_mines_at(3, 3, &vec![(1, 1), (1, 1)]).err(),
        Some(FieldError::DuplicateMine)
    );
}

#[test]
fn first_step_starts_the_game() {
    let mut session = GameSession::with_mines_at(3, 3, &vec![(1, 1)]).unwrap();
    assert_eq!(session.step(0, 0), Ok(StepResult::Continue));
    assert_eq!(session.game_state(), GameState::Running);
    assert_eq!(session.minefield().spot(0, 0).unwrap().state(), SpotState::Revealed);
}

#[test]
fn first_flag_starts_the_game() {
    let mut session = GameSession::with_mines_at(3, 3, &vec![(1, 1)]).unwrap();
    assert_eq!(session.toggle_flag(1, 1), Ok(1));
    assert_eq!(session.game_state(), GameState::Running);
    assert_eq!(session.placed_flags(), 1);
}

#[test]
fn first_chord_starts_the_game() {
    let mut session = GameSession::with_mines_at(3, 3, &vec![(1, 1)]).unwrap();
    assert_eq!(session.try_resolve_step(0, 0), Ok(StepResult::Continue));
    assert_eq!(session.game_state(), GameState::Running);
    assert_eq!(session.minefield().spot(0, 0).unwrap().state(), SpotState::Hidden);
}

#[test]
fn a_command_outside_the_field_starts_nothing() {
    let mut session = GameSession::with_mines_at(3, 3, &vec![(1, 1)]).unwrap();
    assert_eq!(session.step(3, 0), Err(FieldError::OutOfBounds));
    assert_eq!(session.toggle_flag(0, 3), Err(FieldError::OutOfBounds));
    assert_eq!(session.try_resolve_step(9, 9), Err(FieldError::OutOfBounds));
    assert_eq!(session.game_state(), GameState::Ready);
    assert_eq!(session.placed_flags(), 0);
}

#[test]
fn a_mine_ends_the_game_as_lost() {
    let mut session = GameSession::with_mines_at(3, 3, &vec![(1, 1)]).unwrap();
    assert_eq!(session.step(1, 1), Ok(StepResult::Boom));
    assert_eq!(session.game_state(), GameState::Stopped(false));
    assert_eq!(session.minefield().spot(1, 1).unwrap().state(), SpotState::Exploded);
}

#[test]
fn a_cleared_field_ends_the_game_as_won() {
    let mut session = GameSession::with_mines_at(5, 5, &vec![(0, 0)]).unwrap();
    assert_eq!(session.step(4, 4), Ok(StepResult::Continue));
    assert_eq!(session.game_state(), GameState::Stopped(true));
    assert!(session.minefield().is_cleared());
}

#[test]
fn a_chord_can_win_or_lose_the_game() {
    let mut session = GameSession::with_mines_at(3, 3, &vec![(0, 0), (2, 0)]).unwrap();
    assert_eq!(session.step(1, 1), Ok(StepResult::Continue));
    assert_eq!(session.toggle_flag(0, 0), Ok(1));
    assert_eq!(session.toggle_flag(2, 0), Ok(1));
    assert_eq!(session.game_state(), GameState::Running);
    assert_eq!(session.try_resolve_step(1, 1), Ok(StepResult::Continue));
    assert_eq!(session.game_state(), GameState::Stopped(true));
    assert_eq!(session.placed_flags(), 2);

    let mut session = GameSession::with_mines_at(3, 3, &vec![(2, 2)]).unwrap();
    assert_eq!(session.step(1, 1), Ok(StepResult::Continue));
    assert_eq!(session.toggle_flag(0, 0), Ok(1));
    assert_eq!(session.try_resolve_step(1, 1), Ok(StepResult::Boom));
    assert_eq!(session.game_state(), GameState::Stopped(false));
}

#[test]
fn a_stopped_game_takes_no_commands() {
    let mut session = GameSession::with_mines_at(3, 3, &vec![(1, 1)]).unwrap();
    assert_eq!(session.toggle_flag(2, 2), Ok(1));
    assert_eq!(session.step(1, 1), Ok(StepResult::Boom));
    assert_eq!(session.step(0, 0), Ok(StepResult::Continue));
    assert_eq!(session.minefield().spot(0, 0).unwrap().state(), SpotState::Hidden);
    assert_eq!(session.toggle_flag(0, 0), Ok(0));
    assert_eq!(session.toggle_flag(2, 2), Ok(0));
    assert_eq!(session.minefield().spot(2, 2).unwrap().state(), SpotState::Flagged);
    assert_eq!(session.try_resolve_step(0, 0), Ok(StepResult::Continue));
    assert_eq!(session.step(5, 5), Err(FieldError::OutOfBounds));
    assert_eq!(session.placed_flags(), 1);
    assert_eq!(session.game_state(), GameState::Stopped(false));
}

#[test]
fn the_flag_counter_follows_the_flags() {
    let mut session = GameSession::with_mines_at(4, 4, &vec![(0, 0)]).unwrap();
    assert_eq!(session.toggle_flag(0, 0), Ok(1));
    assert_eq!(session.toggle_flag(1, 0), Ok(1));
    assert_eq!(session.toggle_flag(1, 1), Ok(1));
    assert_eq!(session.placed_flags(), 3);
    assert!(session.placed_flags() > session.minefield().mines() as i64);
    assert_eq!(flags_on(&session), 3);
    assert_eq!(session.toggle_flag(1, 0), Ok(-1));
    assert_eq!(session.placed_flags(), 2);
    assert_eq!(session.step(3, 3), Ok(StepResult::Continue));
    assert_eq!(session.toggle_flag(3, 3), Ok(0));
    assert_eq!(session.placed_flags(), 2);
    assert_eq!(flags_on(&session), 2);
    assert_eq!(session.game_state(), GameState::Running);
}

#[test]
fn game_state_after_a_command() {
    let states = [GameState::Ready, GameState::Running];
    for state in states {
        assert_eq!(state.next(StepResult::Boom, false), GameState::Stopped(false));
        assert_eq!(state.next(StepResult::Boom, true), GameState::Stopped(false));
        assert_eq!(state.next(StepResult::Continue, true), GameState::Stopped(true));
        assert_eq!(state.next(StepResult::Continue, false), GameState::Running);
    }
    for won in [true, false] {
        let state = GameState::Stopped(won);
        assert_eq!(state.next(StepResult::Boom, false), state);
        assert_eq!(state.next(StepResult::Continue, true), state);
        assert_eq!(state.next(StepResult::Continue, false), state);
    }
}

#[test]
fn seconds_are_counted_while_the_game_runs() {
    let mut session = GameSession::with_mines_at(3, 3, &vec![(1, 1)]).unwrap();
    wait(Duration::from_millis(1200));
    assert_eq!(session.service_timer(), 0);
    assert_eq!(session.seconds_lapsed(), 0);

    assert_eq!(session.step(0, 0), Ok(StepResult::Continue));
    assert_eq!(session.service_timer(), 0);
    wait(Duration::from_millis(2500));
    assert_eq!(session.service_timer(), 2);
    assert_eq!(session.seconds_lapsed(), 2);
    assert_eq!(session.service_timer(), 0);

    wait(Duration::from_millis(1000));
    assert_eq!(session.step(1, 1), Ok(StepResult::Boom));
    assert_eq!(session.service_timer(), 0);
    wait(Duration::from_millis(1200));
    assert_eq!(session.service_timer(), 0);
    assert_eq!(session.seconds_lapsed(), 2);
}

#[test]
fn a_tick_counts_a_second_only_while_the_game_runs() {
    let mut session = GameSession::with_mines_at(3, 3, &vec![(1, 1)]).unwrap();
    assert!(!session.count_tick(Some(())));
    assert!(!session.count_tick(None));
    assert_eq!(session.seconds_lapsed(), 0);
    assert_eq!(session.game_state(), GameState::Ready);

    assert_eq!(session.step(0, 0), Ok(StepResult::Continue));
    assert!(session.count_tick(Some(())));
    assert_eq!(session.seconds_lapsed(), 1);
    assert!(!session.count_tick(None));
    assert_eq!(session.seconds_lapsed(), 1);
    assert!(session.count_tick(Some(())));
    assert!(session.count_tick(Some(())));
    assert_eq!(session.seconds_lapsed(), 3);
    assert_eq!(session.game_state(), GameState::Running);
    assert_eq!(session.placed_flags(), 0);

    assert_eq!(session.step(1, 1), Ok(StepResult::Boom));
    assert!(!session.count_tick(Some(())));
    assert_eq!(session.seconds_lapsed(), 3);
    assert_eq!(session.game_state(), GameState::Stopped(false));
}
