use minesweep::{FieldError, Minefield, Spot, SpotKind, SpotState, StepResult};

fn state_at(field: &Minefield, x: u16, y: u16) -> SpotState {
    field.spot(x, y).unwrap().state()
}

fn kind_at(field: &Minefield, x: u16, y: u16) -> SpotKind {
    field.spot(x, y).unwrap().kind()
}

fn count_in_state(field: &Minefield, state: SpotState) -> usize {
    let mut n = 0;
    for y in 0..field.height() {
        for x in 0..field.width() {
            if state_at(field, x, y) == state {
                n += 1;
            }
        }
    }
    n
}

fn mines_next_to(field: &Minefield, x: u16, y: u16) -> u8 {
    let mut n = 0;
    for dy in -1i32..=1 {
        for dx in -1i32..=1 {
            if dx == 0 && dy == 0 {
                continue;
            }
            let nx = x as i32 + dx;
            let ny = y as i32 + dy;
            if nx < 0 || ny < 0 || nx > u16::MAX as i32 || ny > u16::MAX as i32 {
                continue;
            }
            if let Some(spot) = field.spot(nx as u16, ny as u16) {
                if spot.kind() == SpotKind::Mine {
                    n += 1;
                }
            }
        }
    }
    n
}

fn snapshot(field: &Minefield) -> Vec<Spot> {
    let mut all = Vec::new();
    for y in 0..field.height() {
        for x in 0..field.width() {
            all.push(field.spot(x, y).unwrap());
        }
    }
    all
}

#[test]
fn new_spot_is_hidden() {
    let spot = Spot::new(SpotKind::Empty(3));
    assert_eq!(spot.kind(), SpotKind::Empty(3));
    assert_eq!(spot.state(), SpotState::Hidden);
}

#[test]
fn built_field_has_the_mines_asked_for() {
    let field = Minefield::build(10, 10, 10).unwrap();
    assert_eq!(field.width(), 10);
    assert_eq!(field.height(), 10);
    assert_eq!(field.mines(), 10);
    let mut mines = 0;
    for y in 0..10 {
        for x in 0..10 {
            let spot = field.spot(x, y).unwrap();
            assert_eq!(spot.state(), SpotState::Hidden);
            match spot.kind() {
                SpotKind::Mine => mines += 1,
                SpotKind::Empty(n) => assert_eq!(n, mines_next_to(&field, x, y)),
            }
        }
    }
    assert_eq!(mines, 10);
}

#[test]
fn built_field_can_be_nearly_full() {
    let field = Minefield::build(4, 3, 11).unwrap();
    let mut mines = 0;
    let mut empty = 0;
    for y in 0..3 {
        for x in 0..4 {
            match kind_at(&field, x, y) {
                SpotKind::Mine => mines += 1,
                SpotKind::Empty(n) => {
                    empty += 1;
                    assert_eq!(n, mines_next_to(&field, x, y));
                },
            }
        }
    }
    assert_eq!((mines, empty), (11, 1));
}

#[test]
fn build_rejects_a_field_without_an_empty_spot() {
    assert_eq!(Minefield::build(2, 2, 4).err(), Some(FieldError::TooManyMines));
    assert_eq!(Minefield::build(2, 2, 5).err(), Some(FieldError::TooManyMines));
    assert_eq!(Minefield::build(0, 5, 0).err(), Some(FieldError::TooManyMines));
    assert_eq!(Minefield::build(5, 0, 0).err(), Some(FieldError::TooManyMines));
    assert!(Minefield::build(2, 2, 3).is_ok());
}

#[test]
fn with_mines_at_reports_each_error() {
    let full = vec![(0, 0), (1, 0), (0, 1), (1, 1)];
    assert_eq!(Minefield::with_mines_at(2, 2, &full).err(), Some(FieldError::TooManyMines));
    let outside = vec![(0, 0), (2, 0)];
    assert_eq!(Minefield::with_mines_at(2, 2, &outside).err(), Some(FieldError::OutOfBounds));
    let below = vec![(0, 2)];
    assert_eq!(Minefield::with_mines_at(2, 2, &below).err(), Some(FieldError::OutOfBounds));
    let twice = vec![(1, 1), (0, 0), (1, 1)];
    assert_eq!(Minefield::with_mines_at(3, 3, &twice).err(), Some(FieldError::DuplicateMine));
    let outside_and_twice = vec![(1, 1), (1, 1), (9, 9)];
    assert_eq!(
        Minefield::with_mines_at(3, 3, &outside_and_twice).err(),
        Some(FieldError::OutOfBounds)
    );
}

#[test]
fn with_mines_at_numbers_the_empty_spots() {
    let field = Minefield::with_mines_at(4, 3, &vec![(0, 0), (1, 0), (3, 2)]).unwrap();
    assert_eq!(field.mines(), 3);
    let expected = [
        [SpotKind::Mine, SpotKind::Mine, SpotKind::Empty(1), SpotKind::Empty(0)],
        [SpotKind::Empty(2), SpotKind::Empty(2), SpotKind::Empty(2), SpotKind::Empty(1)],
        [SpotKind::Empty(0), SpotKind::Empty(0), SpotKind::Empty(1), SpotKind::Mine],
    ];
    for y in 0..3u16 {
        for x in 0..4u16 {
            assert_eq!(kind_at(&field, x, y), expected[y as usize][x as usize]);
            assert_eq!(state_at(&field, x, y), SpotState::Hidden);
        }
    }
}

#[test]
fn a_spot_can_have_eight_mines_around_it() {
    let ring = vec![(0, 0), (1, 0), (2, 0), (0, 1), (2, 1), (0, 2), (1, 2), (2, 2)];
    let field = Minefield::with_mines_at(3, 3, &ring).unwrap();
    assert_eq!(kind_at(&field, 1, 1), SpotKind::Empty(8));
}

#[test]
fn spot_outside_the_field_is_none() {
    let field = Minefield::with_mines_at(3, 2, &vec![]).unwrap();
    assert!(field.spot(2, 1).is_some());
    assert_eq!(field.spot(3, 0), None);
    assert_eq!(field.spot(0, 2), None);
    assert_eq!(field.spot(u16::MAX, u16::MAX), None);
}

#[test]
fn with_picks_lays_the_sample() {
    let field = Minefield::with_picks(3, 3, &vec![0, 0, 0]).unwrap();
    assert_eq!(kind_at(&field, 0, 0), SpotKind::Mine);
    assert_eq!(kind_at(&field, 1, 0), SpotKind::Mine);
    assert_eq!(kind_at(&field, 2, 0), SpotKind::Mine);
    assert_eq!(field.mines(), 3);

    let field = Minefield::with_picks(3, 3, &vec![8, 0]).unwrap();
    assert_eq!(kind_at(&field, 2, 2), SpotKind::Mine);
    assert_eq!(kind_at(&field, 1, 0), SpotKind::Mine);
    assert_eq!(kind_at(&field, 0, 0), SpotKind::Empty(1));
    assert_eq!(field.mines(), 2);

    let field = Minefield::with_picks(3, 3, &vec![10, 9]).unwrap();
    assert_eq!(kind_at(&field, 1, 0), SpotKind::Mine);
    assert_eq!(kind_at(&field, 2, 0), SpotKind::Mine);
    assert_eq!(kind_at(&field, 0, 0), SpotKind::Empty(1));

    let field = Minefield::with_picks(3, 3, &vec![8, 7]).unwrap();
    assert_eq!(kind_at(&field, 2, 2), SpotKind::Mine);
    assert_eq!(kind_at(&field, 0, 0), SpotKind::Mine);
    assert_eq!(field.mines(), 2);
}

#[test]
fn with_picks_rejects_too_many_picks() {
    let picks = vec![0; 4];
    assert_eq!(Minefield::with_picks(2, 2, &picks).err(), Some(FieldError::TooManyMines));
    assert!(Minefield::with_picks(2, 2, &vec![0; 3]).is_ok());
}

#[test]
fn one_by_one_field_without_mines_is_won_by_one_step() {
    let mut field = Minefield::build(1, 1, 0).unwrap();
    assert_eq!(field.spot(0, 0), Some(Spot::new(SpotKind::Empty(0))));
    assert!(!field.is_cleared());
    assert_eq!(field.step(0, 0), Ok(StepResult::Continue));
    assert_eq!(state_at(&field, 0, 0), SpotState::Revealed);
    assert!(field.is_cleared());
}

#[test]
fn three_by_three_field_with_a_mine_in_the_middle() {
    for y in 0..3u16 {
        for x in 0..3u16 {
            let mut field = Minefield::with_mines_at(3, 3, &vec![(1, 1)]).unwrap();
            if (x, y) == (1, 1) {
                assert_eq!(kind_at(&field, x, y), SpotKind::Mine);
                assert_eq!(field.step(x, y), Ok(StepResult::Boom));
                assert_eq!(state_at(&field, x, y), SpotState::Exploded);
                assert_eq!(count_in_state(&field, SpotState::Hidden), 8);
            } else {
                assert_eq!(kind_at(&field, x, y), SpotKind::Empty(1));
                assert_eq!(field.step(x, y), Ok(StepResult::Continue));
                assert_eq!(state_at(&field, x, y), SpotState::Revealed);
                assert_eq!(count_in_state(&field, SpotState::Revealed), 1);
                assert_eq!(count_in_state(&field, SpotState::Hidden), 8);
            }
        }
    }
}

#[test]
fn five_by_five_field_with_a_mine_in_the_corner_floods() {
    let mut field = Minefield::with_mines_at(5, 5, &vec![(0, 0)]).unwrap();
    for y in 0..5u16 {
        for x in 0..5u16 {
            let expected = if (x, y) == (0, 0) {
                SpotKind::Mine
            } else if x <= 1 && y <= 1 {
                SpotKind::Empty(1)
            } else {
                SpotKind::Empty(0)
            };
            assert_eq!(kind_at(&field, x, y), expected);
        }
    }
    assert_eq!(field.step(4, 4), Ok(StepResult::Continue));
    for y in 0..5u16 {
        for x in 0..5u16 {
            let expected = if (x, y) == (0, 0) { SpotState::Hidden } else { SpotState::Revealed };
            assert_eq!(state_at(&field, x, y), expected);
        }
    }
    assert!(field.is_cleared());
}

#[test]
fn flood_stops_at_numbered_spots() {
    // A wall of mines in column 3 splits the field; the numbers of column 2
    // bound the flood.
    let wall = vec![(3, 0), (3, 1), (3, 2)];
    let mut field = Minefield::with_mines_at(6, 3, &wall).unwrap();
    assert_eq!(field.step(0, 1), Ok(StepResult::Continue));
    for y in 0..3u16 {
        for x in 0..6u16 {
            let expected = if x <= 2 { SpotState::Revealed } else { SpotState::Hidden };
            assert_eq!(state_at(&field, x, y), expected);
        }
    }
    assert!(!field.is_cleared());
}

#[test]
fn flood_leaves_flags_alone_and_does_not_pass_them() {
    let mut field = Minefield::with_mines_at(7, 1, &vec![(6, 0)]).unwrap();
    assert_eq!(field.toggle_flag(2, 0), Ok(1));
    assert_eq!(field.step(0, 0), Ok(StepResult::Continue));
    let expected = [
        SpotState::Revealed,
        SpotState::Revealed,
        SpotState::Flagged,
        SpotState::Hidden,
        SpotState::Hidden,
        SpotState::Hidden,
        SpotState::Hidden,
    ];
    for x in 0..7u16 {
        assert_eq!(state_at(&field, x, 0), expected[x as usize]);
    }
}

#[test]
fn flood_goes_round_a_flag() {
    let mut field = Minefield::with_mines_at(5, 3, &vec![]).unwrap();
    assert_eq!(field.toggle_flag(2, 1), Ok(1));
    assert_eq!(field.step(0, 0), Ok(StepResult::Continue));
    assert_eq!(count_in_state(&field, SpotState::Revealed), 14);
    assert_eq!(state_at(&field, 2, 1), SpotState::Flagged);
    assert!(!field.is_cleared());
}

#[test]
fn step_on_a_numbered_spot_reveals_it_alone() {
    let mut field = Minefield::with_mines_at(5, 5, &vec![(0, 0)]).unwrap();
    assert_eq!(field.step(1, 1), Ok(StepResult::Continue));
    assert_eq!(count_in_state(&field, SpotState::Revealed), 1);
    assert_eq!(state_at(&field, 1, 1), SpotState::Revealed);
}

#[test]
fn step_on_a_mine_changes_that_spot_only() {
    let mut field = Minefield::with_mines_at(4, 4, &vec![(2, 1), (0, 3)]).unwrap();
    assert_eq!(field.toggle_flag(3, 3), Ok(1));
    assert_eq!(field.step(1, 3), Ok(StepResult::Continue));
    let before = snapshot(&field);
    assert_eq!(field.step(2, 1), Ok(StepResult::Boom));
    let after = snapshot(&field);
    for (i, (old, new)) in before.iter().zip(after.iter()).enumerate() {
        if i == 4 + 2 {
            assert_eq!(new.state(), SpotState::Exploded);
            assert_eq!(new.kind(), SpotKind::Mine);
        } else {
            assert_eq!(old, new);
        }
    }
    assert_eq!(state_at(&field, 0, 3), SpotState::Hidden);
}

#[test]
fn step_on_a_spot_that_is_not_hidden_does_nothing() {
    let mut field = Minefield::with_mines_at(3, 3, &vec![(1, 1)]).unwrap();
    assert_eq!(field.toggle_flag(1, 1), Ok(1));
    assert_eq!(field.step(0, 0), Ok(StepResult::Continue));
    let before = snapshot(&field);
    assert_eq!(field.step(1, 1), Ok(StepResult::Continue));
    assert_eq!(field.step(0, 0), Ok(StepResult::Continue));
    assert_eq!(snapshot(&field), before);
    assert_eq!(field.toggle_flag(1, 1), Ok(-1));
    assert_eq!(field.step(1, 1), Ok(StepResult::Boom));
    let exploded = snapshot(&field);
    assert_eq!(field.step(1, 1), Ok(StepResult::Continue));
    assert_eq!(snapshot(&field), exploded);
}

#[test]
fn commands_outside_the_field_are_rejected() {
    let mut field = Minefield::with_mines_at(3, 2, &vec![(1, 1)]).unwrap();
    let before = snapshot(&field);
    assert_eq!(field.step(3, 0), Err(FieldError::OutOfBounds));
    assert_eq!(field.step(0, 2), Err(FieldError::OutOfBounds));
    assert_eq!(field.toggle_flag(3, 1), Err(FieldError::OutOfBounds));
    assert_eq!(field.try_resolve_step(7, 7), Err(FieldError::OutOfBounds));
    assert_eq!(snapshot(&field), before);
}

#[test]
fn toggle_flag_is_its_own_inverse() {
    let mut field = Minefield::with_mines_at(3, 3, &vec![(1, 1)]).unwrap();
    let before = snapshot(&field);
    let first = field.toggle_flag(2, 2).unwrap();
    assert_eq!(first, 1);
    assert_eq!(state_at(&field, 2, 2), SpotState::Flagged);
    let second = field.toggle_flag(2, 2).unwrap();
    assert_eq!(second, -1);
    assert_eq!(first + second, 0);
    assert_eq!(snapshot(&field), before);
}

#[test]
fn toggle_flag_leaves_revealed_and_exploded_spots_alone() {
    let mut field = Minefield::with_mines_at(3, 3, &vec![(1, 1)]).unwrap();
    assert_eq!(field.step(0, 0), Ok(StepResult::Continue));
    assert_eq!(field.toggle_flag(0, 0), Ok(0));
    assert_eq!(state_at(&field, 0, 0), SpotState::Revealed);
    assert_eq!(field.step(1, 1), Ok(StepResult::Boom));
    assert_eq!(field.toggle_flag(1, 1), Ok(0));
    assert_eq!(state_at(&field, 1, 1), SpotState::Exploded);
}

#[test]
fn chord_needs_exactly_as_many_flags_as_the_number() {
    // (1, 1) carries a 2.
    let mines = vec![(0, 0), (2, 0)];
    let mut field = Minefield::with_mines_at(3, 3, &mines).unwrap();
    assert_eq!(kind_at(&field, 1, 1), SpotKind::Empty(2));
    assert_eq!(field.step(1, 1), Ok(StepResult::Continue));

    // One flag fewer.
    assert_eq!(field.toggle_flag(0, 0), Ok(1));
    let before = snapshot(&field);
    assert_eq!(field.try_resolve_step(1, 1), Ok(StepResult::Continue));
    assert_eq!(snapshot(&field), before);

    // One flag more.
    assert_eq!(field.toggle_flag(2, 0), Ok(1));
    assert_eq!(field.toggle_flag(1, 2), Ok(1));
    let before = snapshot(&field);
    assert_eq!(field.try_resolve_step(1, 1), Ok(StepResult::Continue));
    assert_eq!(snapshot(&field), before);

    // Exactly as many.
    assert_eq!(field.toggle_flag(1, 2), Ok(-1));
    assert_eq!(field.try_resolve_step(1, 1), Ok(StepResult::Continue));
    for y in 0..3u16 {
        for x in 0..3u16 {
            let expected = if y == 0 && x != 1 { SpotState::Flagged } else { SpotState::Revealed };
            assert_eq!(state_at(&field, x, y), expected);
        }
    }
    assert!(field.is_cleared());
}

#[test]
fn chord_on_a_wrong_flag_sets_off_the_mine() {
    let mut field = Minefield::with_mines_at(3, 3, &vec![(2, 2)]).unwrap();
    assert_eq!(field.step(1, 1), Ok(StepResult::Continue));
    assert_eq!(field.toggle_flag(0, 0), Ok(1));
    assert_eq!(field.try_resolve_step(1, 1), Ok(StepResult::Boom));
    assert_eq!(state_at(&field, 2, 2), SpotState::Exploded);
    assert_eq!(state_at(&field, 0, 0), SpotState::Flagged);
    // The neighbours before the mine were stepped on, in order.
    assert_eq!(count_in_state(&field, SpotState::Revealed), 7);
    assert_eq!(count_in_state(&field, SpotState::Hidden), 0);
}

#[test]
fn chord_stops_at_the_first_mine() {
    // (1, 1) carries a 2; the flag sits on an empty spot, so both mines are
    // hidden neighbours. The chord goes row by row and stops at (0, 0).
    let mut field = Minefield::with_mines_at(3, 3, &vec![(0, 0), (2, 2)]).unwrap();
    assert_eq!(field.step(1, 1), Ok(StepResult::Continue));
    assert_eq!(field.toggle_flag(1, 0), Ok(1));
    assert_eq!(field.toggle_flag(0, 1), Ok(1));
    assert_eq!(field.try_resolve_step(1, 1), Ok(StepResult::Boom));
    assert_eq!(state_at(&field, 0, 0), SpotState::Exploded);
    assert_eq!(state_at(&field, 2, 2), SpotState::Hidden);
    assert_eq!(count_in_state(&field, SpotState::Revealed), 1);
}

#[test]
fn chord_may_flood() {
    let mut field = Minefield::with_mines_at(6, 3, &vec![(0, 0)]).unwrap();
    assert_eq!(field.step(1, 1), Ok(StepResult::Continue));
    assert_eq!(field.toggle_flag(0, 0), Ok(1));
    assert_eq!(field.try_resolve_step(1, 1), Ok(StepResult::Continue));
    assert_eq!(count_in_state(&field, SpotState::Revealed), 17);
    assert!(field.is_cleared());
}

#[test]
fn chord_on_other_spots_does_nothing() {
    let mut field = Minefield::with_mines_at(4, 4, &vec![(0, 0)]).unwrap();
    let before = snapshot(&field);
    // Hidden.
    assert_eq!(field.try_resolve_step(1, 1), Ok(StepResult::Continue));
    assert_eq!(snapshot(&field), before);
    // Flagged.
    assert_eq!(field.toggle_flag(1, 1), Ok(1));
    assert_eq!(field.try_resolve_step(1, 1), Ok(StepResult::Continue));
    assert_eq!(state_at(&field, 1, 1), SpotState::Flagged);
    // Revealed with the number 0.
    assert_eq!(field.toggle_flag(1, 1), Ok(-1));
    assert_eq!(field.toggle_flag(3, 2), Ok(1));
    assert_eq!(field.step(3, 3), Ok(StepResult::Continue));
    let flooded = snapshot(&field);
    assert_eq!(field.try_resolve_step(3, 3), Ok(StepResult::Continue));
    assert_eq!(snapshot(&field), flooded);
}

#[test]
fn is_cleared_does_not_ask_for_flags() {
    let mut field = Minefield::with_mines_at(2, 2, &vec![(0, 0)]).unwrap();
    assert_eq!(field.step(1, 0), Ok(StepResult::Continue));
    assert_eq!(field.step(0, 1), Ok(StepResult::Continue));
    assert!(!field.is_cleared());
    assert_eq!(field.step(1, 1), Ok(StepResult::Continue));
    assert!(field.is_cleared());
    assert_eq!(field.toggle_flag(0, 0), Ok(1));
    assert!(field.is_cleared());
    assert_eq!(field.toggle_flag(0, 0), Ok(-1));
    assert!(field.is_cleared());
}

#[test]
fn is_cleared_is_false_while_an_empty_spot_is_flagged() {
    let mut field = Minefield::with_mines_at(2, 1, &vec![(0, 0)]).unwrap();
    assert_eq!(field.toggle_flag(1, 0), Ok(1));
    assert!(!field.is_cleared());
    assert_eq!(field.toggle_flag(1, 0), Ok(-1));
    assert_eq!(field.step(1, 0), Ok(StepResult::Continue));
    assert!(field.is_cleared());
}

#[test]
fn flood_covers_a_large_field() {
    let mut field = Minefield::with_mines_at(200, 150, &vec![(0, 0)]).unwrap();
    assert_eq!(field.step(199, 149), Ok(StepResult::Continue));
    assert_eq!(count_in_state(&field, SpotState::Revealed), 200 * 150 - 1);
    assert!(field.is_cleared());
}
