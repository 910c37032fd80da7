use minesweeper::{
    CanBeEngine, Cell, CellState, CompleteState, Engine, EngineError, GameState, MoveType,
    ZeroToEight,
};

fn state_at(engine: &Engine, x: i32, y: i32) -> CellState {
    let (_, cells) = engine.get_board_state();
    cells
        .iter()
        .find(|(c, _)| c.x == x && c.y == y)
        .map(|(_, s)| *s)
        .expect("cell is on the board")
}

fn neighbours(width: i32, height: i32, x: i32, y: i32) -> Vec<(i32, i32)> {
    let mut out = vec![];
    for a in x - 1..x + 2 {
        for b in y - 1..y + 2 {
            if (a != x || b != y) && a >= 0 && a < width && b >= 0 && b < height {
                out.push((a, b));
            }
        }
    }
    out
}

fn count_states(engine: &Engine, wanted: &[CellState]) -> usize {
    let (_, cells) = engine.get_board_state();
    cells.iter().filter(|(_, s)| wanted.contains(s)).count()
}

/// Digs unchecked cells in order until the game ends.
fn dig_until_done(engine: &mut Engine, width: i32, height: i32) -> GameState {
    for x in 0..width {
        for y in 0..height {
            if state_at(engine, x, y) == CellState::Unchecked {
                let r = engine.play_move(MoveType::Dig, Cell { x, y }).unwrap();
                if let GameState::Complete(_) = r {
                    return r;
                }
            }
        }
    }
    engine.get_board_state().0.game_state
}

#[test]
fn new_engine_shows_an_untouched_board() {
    let engine = Engine::new(4, 3, 2);
    assert_eq!(engine.get_size(), (4, 3));
    let (stats, cells) = engine.get_board_state();
    assert_eq!(stats.game_state, GameState::Initialised);
    assert_eq!(stats.flags_remaining, 2);
    assert_eq!(stats.game_run_time, 0);
    assert_eq!(cells.len(), 12);
    assert!(cells.iter().all(|(_, s)| *s == CellState::Unchecked));
    for x in 0..4 {
        for y in 0..3 {
            assert_eq!(cells.iter().filter(|(c, _)| *c == Cell { x, y }).count(), 1);
        }
    }
}

#[test]
fn first_dig_is_always_safe_and_opens_its_neighbours() {
    for _ in 0..30 {
        let mut engine = Engine::new(10, 10, 80);
        let r = engine.play_move(MoveType::Dig, Cell { x: 5, y: 5 }).unwrap();
        assert_eq!(r, GameState::Playing);
        assert_eq!(state_at(&engine, 5, 5), CellState::Checked(ZeroToEight::Zero));
        for (a, b) in neighbours(10, 10, 5, 5) {
            assert!(matches!(state_at(&engine, a, b), CellState::Checked(_)));
        }
    }
}

#[test]
fn first_dig_in_a_corner_is_safe() {
    for _ in 0..30 {
        let mut engine = Engine::new(5, 5, 20);
        let r = engine.play_move(MoveType::Dig, Cell { x: 0, y: 0 }).unwrap();
        assert_ne!(r, GameState::Complete(CompleteState::Lose));
        assert_eq!(state_at(&engine, 0, 0), CellState::Checked(ZeroToEight::Zero));
    }
}

#[test]
fn a_lost_game_shows_exactly_the_configured_bombs() {
    for _ in 0..10 {
        let mut engine = Engine::new(8, 8, 30);
        engine.play_move(MoveType::Dig, Cell { x: 3, y: 3 }).unwrap();
        let end = dig_until_done(&mut engine, 8, 8);
        assert_eq!(end, GameState::Complete(CompleteState::Lose));
        assert_eq!(count_states(&engine, &[CellState::Exploded]), 1);
        assert_eq!(count_states(&engine, &[CellState::Bomb, CellState::Exploded]), 30);
    }
}

#[test]
fn revealed_counts_match_the_bombs_around_them() {
    for _ in 0..10 {
        let mut engine = Engine::new(8, 8, 20);
        engine.play_move(MoveType::Dig, Cell { x: 4, y: 4 }).unwrap();
        dig_until_done(&mut engine, 8, 8);
        let bombs = [CellState::Bomb, CellState::Exploded];
        for x in 0..8 {
            for y in 0..8 {
                if let CellState::Checked(n) = state_at(&engine, x, y) {
                    let around = neighbours(8, 8, x, y)
                        .into_iter()
                        .filter(|(a, b)| bombs.contains(&state_at(&engine, *a, *b)))
                        .count();
                    assert_eq!(n.to_usize(), around);
                }
            }
        }
    }
}

#[test]
fn zero_cells_never_border_a_hidden_cell() {
    for _ in 0..10 {
        let mut engine = Engine::new(12, 9, 15);
        engine.play_move(MoveType::Dig, Cell { x: 6, y: 4 }).unwrap();
        for x in 0..12 {
            for y in 0..9 {
                if state_at(&engine, x, y) == CellState::Checked(ZeroToEight::Zero) {
                    for (a, b) in neighbours(12, 9, x, y) {
                        assert!(matches!(state_at(&engine, a, b), CellState::Checked(_)));
                    }
                }
            }
        }
    }
}

#[test]
fn a_board_without_bombs_opens_whole_and_is_won() {
    let mut engine = Engine::new(6, 4, 0);
    let r = engine.play_move(MoveType::Dig, Cell { x: 2, y: 1 }).unwrap();
    assert_eq!(r, GameState::Complete(CompleteState::Win));
    let (stats, cells) = engine.get_board_state();
    assert_eq!(stats.game_state, GameState::Complete(CompleteState::Win));
    assert_eq!(stats.flags_remaining, 0);
    assert!(cells
        .iter()
        .all(|(_, s)| *s == CellState::Checked(ZeroToEight::Zero)));
}

#[test]
fn the_last_correct_flag_wins() {
    for _ in 0..20 {
        let mut engine = Engine::new(4, 1, 1);
        let r = engine.play_move(MoveType::Dig, Cell { x: 0, y: 0 }).unwrap();
        assert_eq!(r, GameState::Playing);
        let bomb_x = if state_at(&engine, 1, 0) == CellState::Checked(ZeroToEight::One) {
            2
        } else {
            3
        };
        if bomb_x == 2 {
            let r = engine.play_move(MoveType::Dig, Cell { x: 3, y: 0 }).unwrap();
            assert_eq!(r, GameState::Playing);
        }
        let r = engine.play_move(MoveType::Flag, Cell { x: bomb_x, y: 0 }).unwrap();
        assert_eq!(r, GameState::Complete(CompleteState::Win));
        assert_eq!(engine.get_board_state().0.flags_remaining, 0);
    }
}

#[test]
fn flags_on_safe_cells_become_crosses_when_lost() {
    for _ in 0..10 {
        let mut engine = Engine::new(8, 8, 10);
        engine.play_move(MoveType::Dig, Cell { x: 0, y: 0 }).unwrap();
        let mut flagged = 0;
        for x in 0..8 {
            for y in 0..8 {
                if flagged < 12 && state_at(&engine, x, y) == CellState::Unchecked {
                    engine.play_move(MoveType::Flag, Cell { x, y }).unwrap();
                    flagged += 1;
                }
            }
        }
        let end = dig_until_done(&mut engine, 8, 8);
        if end != GameState::Complete(CompleteState::Lose) {
            continue;
        }
        let shown = count_states(
            &engine,
            &[CellState::Bomb, CellState::Exploded, CellState::Flagged],
        );
        assert_eq!(shown, 10);
        let marks = count_states(&engine, &[CellState::Flagged, CellState::Cross]);
        assert_eq!(marks, flagged);
        assert_eq!(engine.get_board_state().0.flags_remaining, 10 - flagged as i32);
    }
}

#[test]
fn flagging_twice_restores_the_board() {
    let mut engine = Engine::new(5, 5, 3);
    engine.play_move(MoveType::Dig, Cell { x: 0, y: 0 }).unwrap();
    let (before_stats, before) = engine.get_board_state();
    let target = before
        .iter()
        .find(|(_, s)| *s == CellState::Unchecked)
        .map(|(c, _)| *c);
    if let Some(cell) = target {
        let r = engine.play_move(MoveType::Flag, cell).unwrap();
        assert_eq!(r, GameState::Playing);
        assert_eq!(state_at(&engine, cell.x, cell.y), CellState::Flagged);
        assert_eq!(engine.get_board_state().0.flags_remaining, 2);
        let r = engine.play_move(MoveType::Flag, cell).unwrap();
        assert_eq!(r, GameState::Playing);
        let (after_stats, after) = engine.get_board_state();
        assert_eq!(after, before);
        assert_eq!(after_stats.flags_remaining, before_stats.flags_remaining);
        assert_eq!(after_stats.game_state, before_stats.game_state);
    }
}

#[test]
fn flagging_as_first_move_generates_and_flags() {
    let mut engine = Engine::new(5, 5, 3);
    let r = engine.play_move(MoveType::Flag, Cell { x: 2, y: 2 }).unwrap();
    assert_eq!(r, GameState::Playing);
    assert_eq!(state_at(&engine, 2, 2), CellState::Flagged);
    let r = engine.play_move(MoveType::Flag, Cell { x: 2, y: 2 }).unwrap();
    assert_eq!(r, GameState::Playing);
    assert_eq!(state_at(&engine, 2, 2), CellState::Unchecked);
    assert_eq!(engine.get_board_state().0.flags_remaining, 3);
}

#[test]
fn digging_a_flag_removes_it() {
    let mut engine = Engine::new(5, 5, 3);
    engine.play_move(MoveType::Flag, Cell { x: 2, y: 2 }).unwrap();
    let r = engine.play_move(MoveType::Dig, Cell { x: 2, y: 2 }).unwrap();
    assert_eq!(r, GameState::Playing);
    assert_eq!(state_at(&engine, 2, 2), CellState::Unchecked);
    assert_eq!(engine.get_board_state().0.flags_remaining, 3);
}

#[test]
fn chord_without_enough_flags_changes_nothing() {
    for _ in 0..10 {
        let mut engine = Engine::new(9, 9, 12);
        engine.play_move(MoveType::Dig, Cell { x: 4, y: 4 }).unwrap();
        let (stats, before) = engine.get_board_state();
        let numbered = before.iter().find(|(_, s)| match s {
            CellState::Checked(n) => n.to_usize() > 0,
            _ => false,
        });
        if let Some((cell, _)) = numbered {
            let r = engine.play_move(MoveType::DigAround, *cell).unwrap();
            assert_eq!(r, GameState::Playing);
            let (after_stats, after) = engine.get_board_state();
            assert_eq!(after, before);
            assert_eq!(after_stats.flags_remaining, stats.flags_remaining);
            assert_eq!(after_stats.game_state, stats.game_state);
        }
    }
}

#[test]
fn chord_on_a_hidden_cell_changes_nothing() {
    let mut engine = Engine::new(6, 6, 5);
    let r = engine.play_move(MoveType::DigAround, Cell { x: 1, y: 1 }).unwrap();
    assert_eq!(r, GameState::Playing);
    let (stats, cells) = engine.get_board_state();
    assert!(cells.iter().all(|(_, s)| *s == CellState::Unchecked));
    assert_eq!(stats.flags_remaining, 5);
}

#[test]
fn chord_with_matching_flags_digs_the_rest() {
    for _ in 0..20 {
        let mut engine = Engine::new(4, 1, 1);
        engine.play_move(MoveType::Dig, Cell { x: 0, y: 0 }).unwrap();
        if state_at(&engine, 1, 0) != CellState::Checked(ZeroToEight::One) {
            continue;
        }
        // (1, 0) shows one bomb, which must be (2, 0); (2, 0) shows it too.
        engine.play_move(MoveType::Dig, Cell { x: 3, y: 0 }).unwrap();
        engine.play_move(MoveType::Flag, Cell { x: 2, y: 0 }).unwrap();
        let r = engine.play_move(MoveType::DigAround, Cell { x: 1, y: 0 }).unwrap();
        assert_eq!(state_at(&engine, 2, 0), CellState::Flagged);
        assert_eq!(r, GameState::Complete(CompleteState::Win));
    }
}

#[test]
fn chord_with_too_many_flags_changes_nothing() {
    for _ in 0..40 {
        let mut engine = Engine::new(5, 1, 1);
        engine.play_move(MoveType::Dig, Cell { x: 0, y: 0 }).unwrap();
        // The bomb is at (2, 0), (3, 0) or (4, 0).
        if state_at(&engine, 1, 0) != CellState::Checked(ZeroToEight::One) {
            continue;
        }
        let r = engine.play_move(MoveType::Flag, Cell { x: 3, y: 0 }).unwrap();
        assert_eq!(r, GameState::Playing);
        engine.play_move(MoveType::Dig, Cell { x: 4, y: 0 }).unwrap();
        assert_eq!(state_at(&engine, 4, 0), CellState::Checked(ZeroToEight::Zero));
        // (4, 0) shows no bomb but has the wrong flag on (3, 0) beside it.
        let before = engine.get_board_state().1;
        let r = engine.play_move(MoveType::DigAround, Cell { x: 4, y: 0 }).unwrap();
        assert_eq!(r, GameState::Playing);
        assert_eq!(engine.get_board_state().1, before);
    }
}

#[test]
fn move_past_the_board_is_out_of_range() {
    let mut engine = Engine::new(4, 3, 1);
    assert_eq!(
        engine.play_move(MoveType::Dig, Cell { x: 5, y: 0 }),
        Err(EngineError::OutOfRange)
    );
    assert_eq!(
        engine.play_move(MoveType::Flag, Cell { x: 0, y: 4 }),
        Err(EngineError::OutOfRange)
    );
    assert_eq!(
        engine.play_move(MoveType::Dig, Cell { x: -1, y: 0 }),
        Err(EngineError::OutOfRange)
    );
    assert_eq!(
        engine.play_move(MoveType::DigAround, Cell { x: 2, y: -3 }),
        Err(EngineError::OutOfRange)
    );
    let (stats, cells) = engine.get_board_state();
    assert_eq!(stats.game_state, GameState::Initialised);
    assert_eq!(stats.flags_remaining, 1);
    assert!(cells.iter().all(|(_, s)| *s == CellState::Unchecked));
}

#[test]
fn too_many_bombs_is_invalid() {
    let mut engine = Engine::new(2, 2, 4);
    assert_eq!(
        engine.play_move(MoveType::Dig, Cell { x: 0, y: 0 }),
        Err(EngineError::InvalidConfiguration)
    );
    let mut crowded = Engine::new(3, 3, 1);
    assert_eq!(
        crowded.play_move(MoveType::Dig, Cell { x: 1, y: 1 }),
        Err(EngineError::InvalidConfiguration)
    );
    assert_eq!(crowded.get_board_state().0.game_state, GameState::Initialised);
    assert!(crowded.play_move(MoveType::Dig, Cell { x: 0, y: 0 }).is_ok());
}

#[test]
fn moves_after_the_end_change_nothing() {
    let mut engine = Engine::new(3, 3, 0);
    let r = engine.play_move(MoveType::Dig, Cell { x: 1, y: 1 }).unwrap();
    assert_eq!(r, GameState::Complete(CompleteState::Win));
    let before = engine.get_board_state().1;
    for m in [MoveType::Dig, MoveType::Flag, MoveType::DigAround] {
        let r = engine.play_move(m, Cell { x: 0, y: 0 }).unwrap();
        assert_eq!(r, GameState::Complete(CompleteState::Win));
    }
    let r = engine.play_move(MoveType::Dig, Cell { x: 99, y: 99 }).unwrap();
    assert_eq!(r, GameState::Complete(CompleteState::Win));
    let (stats, after) = engine.get_board_state();
    assert_eq!(after, before);
    assert_eq!(stats.flags_remaining, 0);
}

#[test]
fn moves_after_a_loss_change_nothing() {
    let mut engine = Engine::new(6, 6, 20);
    engine.play_move(MoveType::Dig, Cell { x: 0, y: 0 }).unwrap();
    let end = dig_until_done(&mut engine, 6, 6);
    assert_eq!(end, GameState::Complete(CompleteState::Lose));
    let before = engine.get_board_state().1;
    let r = engine.play_move(MoveType::Flag, Cell { x: 5, y: 5 }).unwrap();
    assert_eq!(r, GameState::Complete(CompleteState::Lose));
    assert_eq!(engine.get_board_state().1, before);
}

#[test]
fn chill_factor_reads_the_riskiest_neighbour() {
    let mut engine = Engine::new(5, 5, 3);
    assert_eq!(engine.get_chill_factor(Cell { x: 2, y: 2 }), Ok(ZeroToEight::Zero));
    assert_eq!(
        engine.get_chill_factor(Cell { x: 5, y: 0 }),
        Err(EngineError::OutOfRange)
    );
    assert_eq!(
        engine.get_chill_factor(Cell { x: -1, y: 0 }),
        Err(EngineError::OutOfRange)
    );
    engine.play_move(MoveType::Dig, Cell { x: 0, y: 0 }).unwrap();
    dig_until_done(&mut engine, 5, 5);
    // After the loss every bomb shows: a cell next to one reads eight.
    let (_, cells) = engine.get_board_state();
    let (bomb, _) = cells
        .iter()
        .find(|(_, s)| *s == CellState::Bomb || *s == CellState::Exploded)
        .unwrap();
    assert_eq!(engine.get_chill_factor(*bomb), Ok(ZeroToEight::Eight));
    for x in 0..5 {
        for y in 0..5 {
            let mut expected = 0;
            let mut around = neighbours(5, 5, x, y);
            around.push((x, y));
            for (a, b) in around {
                let v = match state_at(&engine, a, b) {
                    CellState::Checked(n) => n.to_usize(),
                    CellState::Bomb | CellState::Exploded => 8,
                    _ => 0,
                };
                expected = expected.max(v);
            }
            let got = engine.get_chill_factor(Cell { x, y }).unwrap();
            assert_eq!(got.to_usize(), expected);
        }
    }
}

#[test]
fn make_clone_starts_a_fresh_game() {
    let mut engine = Engine::new(7, 5, 6);
    engine.play_move(MoveType::Dig, Cell { x: 3, y: 2 }).unwrap();
    let fresh = engine.make_clone();
    assert_eq!(fresh.get_size(), (7, 5));
    let (stats, cells) = fresh.get_board_state();
    assert_eq!(stats.game_state, GameState::Initialised);
    assert_eq!(stats.game_run_time, 0);
    assert_eq!(stats.flags_remaining, 6);
    assert!(cells.iter().all(|(_, s)| *s == CellState::Unchecked));
}

#[test]
fn win_and_lose_set_the_game_state() {
    let mut won = Engine::new(2, 2, 0);
    won.play_move(MoveType::Dig, Cell { x: 0, y: 0 }).unwrap();
    assert!(won.is_game_won());
    assert_eq!(won.get_board_state().0.game_state, GameState::Complete(CompleteState::Win));
    let mut fresh = Engine::new(3, 3, 0);
    assert!(!fresh.is_game_won());
    fresh.play_move(MoveType::Flag, Cell { x: 0, y: 0 }).unwrap();
    fresh.lose_game();
    let (stats, _) = fresh.get_board_state();
    assert_eq!(stats.game_state, GameState::Complete(CompleteState::Lose));
    assert_eq!(state_at(&fresh, 0, 0), CellState::Cross);
}

#[test]
fn a_matching_chord_reveals_or_explodes_the_neighbours() {
    for _ in 0..20 {
        let mut engine = Engine::new(9, 9, 15);
        engine.play_move(MoveType::Dig, Cell { x: 4, y: 4 }).unwrap();
        let (_, before) = engine.get_board_state();
        // Flag every hidden neighbour of a numbered cell whose count equals
        // the number of hidden neighbours: those are all bombs.
        let target = before.iter().find(|(c, s)| match s {
            CellState::Checked(n) => {
                let hidden = neighbours(9, 9, c.x, c.y)
                    .into_iter()
                    .filter(|(a, b)| state_at(&engine, *a, *b) == CellState::Unchecked)
                    .count();
                n.to_usize() > 0 && hidden == n.to_usize()
            }
            _ => false,
        });
        let Some((cell, _)) = target else { continue };
        for (a, b) in neighbours(9, 9, cell.x, cell.y) {
            if state_at(&engine, a, b) == CellState::Unchecked {
                engine.play_move(MoveType::Flag, Cell { x: a, y: b }).unwrap();
            }
        }
        let flags = engine.get_board_state().0.flags_remaining;
        let r = engine.play_move(MoveType::DigAround, *cell).unwrap();
        assert_ne!(r, GameState::Complete(CompleteState::Lose));
        assert_eq!(engine.get_board_state().0.flags_remaining, flags);
        for (a, b) in neighbours(9, 9, cell.x, cell.y) {
            assert_ne!(state_at(&engine, a, b), CellState::Unchecked);
        }
    }
}
