use minesweeper::{
    CanBeEngine, Cell, CellState, GameState, MoveType, TestEngine, ZeroToEight,
};

#[test]
fn fixture_board_then_empty_after_a_move() {
    let mut engine = TestEngine::new();
    assert_eq!(engine.get_size(), (4, 3));
    let (stats, cells) = engine.get_board_state();
    assert_eq!(stats.game_state, GameState::Playing);
    assert_eq!(stats.flags_remaining, 33);
    assert_eq!(stats.game_run_time, 999);
    assert_eq!(cells.len(), 12);
    let find = |x: i32, y: i32| {
        cells
            .iter()
            .find(|(c, _)| *c == Cell { x, y })
            .map(|(_, s)| *s)
            .unwrap()
    };
    assert_eq!(find(0, 0), CellState::Checked(ZeroToEight::Zero));
    assert_eq!(find(1, 0), CellState::Checked(ZeroToEight::One));
    assert_eq!(find(2, 2), CellState::Checked(ZeroToEight::Eight));
    assert_eq!(find(0, 3), CellState::Unchecked);
    assert_eq!(find(1, 3), CellState::Flagged);
    assert_eq!(find(2, 3), CellState::Bomb);
    let r = engine.play_move(MoveType::Dig, Cell { x: 3, y: 1 });
    assert_eq!(r, Ok(GameState::Playing));
    assert!(engine.get_board_state().1.is_empty());
}

#[test]
fn fixture_clone_and_chill_factor() {
    let mut engine = TestEngine::new();
    engine.play_move(MoveType::Flag, Cell { x: 0, y: 0 }).unwrap();
    assert_eq!(engine.get_chill_factor(Cell { x: 0, y: 0 }), Ok(ZeroToEight::Eight));
    let fresh = engine.make_clone();
    assert_eq!(fresh.get_board_state().1.len(), 12);
}
