use minesweeper::{
    AdjacentBombs, CanBeEngine, Cell, CellState, EngineError, GameState, GameType, MoveType,
    ZeroToEight,
};

#[test]
fn from_u8_accepts_zero_to_eight() {
    let all = [
        ZeroToEight::Zero,
        ZeroToEight::One,
        ZeroToEight::Two,
        ZeroToEight::Three,
        ZeroToEight::Four,
        ZeroToEight::Five,
        ZeroToEight::Six,
        ZeroToEight::Seven,
        ZeroToEight::Eight,
    ];
    for (n, expected) in all.iter().enumerate() {
        assert_eq!(ZeroToEight::from_u8(n as u8), Ok(*expected));
        assert_eq!(expected.to_usize(), n);
    }
}

#[test]
fn from_u8_rejects_more_than_eight() {
    assert_eq!(ZeroToEight::from_u8(9), Err(EngineError::InvariantViolation));
    assert_eq!(ZeroToEight::from_u8(255), Err(EngineError::InvariantViolation));
}

#[test]
fn adjacent_bombs_is_the_same_count() {
    let five: AdjacentBombs = AdjacentBombs::from_u8(5).unwrap();
    assert_eq!(five.to_usize(), 5);
    assert_eq!(ZeroToEight::default(), ZeroToEight::Zero);
}

#[test]
fn presets_give_their_board_sizes() {
    let easy = GameType::Easy.new_engine();
    assert_eq!(easy.get_size(), (11, 8));
    assert_eq!(easy.get_board_state().0.flags_remaining, 12);
    let medium = GameType::Medium.new_engine();
    assert_eq!(medium.get_size(), (19, 14));
    assert_eq!(medium.get_board_state().0.flags_remaining, 45);
    let hard = GameType::Hard.new_engine();
    assert_eq!(hard.get_size(), (25, 20));
    assert_eq!(hard.get_board_state().0.flags_remaining, 100);
    assert_eq!(hard.get_board_state().1.len(), 500);
}

#[test]
fn a_full_game_on_each_preset_ends() {
    for game_type in [GameType::Easy, GameType::Medium, GameType::Hard] {
        let mut engine = game_type.new_engine();
        let (width, height) = engine.get_size();
        let r = engine.play_move(MoveType::Dig, Cell { x: width / 2, y: height / 2 });
        assert_eq!(r, Ok(GameState::Playing));
        let mut last = GameState::Playing;
        'outer: for x in 0..width {
            for y in 0..height {
                let hidden = engine
                    .get_board_state()
                    .1
                    .iter()
                    .any(|(c, s)| *c == Cell { x, y } && *s == CellState::Unchecked);
                if hidden {
                    last = engine.play_move(MoveType::Dig, Cell { x, y }).unwrap();
                    if let GameState::Complete(_) = last {
                        break 'outer;
                    }
                }
            }
        }
        assert!(matches!(last, GameState::Complete(_)));
    }
}

#[test]
fn a_cell_converts_to_its_coordinates() {
    let pair: (i32, i32) = Cell { x: 3, y: -2 }.into();
    assert_eq!(pair, (3, -2));
}
