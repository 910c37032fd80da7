//! A fixed board for exercising a front end without a real game.
use vstd::prelude::*;
use crate::can_be_engine::CanBeEngine;
use crate::types::{Cell, CellState, EngineError, GameState, GameStats, MoveType, ZeroToEight};

verus! {

/// Shows every cell state once until the first move, then shows nothing new.
pub struct TestEngine {
    updated: bool,
}

impl View for TestEngine {
    /// Whether a move has been played.
    type V = bool;

    closed spec fn view(&self) -> bool {
        self.updated
    }
}

/// The fixed board: (x, y) on a row of three cells per y, with counts zero to
/// eight, then an unchecked cell, a flag and a bomb.
pub open spec fn fixture_board() -> Seq<(Cell, CellState)> {
    seq![
        (Cell { x: 0, y: 0 }, CellState::Checked(ZeroToEight::Zero)),
        (Cell { x: 1, y: 0 }, CellState::Checked(ZeroToEight::One)),
        (Cell { x: 2, y: 0 }, CellState::Checked(ZeroToEight::Two)),
        (Cell { x: 0, y: 1 }, CellState::Checked(ZeroToEight::Three)),
        (Cell { x: 1, y: 1 }, CellState::Checked(ZeroToEight::Four)),
        (Cell { x: 2, y: 1 }, CellState::Checked(ZeroToEight::Five)),
        (Cell { x: 0, y: 2 }, CellState::Checked(ZeroToEight::Six)),
        (Cell { x: 1, y: 2 }, CellState::Checked(ZeroToEight::Seven)),
        (Cell { x: 2, y: 2 }, CellState::Checked(ZeroToEight::Eight)),
        (Cell { x: 0, y: 3 }, CellState::Unchecked),
        (Cell { x: 1, y: 3 }, CellState::Flagged),
        (Cell { x: 2, y: 3 }, CellState::Bomb),
    ]
}

pub open spec fn fixture_stats() -> GameStats {
    GameStats { game_state: GameState::Playing, flags_remaining: 33, game_run_time: 999 }
}

impl TestEngine {
    pub fn new() -> (r: Self)
        ensures
            !r@,
    {
        TestEngine { updated: false }
    }
}

impl CanBeEngine for TestEngine {
    open spec fn inv(&self) -> bool {
        true
    }

    open spec fn accepts(&self, cell: Cell) -> bool {
        true
    }

    fn get_size(&self) -> (r: (i32, i32))
        ensures
            r == (4i32, 3i32),
    {
        (4, 3)
    }

    fn get_board_state(&self) -> (r: (GameStats, Vec<(Cell, CellState)>))
        ensures
            r.0 == fixture_stats(),
            !self@ ==> r.1@ == fixture_board(),
            self@ ==> r.1@.len() == 0,
    {
        let stats = GameStats {
            game_state: GameState::Playing,
            flags_remaining: 33,
            game_run_time: 999,
        };
        let mut cells: Vec<(Cell, CellState)> = Vec::new();
        if !self.updated {
            cells.push((Cell { y: 0, x: 0 }, CellState::Checked(ZeroToEight::Zero)));
            cells.push((Cell { y: 0, x: 1 }, CellState::Checked(ZeroToEight::One)));
            cells.push((Cell { y: 0, x: 2 }, CellState::Checked(ZeroToEight::Two)));
            cells.push((Cell { y: 1, x: 0 }, CellState::Checked(ZeroToEight::Three)));
            cells.push((Cell { y: 1, x: 1 }, CellState::Checked(ZeroToEight::Four)));
            cells.push((Cell { y: 1, x: 2 }, CellState::Checked(ZeroToEight::Five)));
            cells.push((Cell { y: 2, x: 0 }, CellState::Checked(ZeroToEight::Six)));
            cells.push((Cell { y: 2, x: 1 }, CellState::Checked(ZeroToEight::Seven)));
            cells.push((Cell { y: 2, x: 2 }, CellState::Checked(ZeroToEight::Eight)));
            cells.push((Cell { y: 3, x: 0 }, CellState::Unchecked));
            cells.push((Cell { y: 3, x: 1 }, CellState::Flagged));
            cells.push((Cell { y: 3, x: 2 }, CellState::Bomb));
            proof {
                assert(cells@ =~= fixture_board());
            }
        }
        (stats, cells)
    }

    fn play_move(&mut self, move_type: MoveType, cell: Cell) -> (r: Result<GameState, EngineError>)
        ensures
            final(self)@,
            r == Ok::<GameState, EngineError>(GameState::Playing),
    {
        self.updated = true;
        Ok(GameState::Playing)
    }

    fn make_clone(&self) -> (r: Self)
        ensures
            !r@,
    {
        TestEngine::new()
    }

    fn get_chill_factor(&mut self, cell: Cell) -> (r: Result<ZeroToEight, EngineError>)
        ensures
            final(self)@ == old(self)@,
            r == Ok::<ZeroToEight, EngineError>(ZeroToEight::Eight),
    {
        Ok(ZeroToEight::Eight)
    }
}

} // verus!
