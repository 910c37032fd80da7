//! The difficulty presets a new game can be started with.
use vstd::prelude::*;
use crate::engine::Engine;
use crate::types::{CellState, GameState};

verus! {

#[derive(Debug, Clone, Copy, PartialEq, Eq, Hash, Structural)]
pub enum GameType {
    Easy,
    Medium,
    Hard,
}

impl GameType {
    /// Width, height and bomb count of the preset.
    pub open spec fn spec_dimensions(self) -> (int, int, int) {
        match self {
            GameType::Easy => (11, 8, 12),
            GameType::Medium => (19, 14, 45),
            GameType::Hard => (25, 20, 100),
        }
    }

    /// A fresh engine for a game of this kind.
    pub fn new_engine(&self) -> (r: Engine)
        ensures
            r@.wf(),
            (r@.width, r@.height, r@.bomb_count) == self.spec_dimensions(),
            r@.game_state == GameState::Initialised,
            !r@.initialised,
            forall|i: int| 0 <= i < r@.total_cells ==> r@.play[i] == CellState::Unchecked,
    {
        match self {
            GameType::Easy => Engine::new(11, 8, 12),
            GameType::Medium => Engine::new(19, 14, 45),
            GameType::Hard => Engine::new(25, 20, 100),
        }
    }
}

} // verus!
