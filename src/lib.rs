//! A Minesweeper game engine with verified rules.
//!
//! The engine keeps a ground truth and the board the player sees, generates
//! bombs lazily so that the first move and its neighbours are always safe,
//! opens zero-count regions by breadth-first search, and runs the dig, flag
//! and chord moves. `laws` states the properties these operations share.
mod bindings;
pub mod board;
pub mod can_be_engine;
pub mod engine;
pub mod game_type;
pub mod laws;
pub mod test_engine;
pub mod types;

pub use types::{
    AdjacentBombs, Cell, CellState, CompleteState, EngineError, GameState, GameStats, MoveType,
    ZeroToEight,
};
pub use can_be_engine::CanBeEngine;
pub use engine::{Engine, EngineView};
pub use test_engine::TestEngine;
pub use game_type::GameType;
