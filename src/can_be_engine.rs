use vstd::prelude::*;
use crate::types::{Cell, CellState, EngineError, GameState, GameStats, MoveType, ZeroToEight};

verus! {

/// What a front end needs from a game engine. The real engine implements it,
/// and so does a fixed board for exercising front ends.
pub trait CanBeEngine: Sized {
    /// What every method keeps.
    spec fn inv(&self) -> bool;

    /// `play_move` is defined on `cell` in this state.
    spec fn accepts(&self, cell: Cell) -> bool;

    /// The board's width and height.
    fn get_size(&self) -> (i32, i32);

    /// The game's statistics and every visible cell with its state.
    fn get_board_state(&self) -> (GameStats, Vec<(Cell, CellState)>)
        requires
            self.inv(),
    ;

    /// Applies a move and returns the resulting game state.
    fn play_move(&mut self, move_type: MoveType, cell: Cell) -> (r: Result<GameState, EngineError>)
        requires
            old(self).inv(),
            old(self).accepts(cell),
        ensures
            final(self).inv(),
    ;

    /// A fresh engine for a new game of the same kind.
    fn make_clone(&self) -> (r: Self)
        requires
            self.inv(),
        ensures
            r.inv(),
    ;

    /// The risk shown around `cell`, for the hover indicator.
    fn get_chill_factor(&mut self, cell: Cell) -> (r: Result<ZeroToEight, EngineError>)
        requires
            old(self).inv(),
        ensures
            final(self).inv(),
    ;
}

} // verus!
