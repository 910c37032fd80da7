use vstd::prelude::*;

verus! {

/// A board coordinate, compared and hashed by value.
#[derive(Debug, Clone, Copy, PartialEq, Eq, Hash, Structural)]
pub struct Cell {
    pub x: i32,
    pub y: i32,
}

/// The number of bombs among a cell's (at most eight) neighbours.
#[derive(Debug, Clone, Copy, PartialEq, Eq, Hash, Default, Structural)]
pub enum ZeroToEight {
    #[default]
    Zero,
    One,
    Two,
    Three,
    Four,
    Five,
    Six,
    Seven,
    Eight,
}

/// The older name of the adjacent-bomb count.
pub type AdjacentBombs = ZeroToEight;

/// What the player sees of a cell, or what the ground truth holds for it.
#[derive(Debug, Clone, Copy, PartialEq, Eq, Structural)]
pub enum CellState {
    Unchecked,
    Checked(ZeroToEight),
    Flagged,
    Bomb,
    Cross,
    Exploded,
}

#[derive(Debug, Clone, Copy, PartialEq, Eq, Structural)]
pub enum CompleteState {
    Win,
    Lose,
}

#[derive(Debug, Clone, Copy, PartialEq, Eq, Default, Structural)]
pub enum GameState {
    Initialised,
    #[default]
    Playing,
    Complete(CompleteState),
}

#[derive(Debug, Clone, Copy, PartialEq, Eq, Structural)]
pub struct GameStats {
    pub game_state: GameState,
    pub flags_remaining: i32,
    pub game_run_time: u64,
}

#[derive(Debug, Clone, Copy, PartialEq, Eq, Structural)]
pub enum MoveType {
    DigAround,
    Dig,
    Flag,
}

/// Why a move or a conversion was refused.
#[derive(Debug, Clone, Copy, PartialEq, Eq, Structural)]
pub enum EngineError {
    /// The cell lies beyond the board's declared width or height.
    OutOfRange,
    /// The bomb count cannot be placed on this board.
    InvalidConfiguration,
    /// An adjacent-bomb count above eight was asked for.
    InvariantViolation,
}

impl ZeroToEight {
    pub open spec fn value(self) -> nat {
        match self {
            ZeroToEight::Zero => 0,
            ZeroToEight::One => 1,
            ZeroToEight::Two => 2,
            ZeroToEight::Three => 3,
            ZeroToEight::Four => 4,
            ZeroToEight::Five => 5,
            ZeroToEight::Six => 6,
            ZeroToEight::Seven => 7,
            ZeroToEight::Eight => 8,
        }
    }

    pub fn from_u8(number: u8) -> (r: Result<ZeroToEight, EngineError>)
        ensures
            number <= 8 ==> r is Ok && r->Ok_0.value() == number,
            number > 8 ==> r == Err::<ZeroToEight, EngineError>(EngineError::InvariantViolation),
    {
        match number {
            0 => Ok(ZeroToEight::Zero),
            1 => Ok(ZeroToEight::One),
            2 => Ok(ZeroToEight::Two),
            3 => Ok(ZeroToEight::Three),
            4 => Ok(ZeroToEight::Four),
            5 => Ok(ZeroToEight::Five),
            6 => Ok(ZeroToEight::Six),
            7 => Ok(ZeroToEight::Seven),
            8 => Ok(ZeroToEight::Eight),
            _ => Err(EngineError::InvariantViolation),
        }
    }

    pub fn to_usize(&self) -> (r: usize)
        ensures
            r == self.value(),
    {
        match self {
            ZeroToEight::Zero => 0,
            ZeroToEight::One => 1,
            ZeroToEight::Two => 2,
            ZeroToEight::Three => 3,
            ZeroToEight::Four => 4,
            ZeroToEight::Five => 5,
            ZeroToEight::Six => 6,
            ZeroToEight::Seven => 7,
            ZeroToEight::Eight => 8,
        }
    }
}

impl From<Cell> for (i32, i32) {
    fn from(c: Cell) -> (r: (i32, i32))
        ensures
            r == (c.x, c.y),
    {
        (c.x, c.y)
    }
}

impl vstd::std_specs::convert::FromSpecImpl<Cell> for (i32, i32) {
    open spec fn obeys_from_spec() -> bool {
        true
    }

    open spec fn from_spec(c: Cell) -> (i32, i32) {
        (c.x, c.y)
    }
}

} // verus!
