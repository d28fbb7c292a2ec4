//! The smallest unit of the game: one spot of the grid, and the outcomes of
//! the operations on it.

use vstd::prelude::*;

verus! {

/// What lies under a spot. Fixed once the field is built.
#[derive(Clone, Copy, Debug, PartialEq, Eq, Structural)]
pub enum SpotKind {
    /// A mine.
    Mine,
    /// No mine; the number counts the mines among the up to eight neighbours.
    Empty(u8),
}

/// What the player has done to a spot so far.
#[derive(Clone, Copy, Debug, PartialEq, Eq, Structural)]
pub enum SpotState {
    /// Untouched.
    Hidden,
    /// Marked by the player as a suspected mine; never revealed automatically.
    Flagged,
    /// Stepped on and found empty.
    Revealed,
    /// Stepped on and found to be a mine.
    Exploded,
}

/// One position of the grid.
#[derive(Clone, Copy, Debug, PartialEq, Eq, Structural)]
pub struct Spot {
    pub kind: SpotKind,
    pub state: SpotState,
}

/// Outcome of a reveal.
#[derive(Clone, Copy, Debug, PartialEq, Eq, Structural)]
pub enum StepResult {
    /// No mine was stepped on; the game goes on.
    Continue,
    /// A mine was stepped on.
    Boom,
}

/// Why a field could not be built, or a command was rejected.
#[derive(Clone, Copy, Debug, PartialEq, Eq, Structural)]
pub enum FieldError {
    /// The mines would leave no empty spot on the grid.
    TooManyMines,
    /// A coordinate lies outside the grid.
    OutOfBounds,
    /// The same coordinate was given twice as a mine.
    DuplicateMine,
}

impl Spot {
    /// A hidden spot of the given kind.
    pub fn new(kind: SpotKind) -> (spot: Spot)
        ensures
            spot == (Spot { kind, state: SpotState::Hidden }),
    {
        Spot { kind, state: SpotState::Hidden }
    }

    pub fn kind(&self) -> (kind: SpotKind)
        ensures
            kind == self.kind,
    {
        self.kind
    }

    pub fn state(&self) -> (state: SpotState)
        ensures
            state == self.state,
    {
        self.state
    }

    /// The same spot in another state.
    pub open spec fn with_state(self, state: SpotState) -> Spot {
        Spot { kind: self.kind, state }
    }

    /// The states a spot of this kind can be in: only a mine explodes, and
    /// only an empty spot is revealed.
    pub open spec fn consistent(self) -> bool {
        &&& self.state is Exploded ==> self.kind is Mine
        &&& self.state is Revealed ==> self.kind is Empty
        &&& self.kind matches SpotKind::Empty(n) ==> n <= 8
    }
}

} // verus!
