use vstd::prelude::*;

verus! {

/// What a spot of the minefield holds.
#[derive(Copy, Clone, PartialEq, Eq, Structural, Debug)]
pub enum SpotKind {
    /// This spot is a mine
    Mine,
    /// This is an empty spot, surrounded by the given number of mines
    Empty(u32),
}

/// The visibility state of a spot, as driven by player actions.
#[derive(Copy, Clone, PartialEq, Eq, Structural, Debug)]
pub enum SpotState {
    /// This spot has not been visited
    Hidden,
    /// This spot has been visited
    Revealed,
    /// This spot has been flagged as being a mine
    Flagged,
    /// This spot is an exploded mine
    Exploded,
}

/// One cell of the minefield: a kind, fixed at placement time, and a
/// visibility state, mutated by player actions.
#[derive(Copy, Clone, PartialEq, Eq, Structural, Debug)]
pub struct Spot {
    pub kind: SpotKind,
    pub state: SpotState,
}

impl Spot {
    /// The kind of this spot.
    pub fn kind(&self) -> (k: SpotKind)
        ensures
            k == self.kind,
    {
        self.kind
    }

    /// The visibility state of this spot.
    pub fn state(&self) -> (s: SpotState)
        ensures
            s == self.state,
    {
        self.state
    }
}

impl Default for Spot {
    /// A fresh spot: empty with no neighboring mines, still hidden.
    fn default() -> (s: Self)
        ensures
            s == (Spot { kind: SpotKind::Empty(0), state: SpotState::Hidden }),
    {
        Spot { kind: SpotKind::Empty(0), state: SpotState::Hidden }
    }
}

/// The result of stepping on a spot of the minefield.
#[derive(Copy, Clone, PartialEq, Eq, Structural, Debug)]
pub enum StepResult {
    /// Stepped on an empty spot
    Phew,
    /// Stepped on a mine
    Boom,
    /// Step not taken
    Invalid,
}

/// The result of toggling a flag on a spot of the minefield.
#[derive(Copy, Clone, PartialEq, Eq, Structural, Debug)]
pub enum FlagToggleResult {
    /// An existing flag was removed
    Removed,
    /// A flag was added
    Added,
    /// No flag was placed or removed
    NoChange,
}

} // verus!
