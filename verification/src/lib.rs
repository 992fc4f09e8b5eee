//! A verified Minesweeper minefield engine.
//!
//! The library models a rectangular grid of spots, each a mine or an empty
//! cell carrying its neighboring-mine count, together with the player-facing
//! operations: random mine placement, stepping (with flood reveal), chorded
//! auto-stepping, flag toggling, and win detection.  The behaviour of every
//! operation is pinned down by the spec functions of [`model`].

pub mod game;
pub mod laws;
pub mod minefield;
pub mod model;
mod rng;
pub mod spot;

pub use game::{
    DifficultyLevel, GameConfig, GameDifficulty, GamePersistence, HighScoreLocation, Message,
    MinesweepMessage, PersistenceMessage, RecordHighScore, Score, SettingsMessage,
};
pub use minefield::Minefield;
pub use spot::{FlagToggleResult, Spot, SpotKind, SpotState, StepResult};
