//! A Minesweeper engine: the grid of spots, mine placement, the reveal rules
//! with their flood fill, chording, flag bookkeeping and win/loss detection,
//! together with the session that sequences them against a one-second timer.
//!
//! Every operation carries a contract over a mathematical model of the grid
//! (see [`grid`] and [`rules`]); the laws of the game are proved of that
//! model (see [`laws`]). Contracts and laws are proved with Verus.

pub mod spot;
pub mod grid;
pub mod rules;
pub mod laws;
pub mod layout;
pub mod placement;
pub mod sampling;
pub mod minefield;
mod flood;
pub mod clock;
pub mod session;

pub use clock::AppTimer;
pub use minefield::Minefield;
pub use session::{GameConfig, GameSession, GameState};
pub use spot::{FieldError, Spot, SpotKind, SpotState, StepResult};
