//! A verified engine for a sliding-tile puzzle played on a square grid of
//! power-of-two tiles.
//!
//! A move slides every line of the grid toward one edge: the tiles close up,
//! equal neighbours merge once, and the merges earn the score. After a move
//! that changed the grid a new tile is spawned, and the game is won, lost or
//! goes on. A clock tells a renderer how far the transitions of the last
//! move have run.
//!
//! * [`tile`]: tile values, positions and tiles.
//! * [`sums`]: sums of a measure over the cells of a line or a grid.
//! * [`line`], [`line_laws`]: sliding one line, and what that keeps.
//! * [`layout`]: the four directions and the lines they cut a grid into.
//! * [`grid`]: the grid with its score, and its invariant.
//! * [`engine`], [`engine_laws`]: a move of the whole grid, and what it keeps.
//! * [`spawn`]: the generator of numbers and the choice of a new tile.
//! * [`detector`]: won, lost or in progress.
//! * [`clock`]: the progress of the transitions.
//! * [`settings`]: what a game is set up with.
//! * [`coordinator`]: the state machine that ties these together.

pub mod clock;
pub mod coordinator;
pub mod detector;
pub mod engine;
pub mod engine_laws;
pub mod grid;
pub mod layout;
pub mod line;
pub mod line_laws;
pub mod settings;
pub mod spawn;
pub mod sums;
pub mod tile;

pub use coordinator::{App, GridSnapshot, Phase};
pub use detector::{GameStatus, TerminalStateDetector};
pub use engine::{GameError, Intent, MergeEngine, MoveResult};
pub use grid::GridState;
pub use layout::Direction;
pub use settings::Settings;
pub use spawn::{Rng, SpawnPolicy};
pub use tile::{Position, Tile};
