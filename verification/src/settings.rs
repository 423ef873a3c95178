//! What a game is set up with, once, when it is made.

use vstd::prelude::*;
use crate::spawn::SpawnPolicy;

verus! {
/// The largest side of a grid.
pub const MAX_SIZE: usize = 256;

/// The largest threshold at which a game can be won (two to the 40th
/// power).
pub const MAX_WIN_THRESHOLD: u64 = 0x0100_0000_0000;

/// The settings of a game. They do not change while the game lasts.
#[derive(Clone, Copy, Debug, PartialEq, Eq, Structural)]
pub struct Settings {
    /// The number of rows, which is the number of columns.
    pub size: usize,
    /// The tile value with which the game is won.
    pub win_threshold: u64,
    /// The weight of a new tile of value 2.
    pub two_weight: u32,
    /// The weight of a new tile of value 4.
    pub four_weight: u32,
    /// How long a transition takes, in microseconds.
    pub animation_duration: u64,
    /// The seed of the numbers by which new tiles are chosen.
    pub seed: u64,
}

impl Settings {
    /// Whether a game can be played with the settings: the grid has 2 to
    /// `MAX_SIZE` rows, the threshold is above 4, the value of the largest
    /// new tile, and at most `MAX_WIN_THRESHOLD`, and one of the two weights
    /// is not 0.
    pub open spec fn valid(self) -> bool {
        &&& 2 <= self.size <= MAX_SIZE
        &&& 4 < self.win_threshold <= MAX_WIN_THRESHOLD
        &&& self.two_weight + self.four_weight > 0
    }

    /// The spawn policy of the settings.
    pub open spec fn spawn_policy(self) -> SpawnPolicy {
        SpawnPolicy { two_weight: self.two_weight, four_weight: self.four_weight }
    }

    /// Tells whether a game can be played with the settings.
    pub fn is_valid(&self) -> (ok: bool)
        ensures
            ok == self.valid(),
    {
        2 <= self.size && self.size <= MAX_SIZE && 4 < self.win_threshold && self.win_threshold
            <= MAX_WIN_THRESHOLD && (self.two_weight > 0 || self.four_weight > 0)
    }

    /// The spawn policy of the settings.
    pub fn policy(&self) -> (policy: SpawnPolicy)
        ensures
            policy == self.spawn_policy(),
    {
        SpawnPolicy { two_weight: self.two_weight, four_weight: self.four_weight }
    }

    /// The usual game: four rows, won at 2048, a new 2 nine times out of
    /// ten, transitions of 150 milliseconds.
    pub fn standard() -> (settings: Settings)
        ensures
            settings.valid(),
            settings == (Settings {
                size: 4,
                win_threshold: 2048,
                two_weight: 9,
                four_weight: 1,
                animation_duration: 150_000,
                seed: 0,
            }),
    {
        Settings {
            size: 4,
            win_threshold: 2048,
            two_weight: 9,
            four_weight: 1,
            animation_duration: 150_000,
            seed: 0,
        }
    }
}

impl Default for Settings {
    fn default() -> (settings: Settings)
        ensures
            settings.valid(),
            settings.size == 4,
            settings.win_threshold == 2048,
            settings.two_weight == 9,
            settings.four_weight == 1,
            settings.animation_duration == 150_000,
            settings.seed == 0,
    {
        Settings::standard()
    }
}

} // verus!
