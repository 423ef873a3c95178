//! Telling whether a game is won, lost or still in progress.

use vstd::prelude::*;
use crate::engine::MergeEngine;
use crate::engine_laws::stuck;
use crate::grid::{has_room, lemma_empty_cells, reaches, GridState};
use crate::layout::Direction;

verus! {
/// How a game stands.
#[derive(Clone, Copy, Debug, PartialEq, Eq, Structural)]
pub enum GameStatus {
    InProgress,
    Won,
    Lost,
}

/// How a game stands on a grid: won if some tile has reached the threshold;
/// otherwise lost if the grid is full and no move changes it; otherwise in
/// progress.
pub open spec fn status_of(cells: Seq<Seq<u64>>, win_threshold: u64) -> GameStatus {
    if reaches(cells, win_threshold) {
        GameStatus::Won
    } else if !has_room(cells) && stuck(cells) {
        GameStatus::Lost
    } else {
        GameStatus::InProgress
    }
}

/// The detector of won and lost games. It holds no state.
pub struct TerminalStateDetector;

impl TerminalStateDetector {
    /// Tells how the game stands on the grid. The grid is not changed: the
    /// four moves are only tried.
    pub fn evaluate(grid: &GridState, win_threshold: u64) -> (status: GameStatus)
        requires
            grid.wf(),
        ensures
            status == status_of(grid@.cells, win_threshold),
    {
        if grid.has_tile_at_least(win_threshold) {
            return GameStatus::Won;
        }
        proof {
            grid.lemma_size_fits();
            lemma_empty_cells(grid@.cells);
        }
        if grid.empty_cells().len() > 0 {
            return GameStatus::InProgress;
        }
        if MergeEngine::slide_toward(grid, Direction::Left).changed {
            return GameStatus::InProgress;
        }
        if MergeEngine::slide_toward(grid, Direction::Right).changed {
            return GameStatus::InProgress;
        }
        if MergeEngine::slide_toward(grid, Direction::Up).changed {
            return GameStatus::InProgress;
        }
        if MergeEngine::slide_toward(grid, Direction::Down).changed {
            return GameStatus::InProgress;
        }
        GameStatus::Lost
    }
}

/// A grid with a tile that has reached the threshold is won, whatever else
/// is on it.
pub proof fn reached_threshold_wins(cells: Seq<Seq<u64>>, win_threshold: u64, row: int, col: int)
    requires
        0 <= row < cells.len(),
        0 <= col < cells[row].len(),
        cells[row][col] != 0,
        cells[row][col] >= win_threshold,
    ensures
        status_of(cells, win_threshold) == GameStatus::Won,
{
}

/// A full grid that no move changes, and on which no tile has reached the
/// threshold, is lost.
pub proof fn full_stuck_grid_is_lost(cells: Seq<Seq<u64>>, win_threshold: u64)
    requires
        !reaches(cells, win_threshold),
        !has_room(cells),
        stuck(cells),
    ensures
        status_of(cells, win_threshold) == GameStatus::Lost,
{
}

} // verus!
