//! The merge engine: the move that slides every line of a grid toward one
//! edge.

use vstd::prelude::*;
use crate::engine_laws::{
    lemma_lines_measures, lemma_lines_within_limit, lemma_slide_measures, lemma_slide_valid,
    merges_upto, placed_all, score_upto, slid_cells, slide_changes, slide_merges,
    slide_score, Merge,
};
use crate::grid::{lemma_earned_bound, rows_of, GridModel, GridState};
use crate::layout::{lemma_oriented_sum, oriented, square, Direction};
use crate::line::{lemma_line_merges_range, line_merges, slid, slide_line, within_limit};
use crate::sums::{face_value, grid_sum, lemma_grid_sum_prefix};
use crate::tile::{Tile, TOTAL_LIMIT};

verus! {
/// What a player asks for: a move toward one of the four edges, or a new
/// game.
#[derive(Clone, Copy, Debug, PartialEq, Eq, Structural)]
pub enum Intent {
    MoveLeft,
    MoveRight,
    MoveUp,
    MoveDown,
    Restart,
}

/// The two ways in which a caller can misuse the engine.
#[derive(Clone, Copy, Debug, PartialEq, Eq, Structural)]
pub enum GameError {
    /// A move was asked for with something that names no direction.
    InvalidDirection,
    /// A tile was to be spawned on a grid without an empty cell.
    NoEmptyCell,
}

impl Intent {
    /// The direction that the intent names, if it names one.
    pub open spec fn heading(self) -> Option<Direction> {
        match self {
            Intent::MoveLeft => Some(Direction::Left),
            Intent::MoveRight => Some(Direction::Right),
            Intent::MoveUp => Some(Direction::Up),
            Intent::MoveDown => Some(Direction::Down),
            Intent::Restart => None,
        }
    }

    /// The direction that the intent names; `InvalidDirection` for
    /// `Restart`, which names none.
    pub fn direction(self) -> (found: Result<Direction, GameError>)
        ensures
            found == match self.heading() {
                Some(d) => Ok::<Direction, GameError>(d),
                None => Err(GameError::InvalidDirection),
            },
    {
        match self {
            Intent::MoveLeft => Ok(Direction::Left),
            Intent::MoveRight => Ok(Direction::Right),
            Intent::MoveUp => Ok(Direction::Up),
            Intent::MoveDown => Ok(Direction::Down),
            Intent::Restart => Err(GameError::InvalidDirection),
        }
    }
}

/// What a move is, mathematically.
pub struct MoveModel {
    /// The grid after the move, its score raised by `score_delta`.
    pub grid: GridModel,
    /// Whether the move changed some cell.
    pub changed: bool,
    /// The merges, line by line and within a line from the leading edge.
    pub merges: Seq<Merge>,
    /// The sum of the values of the tiles that the merges made.
    pub score_delta: nat,
}

/// The result of a move. The grid that was moved is not touched: `grid` is
/// the grid as it stands after the move, its score raised by `score_delta`.
#[derive(Debug)]
pub struct MoveResult {
    pub grid: GridState,
    pub changed: bool,
    pub merges: Vec<Merge>,
    pub score_delta: u64,
}

impl View for MoveResult {
    type V = MoveModel;

    open spec fn view(&self) -> MoveModel {
        MoveModel {
            grid: self.grid@,
            changed: self.changed,
            merges: self.merges@,
            score_delta: self.score_delta as nat,
        }
    }
}

/// The move of a grid in a direction.
pub open spec fn move_of(grid: GridModel, d: Direction) -> MoveModel {
    MoveModel {
        grid: GridModel {
            cells: slid_cells(grid.cells, d),
            score: (grid.score + slide_score(grid.cells, d)) as nat,
        },
        changed: slide_changes(grid.cells, d),
        merges: slide_merges(grid.cells, d),
        score_delta: slide_score(grid.cells, d) as nat,
    }
}

/// The engine that computes moves. It holds no state.
pub struct MergeEngine;

impl MergeEngine {
    /// The move of a grid for an intent.
    ///
    /// Fails with `InvalidDirection` if and only if the intent names no
    /// direction. The grid itself is not changed.
    pub fn slide(grid: &GridState, intent: Intent) -> (result: Result<MoveResult, GameError>)
        requires
            grid.wf(),
        ensures
            match intent.heading() {
                Some(d) => result matches Ok(moved) && moved@ == move_of(grid@, d)
                    && moved.grid.wf(),
                None => result matches Err(e) && e == GameError::InvalidDirection,
            },
    {
        match intent.direction() {
            Ok(d) => Ok(Self::slide_toward(grid, d)),
            Err(e) => Err(e),
        }
    }

    /// The move of a grid in a direction.
    ///
    /// Every line for the direction slides toward its leading edge: its
    /// tiles close up, one scan merges equal neighbours once, and the cells
    /// left over are empty. The grid itself is not changed.
    pub fn slide_toward(grid: &GridState, direction: Direction) -> (result: MoveResult)
        requires
            grid.wf(),
        ensures
            result@ == move_of(grid@, direction),
            result.grid.wf(),
    {
        let n = grid.size();
        let ghost cells = grid@.cells;
        let ghost lines = oriented(cells, direction);
        let ghost target = slid_cells(cells, direction);
        proof {
            lemma_slide_measures(cells, direction);
            lemma_slide_valid(cells, direction);
            lemma_lines_within_limit(cells, direction);
            lemma_oriented_sum(cells, direction, face_value());
            lemma_earned_bound(target);
        }
        let mut after: Vec<Vec<u64>> = Vec::new();
        let mut merges: Vec<Merge> = Vec::new();
        let mut score: u64 = 0;
        let mut line: usize = 0;
        while line < n
            invariant
                line <= n,
                n == cells.len(),
                cells == grid@.cells,
                square(cells),
                lines == oriented(cells, direction),
                lines.len() == n,
                forall|i: int| 0 <= i < n ==> within_limit(#[trigger] lines[i]),
                grid_sum(lines, face_value()) <= TOTAL_LIMIT,
                after.len() == line,
                forall|i: int| 0 <= i < line ==> (#[trigger] after@[i])@ == slid(lines[i]),
                merges@ == merges_upto(lines, direction, line as int),
                score == score_upto(lines, line as int),
            decreases n - line,
        {
            let mut row: Vec<u64> = Vec::new();
            let mut k: usize = 0;
            while k < n
                invariant
                    k <= n,
                    line < n,
                    n == cells.len(),
                    cells == grid@.cells,
                    square(cells),
                    lines == oriented(cells, direction),
                    row@ == lines[line as int].take(k as int),
                decreases n - k,
            {
                let at = direction.cell(n, line, k);
                row.push(grid.value_at(at.row, at.col));
                k += 1;
            }
            assert(row@ =~= lines[line as int]);
            let out = slide_line(&row);
            let count = out.merges.len();
            let ghost base = merges@;
            let ghost found = placed_all(
                direction,
                n as int,
                line as int,
                line_merges(lines[line as int]),
            );
            proof {
                lemma_line_merges_range(lines[line as int]);
                lemma_lines_measures(lines, direction, line + 1);
                let f = face_value();
                lemma_grid_sum_prefix(lines, line + 1, f);
            }
            let mut i: usize = 0;
            while i < count
                invariant
                    i <= count,
                    count == out.merges.len(),
                    line < n,
                    lines.len() == n,
                    lines[line as int].len() == n,
                    out.merges@ == line_merges(lines[line as int]),
                    forall|j: int|
                        0 <= j < line_merges(lines[line as int]).len() ==> {
                            let m = #[trigger] line_merges(lines[line as int])[j];
                            m.first < n && m.second < n && m.target < n
                        },
                    found == placed_all(
                        direction,
                        n as int,
                        line as int,
                        line_merges(lines[line as int]),
                    ),
                    merges@ == base + found.take(i as int),
                decreases count - i,
            {
                let m = out.merges[i];
                let first = direction.cell(n, line, m.first);
                let second = direction.cell(n, line, m.second);
                let made = direction.cell(n, line, m.target);
                merges.push(
                    Merge {
                        first,
                        second,
                        tile: Tile {
                            value: m.value,
                            row: made.row,
                            col: made.col,
                            animation_progress: 0,
                        },
                    },
                );
                i += 1;
            }
            score = score + out.score;
            after.push(out.cells);
            line += 1;
        }
        proof {
            assert forall|i: int| 0 <= i < n implies (#[trigger] slid(lines[i])).len() == n by {
                crate::line_laws::lemma_slid_sum(lines[i], face_value());
            }
        }
        let mut rows: Vec<Vec<u64>> = Vec::new();
        let mut changed = false;
        let mut r: usize = 0;
        while r < n
            invariant
                r <= n,
                n == cells.len(),
                cells == grid@.cells,
                square(cells),
                target == slid_cells(cells, direction),
                target.len() == n,
                square(target),
                lines == oriented(cells, direction),
                after.len() == n,
                forall|i: int| 0 <= i < n ==> (#[trigger] after@[i])@ == slid(lines[i]),
                forall|i: int| 0 <= i < n ==> (#[trigger] slid(lines[i])).len() == n,
                rows.len() == r,
                forall|i: int| 0 <= i < r ==> (#[trigger] rows@[i])@ == target[i],
                changed ==> target != cells,
                !changed ==> forall|i: int| 0 <= i < r ==> #[trigger] target[i] == cells[i],
            decreases n - r,
        {
            let mut row: Vec<u64> = Vec::new();
            let mut c: usize = 0;
            while c < n
                invariant
                    c <= n,
                    r < n,
                    n == cells.len(),
                    cells == grid@.cells,
                    square(cells),
                    target == slid_cells(cells, direction),
                    target.len() == n,
                    square(target),
                    lines == oriented(cells, direction),
                    after.len() == n,
                    forall|i: int| 0 <= i < n ==> (#[trigger] after@[i])@ == slid(lines[i]),
                    forall|i: int| 0 <= i < n ==> (#[trigger] slid(lines[i])).len() == n,
                    row@ == target[r as int].take(c as int),
                    changed ==> target != cells,
                    !changed ==> forall|i: int| 0 <= i < r ==> #[trigger] target[i] == cells[i],
                    !changed ==> target[r as int].take(c as int) == cells[r as int].take(c as int),
                decreases n - c,
            {
                let at = direction.slot(n, r, c);
                let value = after[at.0][at.1];
                if value != grid.value_at(r, c) {
                    changed = true;
                }
                row.push(value);
                c += 1;
                assert(!changed ==> target[r as int].take(c as int) =~= cells[r as int].take(
                    c as int,
                ));
            }
            assert(row@ =~= target[r as int]);
            rows.push(row);
            r += 1;
        }
        proof {
            assert(rows_of(rows@) =~= target);
            if !changed {
                assert(target =~= cells);
            }
        }
        let total = grid.score() + score;
        MoveResult { grid: GridState::assemble(rows, total), changed, merges, score_delta: score }
    }
}

/// Two results of the same move are alike in every part: a move is a
/// function of the grid and the direction.
pub proof fn slide_is_deterministic(
    first: MoveResult,
    second: MoveResult,
    grid: GridModel,
    d: Direction,
)
    requires
        first@ == move_of(grid, d),
        second@ == move_of(grid, d),
    ensures
        first@ == second@,
        first.grid@ == second.grid@,
        first.changed == second.changed,
        first.merges@ == second.merges@,
        first.score_delta == second.score_delta,
{
}

} // verus!
