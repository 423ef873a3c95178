//! The four directions of travel, and how each of them cuts a square grid
//! into lines whose leading edge is index 0.

use vstd::prelude::*;
use crate::sums::{
    grid_sum, has_width, lemma_grid_sum_by_rows, lemma_grid_sum_transposed,
    lemma_line_sum_reversed, reversed, transposed,
};
use crate::tile::Position;

verus! {
/// The edge toward which the tiles travel.
#[derive(Clone, Copy, Debug, PartialEq, Eq, Structural)]
pub enum Direction {
    Left,
    Right,
    Up,
    Down,
}

/// Whether the grid has as many columns in every row as it has rows.
pub open spec fn square(cells: Seq<Seq<u64>>) -> bool {
    has_width(cells, cells.len())
}

/// The row of the cell that stands `k` cells from the leading edge of line
/// `line`, on a grid of side `n`.
pub open spec fn cell_row(d: Direction, n: int, line: int, k: int) -> int {
    match d {
        Direction::Left => line,
        Direction::Right => line,
        Direction::Up => k,
        Direction::Down => n - 1 - k,
    }
}

/// The column of the cell that stands `k` cells from the leading edge of
/// line `line`, on a grid of side `n`.
pub open spec fn cell_col(d: Direction, n: int, line: int, k: int) -> int {
    match d {
        Direction::Left => k,
        Direction::Right => n - 1 - k,
        Direction::Up => line,
        Direction::Down => line,
    }
}

/// The line through the cell at `row` and `col`.
pub open spec fn line_of(d: Direction, row: int, col: int) -> int {
    match d {
        Direction::Left => row,
        Direction::Right => row,
        Direction::Up => col,
        Direction::Down => col,
    }
}

/// How far the cell at `row` and `col` stands from the leading edge of its
/// line, on a grid of side `n`.
pub open spec fn offset_of(d: Direction, n: int, row: int, col: int) -> int {
    match d {
        Direction::Left => col,
        Direction::Right => n - 1 - col,
        Direction::Up => row,
        Direction::Down => n - 1 - row,
    }
}

/// The lines of the grid for a direction, each from its leading edge.
pub open spec fn oriented(cells: Seq<Seq<u64>>, d: Direction) -> Seq<Seq<u64>> {
    let n = cells.len();
    Seq::new(
        n,
        |line: int|
            Seq::new(n, |k: int| cells[cell_row(d, n as int, line, k)][cell_col(d, n as int, line, k)]),
    )
}

/// The grid whose lines for a direction are `lines`.
pub open spec fn restored(lines: Seq<Seq<u64>>, d: Direction) -> Seq<Seq<u64>> {
    let n = lines.len();
    Seq::new(
        n,
        |row: int|
            Seq::new(n, |col: int| lines[line_of(d, row, col)][offset_of(d, n as int, row, col)]),
    )
}

/// Every row read from its far end.
pub open spec fn mirrored(rows: Seq<Seq<u64>>) -> Seq<Seq<u64>> {
    Seq::new(rows.len(), |r: int| reversed(rows[r]))
}

proof fn lemma_grid_sum_mirrored(rows: Seq<Seq<u64>>, f: spec_fn(u64) -> int)
    ensures
        grid_sum(mirrored(rows), f) == grid_sum(rows, f),
{
    let m = mirrored(rows);
    assert forall|r: int| 0 <= r < m.len() implies crate::sums::line_sum(#[trigger] m[r], f)
        == crate::sums::line_sum(rows[r], f) by {
        lemma_line_sum_reversed(rows[r], f);
    }
    lemma_grid_sum_by_rows(m, rows, f);
}

/// Cutting a square grid into lines keeps its shape and the sum of any
/// measure over its cells.
pub proof fn lemma_oriented_sum(cells: Seq<Seq<u64>>, d: Direction, f: spec_fn(u64) -> int)
    requires
        square(cells),
    ensures
        square(oriented(cells, d)),
        oriented(cells, d).len() == cells.len(),
        grid_sum(oriented(cells, d), f) == grid_sum(cells, f),
{
    let n = cells.len();
    let lines = oriented(cells, d);
    match d {
        Direction::Left => {
            assert(lines =~= cells) by {
                assert forall|r: int| 0 <= r < n implies #[trigger] lines[r] == cells[r] by {}
            }
        },
        Direction::Right => {
            assert(lines =~= mirrored(cells)) by {
                assert forall|r: int| 0 <= r < n implies #[trigger] lines[r] == mirrored(
                    cells,
                )[r] by {}
            }
            lemma_grid_sum_mirrored(cells, f);
        },
        Direction::Up => {
            assert(lines =~= transposed(cells, n)) by {
                assert forall|c: int| 0 <= c < n implies #[trigger] lines[c] == transposed(
                    cells,
                    n,
                )[c] by {}
            }
            lemma_grid_sum_transposed(cells, n, f);
        },
        Direction::Down => {
            let t = transposed(cells, n);
            assert(lines =~= mirrored(t)) by {
                assert forall|c: int| 0 <= c < n implies #[trigger] lines[c] == mirrored(t)[c] by {}
            }
            lemma_grid_sum_transposed(cells, n, f);
            lemma_grid_sum_mirrored(t, f);
        },
    }
}

/// Putting lines back into a grid keeps the shape and the sum of any measure
/// over the cells.
pub proof fn lemma_restored_sum(lines: Seq<Seq<u64>>, d: Direction, f: spec_fn(u64) -> int)
    requires
        square(lines),
    ensures
        square(restored(lines, d)),
        restored(lines, d).len() == lines.len(),
        grid_sum(restored(lines, d), f) == grid_sum(lines, f),
{
    let n = lines.len();
    let cells = restored(lines, d);
    match d {
        Direction::Left => {
            assert(cells =~= lines) by {
                assert forall|r: int| 0 <= r < n implies #[trigger] cells[r] == lines[r] by {}
            }
        },
        Direction::Right => {
            assert(cells =~= mirrored(lines)) by {
                assert forall|r: int| 0 <= r < n implies #[trigger] cells[r] == mirrored(
                    lines,
                )[r] by {}
            }
            lemma_grid_sum_mirrored(lines, f);
        },
        Direction::Up => {
            assert(cells =~= transposed(lines, n)) by {
                assert forall|r: int| 0 <= r < n implies #[trigger] cells[r] == transposed(
                    lines,
                    n,
                )[r] by {}
            }
            lemma_grid_sum_transposed(lines, n, f);
        },
        Direction::Down => {
            let m = mirrored(lines);
            assert(cells =~= transposed(m, n)) by {
                assert forall|r: int| 0 <= r < n implies #[trigger] cells[r] == transposed(
                    m,
                    n,
                )[r] by {}
            }
            lemma_grid_sum_mirrored(lines, f);
            lemma_grid_sum_transposed(m, n, f);
        },
    }
}

/// Cutting a square grid into lines and putting them back gives the grid.
pub proof fn lemma_restored_oriented(cells: Seq<Seq<u64>>, d: Direction)
    requires
        square(cells),
    ensures
        restored(oriented(cells, d), d) == cells,
{
    let n = cells.len();
    let back = restored(oriented(cells, d), d);
    assert forall|r: int| 0 <= r < n implies #[trigger] back[r] == cells[r] by {}
}

impl Direction {
    /// The cell that stands `k` cells from the leading edge of line `line`.
    pub fn cell(self, n: usize, line: usize, k: usize) -> (at: Position)
        requires
            line < n,
            k < n,
        ensures
            at.row == cell_row(self, n as int, line as int, k as int),
            at.col == cell_col(self, n as int, line as int, k as int),
            at.row < n,
            at.col < n,
    {
        match self {
            Direction::Left => Position { row: line, col: k },
            Direction::Right => Position { row: line, col: n - 1 - k },
            Direction::Up => Position { row: k, col: line },
            Direction::Down => Position { row: n - 1 - k, col: line },
        }
    }

    /// The line through a cell, and how far the cell stands from the line's
    /// leading edge.
    pub fn slot(self, n: usize, row: usize, col: usize) -> (at: (usize, usize))
        requires
            row < n,
            col < n,
        ensures
            at.0 == line_of(self, row as int, col as int),
            at.1 == offset_of(self, n as int, row as int, col as int),
            at.0 < n,
            at.1 < n,
    {
        match self {
            Direction::Left => (row, col),
            Direction::Right => (row, n - 1 - col),
            Direction::Up => (col, row),
            Direction::Down => (col, n - 1 - row),
        }
    }
}

} // verus!
