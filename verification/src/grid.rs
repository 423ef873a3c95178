//! The grid of tiles and the running score.

use vstd::prelude::*;
use crate::layout::square;
use crate::line_laws::valid_cells;
use crate::sums::{
    blank_grid, blanks, earned, face_value, grid_sum, lemma_blank_grid_sum, lemma_grid_sum_bounds,
    lemma_grid_sum_prefix, lemma_grid_sum_update, lemma_line_sum_prefix, lemma_line_sum_update,
    line_sum, occupancy,
};
use crate::tile::{is_tile_value, valid_tile_value, weight, Position, Tile, TOTAL_LIMIT};

verus! {
/// What a grid is, mathematically: its rows of cells, each cell 0 when it is
/// empty and a tile's value otherwise, and the score.
pub struct GridModel {
    pub cells: Seq<Seq<u64>>,
    pub score: nat,
}

/// The grid of tiles and the running score.
#[derive(Debug)]
pub struct GridState {
    cells: Vec<Vec<u64>>,
    score: u64,
}

/// The rows as sequences of cells.
pub open spec fn rows_of(rows: Seq<Vec<u64>>) -> Seq<Seq<u64>> {
    Seq::new(rows.len(), |r: int| rows[r]@)
}

/// Whether every cell of the grid holds 0 or a tile value.
pub open spec fn valid_grid(cells: Seq<Seq<u64>>) -> bool {
    forall|r: int| 0 <= r < cells.len() ==> valid_cells(#[trigger] cells[r])
}

/// The number of tiles on the grid.
pub open spec fn tile_count(cells: Seq<Seq<u64>>) -> int {
    grid_sum(cells, occupancy())
}

/// The sum of the values of the tiles on the grid.
pub open spec fn total_value(cells: Seq<Seq<u64>>) -> int {
    grid_sum(cells, face_value())
}

/// The most score that can have been earned in building the tiles on the
/// grid.
pub open spec fn earned_score(cells: Seq<Seq<u64>>) -> int {
    grid_sum(cells, earned())
}

/// Whether some cell of the grid is empty.
pub open spec fn has_room(cells: Seq<Seq<u64>>) -> bool {
    exists|r: int, c: int| 0 <= r < cells.len() && 0 <= c < cells[r].len() && cells[r][c] == 0
}

/// The empty cells of row `r`, in order.
pub open spec fn empty_in_row(row: Seq<u64>, r: int) -> Seq<Position>
    decreases row.len(),
{
    if row.len() == 0 {
        Seq::empty()
    } else if row.last() == 0 {
        empty_in_row(row.drop_last(), r).push(
            Position { row: r as usize, col: (row.len() - 1) as usize },
        )
    } else {
        empty_in_row(row.drop_last(), r)
    }
}

/// The empty cells of the grid, row by row.
pub open spec fn empty_cells(cells: Seq<Seq<u64>>) -> Seq<Position>
    decreases cells.len(),
{
    if cells.len() == 0 {
        Seq::empty()
    } else {
        empty_cells(cells.drop_last()) + empty_in_row(cells.last(), cells.len() - 1)
    }
}

/// The grid with the cell at `row` and `col` set to `value`.
pub open spec fn with_cell(cells: Seq<Seq<u64>>, row: int, col: int, value: u64) -> Seq<Seq<u64>> {
    cells.update(row, cells[row].update(col, value))
}

/// The invariant of a grid: it is square, every cell holds 0 or a power of
/// two that is at least 2, the tile values add up to no more than
/// `TOTAL_LIMIT`, and the score is no more than the tiles account for.
pub open spec fn well_formed(grid: GridModel) -> bool {
    &&& square(grid.cells)
    &&& valid_grid(grid.cells)
    &&& total_value(grid.cells) <= TOTAL_LIMIT
    &&& grid.score <= earned_score(grid.cells)
}

proof fn lemma_empty_in_row(row: Seq<u64>, r: int)
    requires
        0 <= r <= usize::MAX,
        row.len() <= usize::MAX,
    ensures
        forall|i: int|
            0 <= i < empty_in_row(row, r).len() ==> {
                let at = #[trigger] empty_in_row(row, r)[i];
                at.row == r && at.col < row.len() && row[at.col as int] == 0
            },
        forall|c: int| 0 <= c < row.len() && row[c] == 0 ==> empty_in_row(row, r).len() > 0,
    decreases row.len(),
{
    if row.len() > 0 {
        let rest = row.drop_last();
        lemma_empty_in_row(rest, r);
        assert forall|i: int| 0 <= i < empty_in_row(row, r).len() implies {
            let at = #[trigger] empty_in_row(row, r)[i];
            at.row == r && at.col < row.len() && row[at.col as int] == 0
        } by {
            if i < empty_in_row(rest, r).len() {
                let at = empty_in_row(rest, r)[i];
                assert(empty_in_row(row, r)[i] == at);
                assert(rest[at.col as int] == row[at.col as int]);
            }
        }
        assert forall|c: int| 0 <= c < row.len() && row[c] == 0 implies empty_in_row(row, r).len()
            > 0 by {
            if c < rest.len() {
                assert(rest[c] == row[c]);
            }
        }
    }
}

/// Every cell that `empty_cells` lists is an empty cell of the grid, and a
/// grid with an empty cell has a list that is not empty.
pub proof fn lemma_empty_cells(cells: Seq<Seq<u64>>)
    requires
        cells.len() <= usize::MAX,
        forall|r: int| 0 <= r < cells.len() ==> (#[trigger] cells[r]).len() <= usize::MAX,
    ensures
        forall|i: int|
            0 <= i < empty_cells(cells).len() ==> {
                let at = #[trigger] empty_cells(cells)[i];
                at.row < cells.len() && at.col < cells[at.row as int].len()
                    && cells[at.row as int][at.col as int] == 0
            },
        has_room(cells) <==> empty_cells(cells).len() > 0,
    decreases cells.len(),
{
    if cells.len() > 0 {
        let rest = cells.drop_last();
        let last = cells.len() - 1;
        lemma_empty_cells(rest);
        lemma_empty_in_row(cells.last(), last);
        let head = empty_cells(rest);
        let tail = empty_in_row(cells.last(), last);
        assert forall|i: int| 0 <= i < empty_cells(cells).len() implies {
            let at = #[trigger] empty_cells(cells)[i];
            at.row < cells.len() && at.col < cells[at.row as int].len()
                && cells[at.row as int][at.col as int] == 0
        } by {
            if i < head.len() {
                let at = head[i];
                assert(empty_cells(cells)[i] == at);
                assert(rest[at.row as int] == cells[at.row as int]);
            } else {
                assert(empty_cells(cells)[i] == tail[i - head.len()]);
            }
        }
        if has_room(cells) {
            let (r, c) = choose|r: int, c: int|
                0 <= r < cells.len() && 0 <= c < cells[r].len() && cells[r][c] == 0;
            if r < last {
                assert(rest[r] == cells[r]);
                assert(has_room(rest));
            }
        }
        if empty_cells(cells).len() > 0 {
            let at = empty_cells(cells)[0];
            assert(cells[at.row as int][at.col as int] == 0);
        }
    } else {
        assert(!has_room(cells));
    }
}

/// Setting an empty cell to a tile adds one tile, the tile's value and the
/// score that the tile accounts for.
pub proof fn lemma_with_cell(cells: Seq<Seq<u64>>, row: int, col: int, value: u64)
    requires
        0 <= row < cells.len(),
        0 <= col < cells[row].len(),
        cells[row][col] == 0,
        value != 0,
    ensures
        tile_count(with_cell(cells, row, col, value)) == tile_count(cells) + 1,
        total_value(with_cell(cells, row, col, value)) == total_value(cells) + value,
        earned_score(with_cell(cells, row, col, value)) == earned_score(cells) + weight(
            value as int,
        ),
{
    let line = cells[row].update(col, value);
    lemma_grid_sum_update(cells, row, line, occupancy());
    lemma_grid_sum_update(cells, row, line, face_value());
    lemma_grid_sum_update(cells, row, line, earned());
    lemma_line_sum_update(cells[row], col, value, occupancy());
    lemma_line_sum_update(cells[row], col, value, face_value());
    lemma_line_sum_update(cells[row], col, value, earned());
}

/// The score that a tile accounts for is never negative.
pub proof fn lemma_weight_nonneg(v: int)
    requires
        v >= 0,
    ensures
        weight(v) >= 0,
{
    lemma_rank_nonneg(v);
    assert(v * crate::tile::rank(v) >= 0) by (nonlinear_arith)
        requires
            v >= 0,
            crate::tile::rank(v) >= 0,
    ;
}

proof fn lemma_rank_nonneg(v: int)
    ensures
        crate::tile::rank(v) >= 0,
    decreases v,
{
    if v > 1 {
        lemma_rank_nonneg(v / 2);
    }
}

/// The binary logarithm of a value below two to the `k`th power is below `k`.
proof fn lemma_rank_bound(v: int, k: nat)
    requires
        v < vstd::arithmetic::power2::pow2(k),
    ensures
        crate::tile::rank(v) <= k,
    decreases k,
{
    if v > 1 {
        if k == 0 {
            vstd::arithmetic::power2::lemma2_to64();
        } else {
            vstd::arithmetic::power2::lemma_pow2_unfold(k);
            lemma_rank_bound(v / 2, (k - 1) as nat);
        }
    }
}

/// A tile accounts for no more score than 64 times its value.
pub proof fn lemma_weight_bound(v: u64)
    ensures
        0 <= weight(v as int) <= 64 * v,
{
    vstd::arithmetic::power2::lemma2_to64();
    lemma_rank_bound(v as int, 64);
    lemma_rank_nonneg(v as int);
    let r = crate::tile::rank(v as int);
    assert(0 <= v * r <= 64 * v) by (nonlinear_arith)
        requires
            0 <= r <= 64,
            0 <= v,
    ;
}

proof fn lemma_line_earned_bound(line: Seq<u64>)
    ensures
        0 <= line_sum(line, earned()) <= 64 * line_sum(line, face_value()),
    decreases line.len(),
{
    if line.len() > 0 {
        lemma_line_earned_bound(line.drop_last());
        lemma_weight_bound(line.last());
    }
}

/// The tiles of a grid account for no more score than 64 times the sum of
/// their values.
pub proof fn lemma_earned_bound(cells: Seq<Seq<u64>>)
    ensures
        0 <= earned_score(cells) <= 64 * total_value(cells),
    decreases cells.len(),
{
    if cells.len() > 0 {
        lemma_earned_bound(cells.drop_last());
        lemma_line_earned_bound(cells.last());
    }
}

proof fn lemma_line_below(line: Seq<u64>, bound: u64)
    requires
        forall|i: int| 0 <= i < line.len() ==> !is_reaching(#[trigger] line[i], bound),
    ensures
        line_sum(line, face_value()) <= line.len() * bound,
    decreases line.len(),
{
    if line.len() > 0 {
        let rest = line.drop_last();
        lemma_line_below(rest, bound);
        assert((line.len() - 1) * bound + bound == line.len() * bound) by (nonlinear_arith);
    } else {
        assert(line.len() * bound == 0) by (nonlinear_arith)
            requires
                line.len() == 0,
        ;
    }
}

proof fn lemma_rows_below(rows: Seq<Seq<u64>>, width: nat, bound: u64)
    requires
        crate::sums::has_width(rows, width),
        !reaches(rows, bound),
    ensures
        grid_sum(rows, face_value()) <= rows.len() * (width * bound),
    decreases rows.len(),
{
    if rows.len() > 0 {
        let rest = rows.drop_last();
        let last = rows.len() - 1;
        if reaches(rest, bound) {
            let (r, c) = choose|r: int, c: int|
                0 <= r < rest.len() && 0 <= c < rest[r].len() && is_reaching(
                    #[trigger] rest[r][c],
                    bound,
                );
        }
        lemma_rows_below(rest, width, bound);
        lemma_line_below(rows[last], bound);
        let slab = width * bound;
        assert((rows.len() - 1) * slab + slab == rows.len() * slab) by (nonlinear_arith);
    } else {
        assert(rows.len() * (width * bound) == 0) by (nonlinear_arith)
            requires
                rows.len() == 0,
        ;
    }
}

/// On a square grid on which no tile has reached `bound`, the tile values
/// add up to no more than `bound` for every cell.
pub proof fn lemma_total_below(cells: Seq<Seq<u64>>, bound: u64)
    requires
        square(cells),
        !reaches(cells, bound),
    ensures
        total_value(cells) <= cells.len() * (cells.len() * bound),
{
    lemma_rows_below(cells, cells.len(), bound);
}

impl View for GridState {
    type V = GridModel;

    closed spec fn view(&self) -> GridModel {
        GridModel { cells: rows_of(self.cells@), score: self.score as nat }
    }
}

impl GridState {
    /// The invariant that every grid of this library meets.
    pub open spec fn wf(&self) -> bool {
        well_formed(self@)
    }

    /// The rows of a grid in memory are no more than `usize` can count.
    pub proof fn lemma_size_fits(&self)
        ensures
            self@.cells.len() <= usize::MAX,
            forall|r: int|
                0 <= r < self@.cells.len() ==> (#[trigger] self@.cells[r]).len() <= usize::MAX,
    {
        assert(self.cells@.len() == self.cells.len());
        assert forall|r: int| 0 <= r < self@.cells.len() implies (#[trigger] self@.cells[r]).len()
            <= usize::MAX by {
            assert(self.cells@[r]@.len() == self.cells@[r].len());
        }
    }

    /// A grid of `size` rows and columns with no tile and a score of 0.
    pub fn new(size: usize) -> (grid: GridState)
        ensures
            grid.wf(),
            grid@.cells == blank_grid(size as nat, size as nat),
            grid@.score == 0,
    {
        let mut cells: Vec<Vec<u64>> = Vec::new();
        let mut r: usize = 0;
        while r < size
            invariant
                r <= size,
                cells.len() == r,
                rows_of(cells@) == blank_grid(r as nat, size as nat),
            decreases size - r,
        {
            let mut row: Vec<u64> = Vec::new();
            let mut c: usize = 0;
            while c < size
                invariant
                    c <= size,
                    row@ == blanks(c as nat),
                decreases size - c,
            {
                row.push(0);
                c += 1;
            }
            let ghost before = cells@;
            cells.push(row);
            r += 1;
            proof {
                assert(rows_of(cells@) =~= blank_grid(r as nat, size as nat)) by {
                    assert forall|i: int| 0 <= i < r implies #[trigger] rows_of(cells@)[i]
                        == blank_grid(r as nat, size as nat)[i] by {
                        if i < r - 1 {
                            assert(rows_of(before)[i] == blanks(size as nat));
                        }
                    }
                }
            }
        }
        let grid = GridState { cells, score: 0 };
        proof {
            lemma_blank_grid_sum(size as nat, size as nat, face_value());
            lemma_blank_grid_sum(size as nat, size as nat, earned());
        }
        grid
    }

    /// A grid with the given rows of cells and a score of 0, where the rows
    /// make a well-formed grid: as many columns in every row as there are
    /// rows, in every cell 0 or a power of two that is at least 2, and tile
    /// values that add up to no more than `TOTAL_LIMIT`.
    pub fn from_rows(rows: Vec<Vec<u64>>) -> (grid: Option<GridState>)
        ensures
            grid is Some <==> well_formed(GridModel { cells: rows_of(rows@), score: 0 }),
            grid matches Some(g) ==> g.wf() && g@.cells == rows_of(rows@) && g@.score == 0,
    {
        let ghost cells = rows_of(rows@);
        let ghost f = face_value();
        let n = rows.len();
        let mut total: u64 = 0;
        let mut r: usize = 0;
        while r < n
            invariant
                r <= n,
                n == rows.len(),
                cells == rows_of(rows@),
                f == face_value(),
                forall|v: u64| #[trigger] f(v) >= 0,
                total == grid_sum(cells.take(r as int), f),
                total <= TOTAL_LIMIT,
                forall|i: int| 0 <= i < r ==> (#[trigger] cells[i]).len() == n,
                forall|i: int| 0 <= i < r ==> valid_cells(#[trigger] cells[i]),
            decreases n - r,
        {
            if rows[r].len() != n {
                assert(cells[r as int].len() != cells.len());
                return None;
            }
            let ghost base = total;
            let ghost row = cells[r as int];
            proof {
                lemma_grid_sum_prefix(cells, r + 1, f);
                assert(cells.take(r + 1).drop_last() =~= cells.take(r as int));
            }
            let mut c: usize = 0;
            while c < n
                invariant
                    c <= n,
                    r < n,
                    n == rows.len(),
                    n == rows@[r as int].len(),
                    cells == rows_of(rows@),
                    row == cells[r as int],
                    f == face_value(),
                    forall|v: u64| #[trigger] f(v) >= 0,
                    total == base + line_sum(row.take(c as int), f),
                    base + line_sum(row, f) <= grid_sum(cells, f),
                    total <= TOTAL_LIMIT,
                    forall|k: int| 0 <= k < c ==> crate::tile::is_cell_value(#[trigger] row[k] as int),
                decreases n - c,
            {
                let value = rows[r][c];
                proof {
                    assert(row.take(c + 1).drop_last() =~= row.take(c as int));
                    lemma_line_sum_prefix(row, c + 1, f);
                }
                if value != 0 && !valid_tile_value(value) {
                    return None;
                }
                if value > TOTAL_LIMIT - total {
                    return None;
                }
                total = total + value;
                c += 1;
            }
            proof {
                assert(row.take(n as int) =~= row);
            }
            r += 1;
        }
        proof {
            assert(cells.take(n as int) =~= cells);
            let e = earned();
            assert forall|v: u64| #[trigger] e(v) >= 0 by {
                lemma_weight_nonneg(v as int);
            }
            lemma_grid_sum_bounds(cells, e);
        }
        Some(GridState { cells: rows, score: 0 })
    }

    /// Puts a grid together from its parts.
    pub(crate) fn assemble(cells: Vec<Vec<u64>>, score: u64) -> (grid: GridState)
        requires
            well_formed(GridModel { cells: rows_of(cells@), score: score as nat }),
        ensures
            grid.wf(),
            grid@.cells == rows_of(cells@),
            grid@.score == score,
    {
        GridState { cells, score }
    }

    /// The number of rows, which is the number of columns.
    pub fn size(&self) -> (n: usize)
        ensures
            n == self@.cells.len(),
    {
        self.cells.len()
    }

    /// The score.
    pub fn score(&self) -> (score: u64)
        ensures
            score == self@.score,
    {
        self.score
    }

    /// The value in a cell: 0 when the cell is empty.
    pub fn value_at(&self, row: usize, col: usize) -> (value: u64)
        requires
            row < self@.cells.len(),
            col < self@.cells[row as int].len(),
        ensures
            value == self@.cells[row as int][col as int],
    {
        self.cells[row][col]
    }

    /// The tile in a cell, settled in place, if the cell holds one.
    pub fn tile_at(&self, row: usize, col: usize) -> (tile: Option<Tile>)
        requires
            row < self@.cells.len(),
            col < self@.cells[row as int].len(),
        ensures
            tile == if self@.cells[row as int][col as int] == 0 {
                None
            } else {
                Some(
                    Tile {
                        value: self@.cells[row as int][col as int],
                        row,
                        col,
                        animation_progress: 0,
                    },
                )
            },
    {
        let value = self.cells[row][col];
        if value == 0 {
            None
        } else {
            Some(Tile { value, row, col, animation_progress: 0 })
        }
    }

    /// A copy of the rows of cells.
    pub fn rows(&self) -> (rows: Vec<Vec<u64>>)
        ensures
            rows_of(rows@) == self@.cells,
    {
        let mut rows: Vec<Vec<u64>> = Vec::new();
        let mut r: usize = 0;
        while r < self.cells.len()
            invariant
                r <= self.cells.len(),
                rows.len() == r,
                forall|i: int| 0 <= i < r ==> (#[trigger] rows@[i])@ == self.cells@[i]@,
            decreases self.cells.len() - r,
        {
            let mut row: Vec<u64> = Vec::new();
            let mut c: usize = 0;
            while c < self.cells[r].len()
                invariant
                    r < self.cells.len(),
                    c <= self.cells@[r as int].len(),
                    row@ == self.cells@[r as int]@.take(c as int),
                decreases self.cells@[r as int].len() - c,
            {
                row.push(self.cells[r][c]);
                c += 1;
            }
            rows.push(row);
            r += 1;
        }
        rows
    }

    /// The empty cells, row by row.
    pub fn empty_cells(&self) -> (cells: Vec<Position>)
        ensures
            cells@ == empty_cells(self@.cells),
    {
        let mut found: Vec<Position> = Vec::new();
        let mut r: usize = 0;
        while r < self.cells.len()
            invariant
                r <= self.cells.len(),
                found@ == empty_cells(self@.cells.take(r as int)),
            decreases self.cells.len() - r,
        {
            let ghost head = found@;
            let mut c: usize = 0;
            while c < self.cells[r].len()
                invariant
                    r < self.cells.len(),
                    c <= self.cells@[r as int].len(),
                    found@ == head + empty_in_row(self.cells@[r as int]@.take(c as int), r as int),
                decreases self.cells@[r as int].len() - c,
            {
                proof {
                    let row = self.cells@[r as int]@;
                    assert(row.take(c + 1).drop_last() =~= row.take(c as int));
                    assert(head + empty_in_row(row.take(c as int), r as int).push(
                        Position { row: r, col: c },
                    ) =~= (head + empty_in_row(row.take(c as int), r as int)).push(
                        Position { row: r, col: c },
                    ));
                }
                if self.cells[r][c] == 0 {
                    found.push(Position { row: r, col: c });
                }
                c += 1;
            }
            proof {
                let row = self.cells@[r as int]@;
                assert(row.take(row.len() as int) =~= row);
                let upto = self@.cells.take(r + 1);
                assert(upto.drop_last() =~= self@.cells.take(r as int));
            }
            r += 1;
        }
        assert(self@.cells.take(r as int) =~= self@.cells);
        found
    }

    /// Tells whether some tile has a value of at least `threshold`.
    pub fn has_tile_at_least(&self, threshold: u64) -> (found: bool)
        ensures
            found == reaches(self@.cells, threshold),
    {
        let mut r: usize = 0;
        while r < self.cells.len()
            invariant
                r <= self.cells.len(),
                !reaches(self@.cells.take(r as int), threshold),
            decreases self.cells.len() - r,
        {
            let mut c: usize = 0;
            while c < self.cells[r].len()
                invariant
                    r < self.cells.len(),
                    c <= self.cells@[r as int].len(),
                    forall|k: int|
                        0 <= k < c ==> !is_reaching(
                            #[trigger] self.cells@[r as int]@[k],
                            threshold,
                        ),
                decreases self.cells@[r as int].len() - c,
            {
                let value = self.cells[r][c];
                if value != 0 && value >= threshold {
                    assert(self@.cells[r as int][c as int] == value);
                    return true;
                }
                c += 1;
            }
            proof {
                let upto = self@.cells.take(r + 1);
                if reaches(upto, threshold) {
                    let (i, k) = choose|i: int, k: int|
                        0 <= i < upto.len() && 0 <= k < upto[i].len() && is_reaching(
                            upto[i][k],
                            threshold,
                        );
                }
            }
            r += 1;
        }
        assert(self@.cells.take(r as int) =~= self@.cells);
        false
    }

    /// Puts a tile into an empty cell.
    pub fn place(&mut self, tile: Tile)
        requires
            old(self).wf(),
            tile.row < old(self)@.cells.len(),
            tile.col < old(self)@.cells.len(),
            old(self)@.cells[tile.row as int][tile.col as int] == 0,
            is_tile_value(tile.value as int),
            total_value(old(self)@.cells) + tile.value <= TOTAL_LIMIT,
        ensures
            final(self).wf(),
            final(self)@.cells == with_cell(
                old(self)@.cells,
                tile.row as int,
                tile.col as int,
                tile.value,
            ),
            final(self)@.score == old(self)@.score,
    {
        let ghost before = self@.cells;
        let n = self.cells.len();
        let mut row: Vec<u64> = Vec::new();
        let mut c: usize = 0;
        while c < n
            invariant
                c <= n,
                n == self.cells@[tile.row as int].len(),
                tile.row < self.cells.len(),
                tile.col < n,
                row@ == self.cells@[tile.row as int]@.update(tile.col as int, tile.value).take(
                    c as int,
                ),
            decreases n - c,
        {
            if c == tile.col {
                row.push(tile.value);
            } else {
                row.push(self.cells[tile.row][c]);
            }
            c += 1;
            assert(row@ =~= self.cells@[tile.row as int]@.update(
                tile.col as int,
                tile.value,
            ).take(c as int));
        }
        assert(row@ =~= before[tile.row as int].update(tile.col as int, tile.value));
        self.cells.set(tile.row, row);
        proof {
            let after = with_cell(before, tile.row as int, tile.col as int, tile.value);
            assert(self@.cells =~= after);
            lemma_with_cell(before, tile.row as int, tile.col as int, tile.value);
            lemma_weight_nonneg(tile.value as int);
        }
    }
}

/// Whether a cell holds a tile of at least `threshold`.
pub open spec fn is_reaching(value: u64, threshold: u64) -> bool {
    value != 0 && value >= threshold
}

/// Whether some tile of the grid has a value of at least `threshold`.
pub open spec fn reaches(cells: Seq<Seq<u64>>, threshold: u64) -> bool {
    exists|r: int, c: int|
        0 <= r < cells.len() && 0 <= c < cells[r].len() && is_reaching(
            #[trigger] cells[r][c],
            threshold,
        )
}

} // verus!
