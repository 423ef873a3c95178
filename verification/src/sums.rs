//! Sums of a per-cell measure over a line and over a grid of cells.
//!
//! The three measures that the engine reasons with are the number of tiles,
//! the sum of their values, and the score their values account for.

use vstd::prelude::*;
use crate::tile::weight;

verus! {
/// The sum of `f` over the cells of a line.
pub open spec fn line_sum(line: Seq<u64>, f: spec_fn(u64) -> int) -> int
    decreases line.len(),
{
    if line.len() == 0 {
        0
    } else {
        line_sum(line.drop_last(), f) + f(line.last())
    }
}

/// The sum of `f` over the cells of all rows.
pub open spec fn grid_sum(rows: Seq<Seq<u64>>, f: spec_fn(u64) -> int) -> int
    decreases rows.len(),
{
    if rows.len() == 0 {
        0
    } else {
        grid_sum(rows.drop_last(), f) + line_sum(rows.last(), f)
    }
}

/// The measure that counts tiles: 1 for a tile, 0 for an empty cell.
pub open spec fn occupancy() -> spec_fn(u64) -> int {
    |v: u64| if v == 0 { 0int } else { 1int }
}

/// The measure that adds up tile values.
pub open spec fn face_value() -> spec_fn(u64) -> int {
    |v: u64| v as int
}

/// The measure that adds up the score each tile accounts for.
pub open spec fn earned() -> spec_fn(u64) -> int {
    |v: u64| weight(v as int)
}

/// A line of `n` empty cells.
pub open spec fn blanks(n: nat) -> Seq<u64> {
    Seq::new(n, |i: int| 0u64)
}

/// The line read from its far end.
pub open spec fn reversed(line: Seq<u64>) -> Seq<u64> {
    Seq::new(line.len(), |k: int| line[line.len() - 1 - k])
}

/// Whether every row has `width` cells.
pub open spec fn has_width(rows: Seq<Seq<u64>>, width: nat) -> bool {
    forall|r: int| 0 <= r < rows.len() ==> (#[trigger] rows[r]).len() == width
}

/// The columns of `rows`, each read from the top.
pub open spec fn transposed(rows: Seq<Seq<u64>>, width: nat) -> Seq<Seq<u64>> {
    Seq::new(width, |c: int| Seq::new(rows.len(), |r: int| rows[r][c]))
}

/// The sum over two lines joined is the sum of their sums.
pub proof fn lemma_line_sum_concat(a: Seq<u64>, b: Seq<u64>, f: spec_fn(u64) -> int)
    ensures
        line_sum(a + b, f) == line_sum(a, f) + line_sum(b, f),
    decreases b.len(),
{
    if b.len() > 0 {
        assert((a + b).drop_last() =~= a + b.drop_last());
        lemma_line_sum_concat(a, b.drop_last(), f);
    }
}

/// The sum over one cell is the measure of that cell.
pub proof fn lemma_line_sum_single(x: u64, f: spec_fn(u64) -> int)
    ensures
        line_sum(seq![x], f) == f(x),
{
    let one = seq![x];
    assert(line_sum(one.drop_last(), f) == 0);
}

/// A line's sum is the measure of its first cell and the sum of the rest.
pub proof fn lemma_line_sum_front(line: Seq<u64>, f: spec_fn(u64) -> int)
    requires
        line.len() > 0,
    ensures
        line_sum(line, f) == f(line[0]) + line_sum(line.skip(1), f),
{
    assert(line =~= seq![line[0]] + line.skip(1));
    lemma_line_sum_concat(seq![line[0]], line.skip(1), f);
    lemma_line_sum_single(line[0], f);
}

/// A cell added at the end adds its measure to the sum.
pub proof fn lemma_line_sum_push(line: Seq<u64>, x: u64, f: spec_fn(u64) -> int)
    ensures
        line_sum(line.push(x), f) == line_sum(line, f) + f(x),
{
    assert(line.push(x).drop_last() =~= line);
}

/// A measure that is 0 on the empty cell sums to 0 over empty cells.
pub proof fn lemma_line_sum_blanks(n: nat, f: spec_fn(u64) -> int)
    requires
        f(0) == 0,
    ensures
        line_sum(blanks(n), f) == 0,
    decreases n,
{
    if n > 0 {
        assert(blanks(n).drop_last() =~= blanks((n - 1) as nat));
        lemma_line_sum_blanks((n - 1) as nat, f);
    }
}

/// Changing one cell changes the sum by the difference of the measures.
pub proof fn lemma_line_sum_update(line: Seq<u64>, i: int, v: u64, f: spec_fn(u64) -> int)
    requires
        0 <= i < line.len(),
    ensures
        line_sum(line.update(i, v), f) == line_sum(line, f) - f(line[i]) + f(v),
    decreases line.len(),
{
    if i == line.len() - 1 {
        assert(line.update(i, v).drop_last() =~= line.drop_last());
    } else {
        assert(line.update(i, v).drop_last() =~= line.drop_last().update(i, v));
        lemma_line_sum_update(line.drop_last(), i, v, f);
    }
}

/// Reading a line from its far end does not change its sum.
pub proof fn lemma_line_sum_reversed(line: Seq<u64>, f: spec_fn(u64) -> int)
    ensures
        line_sum(reversed(line), f) == line_sum(line, f),
    decreases line.len(),
{
    if line.len() > 0 {
        let rest = line.drop_last();
        assert(reversed(line) =~= seq![line.last()] + reversed(rest));
        lemma_line_sum_concat(seq![line.last()], reversed(rest), f);
        lemma_line_sum_single(line.last(), f);
        lemma_line_sum_reversed(rest, f);
    }
}

/// With a measure that is never negative, a line's sum is not negative, and
/// at least the measure of any one cell.
pub proof fn lemma_line_sum_bounds(line: Seq<u64>, f: spec_fn(u64) -> int)
    requires
        forall|v: u64| #[trigger] f(v) >= 0,
    ensures
        line_sum(line, f) >= 0,
        forall|i: int| 0 <= i < line.len() ==> f(#[trigger] line[i]) <= line_sum(line, f),
    decreases line.len(),
{
    if line.len() > 0 {
        lemma_line_sum_bounds(line.drop_last(), f);
        assert forall|i: int| 0 <= i < line.len() implies f(#[trigger] line[i]) <= line_sum(
            line,
            f,
        ) by {
            if i < line.len() - 1 {
                assert(line.drop_last()[i] == line[i]);
            }
        }
    }
}

/// Two grids whose rows have equal sums have equal sums.
pub proof fn lemma_grid_sum_by_rows(a: Seq<Seq<u64>>, b: Seq<Seq<u64>>, f: spec_fn(u64) -> int)
    requires
        a.len() == b.len(),
        forall|r: int| 0 <= r < a.len() ==> line_sum(#[trigger] a[r], f) == line_sum(b[r], f),
    ensures
        grid_sum(a, f) == grid_sum(b, f),
    decreases a.len(),
{
    if a.len() > 0 {
        lemma_grid_sum_by_rows(a.drop_last(), b.drop_last(), f);
    }
}

/// With a measure that is never negative, a grid's sum is not negative, and
/// at least the sum of any one of its rows.
pub proof fn lemma_grid_sum_bounds(rows: Seq<Seq<u64>>, f: spec_fn(u64) -> int)
    requires
        forall|v: u64| #[trigger] f(v) >= 0,
    ensures
        grid_sum(rows, f) >= 0,
        forall|r: int| 0 <= r < rows.len() ==> line_sum(#[trigger] rows[r], f) <= grid_sum(rows, f),
    decreases rows.len(),
{
    if rows.len() > 0 {
        lemma_grid_sum_bounds(rows.drop_last(), f);
        lemma_line_sum_bounds(rows.last(), f);
        assert forall|r: int| 0 <= r < rows.len() implies line_sum(#[trigger] rows[r], f)
            <= grid_sum(rows, f) by {
            if r < rows.len() - 1 {
                assert(rows.drop_last()[r] == rows[r]);
            }
        }
    }
}

/// Changing one row changes the sum by the difference of the row sums.
pub proof fn lemma_grid_sum_update(
    rows: Seq<Seq<u64>>,
    r: int,
    row: Seq<u64>,
    f: spec_fn(u64) -> int,
)
    requires
        0 <= r < rows.len(),
    ensures
        grid_sum(rows.update(r, row), f) == grid_sum(rows, f) - line_sum(rows[r], f) + line_sum(
            row,
            f,
        ),
    decreases rows.len(),
{
    if r == rows.len() - 1 {
        assert(rows.update(r, row).drop_last() =~= rows.drop_last());
    } else {
        assert(rows.update(r, row).drop_last() =~= rows.drop_last().update(r, row));
        lemma_grid_sum_update(rows.drop_last(), r, row, f);
    }
}

/// The sum over the first `m` columns equals the sum over the first `m`
/// cells of every row.
proof fn lemma_columns_sum(rows: Seq<Seq<u64>>, width: nat, m: nat, f: spec_fn(u64) -> int)
    requires
        has_width(rows, width),
        m <= width,
    ensures
        grid_sum(transposed(rows, width).take(m as int), f) == grid_sum(
            Seq::new(rows.len(), |r: int| rows[r].take(m as int)),
            f,
        ),
    decreases rows.len(), m,
{
    let cols = transposed(rows, width);
    let cut = Seq::new(rows.len(), |r: int| rows[r].take(m as int));
    if rows.len() == 0 {
        lemma_grid_sum_blank_rows(cols.take(m as int), f);
    } else {
        let upper = rows.drop_last();
        lemma_columns_sum(upper, width, m, f);
        let upper_cols = transposed(upper, width);
        let upper_cut = Seq::new(upper.len(), |r: int| upper[r].take(m as int));
        let added = rows.last().take(m as int);
        assert forall|c: int| 0 <= c < m implies #[trigger] cols.take(m as int)[c]
            == upper_cols.take(m as int)[c].push(added[c]) by {}
        lemma_columns_grow(cols.take(m as int), upper_cols.take(m as int), added, f);
        assert(cut.drop_last() =~= upper_cut);
    }
}

proof fn lemma_grid_sum_blank_rows(rows: Seq<Seq<u64>>, f: spec_fn(u64) -> int)
    requires
        forall|r: int| 0 <= r < rows.len() ==> (#[trigger] rows[r]).len() == 0,
    ensures
        grid_sum(rows, f) == 0,
    decreases rows.len(),
{
    if rows.len() > 0 {
        lemma_grid_sum_blank_rows(rows.drop_last(), f);
    }
}

/// Lengthening every line of `short` by one cell, taken in turn from `added`,
/// raises the sum by the sum of `added`.
proof fn lemma_columns_grow(
    long: Seq<Seq<u64>>,
    short: Seq<Seq<u64>>,
    added: Seq<u64>,
    f: spec_fn(u64) -> int,
)
    requires
        long.len() == short.len(),
        added.len() == long.len(),
        forall|c: int| 0 <= c < long.len() ==> #[trigger] long[c] == short[c].push(added[c]),
    ensures
        grid_sum(long, f) == grid_sum(short, f) + line_sum(added, f),
    decreases long.len(),
{
    if long.len() > 0 {
        let n = long.len() - 1;
        lemma_columns_grow(long.drop_last(), short.drop_last(), added.drop_last(), f);
        lemma_line_sum_push(short[n], added[n], f);
    }
}

/// Reading a grid by columns does not change its sum.
pub proof fn lemma_grid_sum_transposed(rows: Seq<Seq<u64>>, width: nat, f: spec_fn(u64) -> int)
    requires
        has_width(rows, width),
    ensures
        grid_sum(transposed(rows, width), f) == grid_sum(rows, f),
{
    lemma_columns_sum(rows, width, width, f);
    assert(transposed(rows, width).take(width as int) =~= transposed(rows, width));
    assert(Seq::new(rows.len(), |r: int| rows[r].take(width as int)) =~= rows) by {
        assert forall|r: int| 0 <= r < rows.len() implies #[trigger] rows[r].take(width as int)
            == rows[r] by {}
    }
}

/// A grid of `n` rows of `width` empty cells.
pub open spec fn blank_grid(n: nat, width: nat) -> Seq<Seq<u64>> {
    Seq::new(n, |r: int| blanks(width))
}

/// A measure that is 0 on the empty cell sums to 0 over an empty grid.
pub proof fn lemma_blank_grid_sum(n: nat, width: nat, f: spec_fn(u64) -> int)
    requires
        f(0) == 0,
    ensures
        grid_sum(blank_grid(n, width), f) == 0,
    decreases n,
{
    if n > 0 {
        assert(blank_grid(n, width).drop_last() =~= blank_grid((n - 1) as nat, width));
        lemma_blank_grid_sum((n - 1) as nat, width, f);
        lemma_line_sum_blanks(width, f);
    }
}

/// With a measure that is never negative, the first `k` rows of a grid sum to
/// no more than the grid.
pub proof fn lemma_grid_sum_prefix(rows: Seq<Seq<u64>>, k: int, f: spec_fn(u64) -> int)
    requires
        forall|v: u64| #[trigger] f(v) >= 0,
        0 <= k <= rows.len(),
    ensures
        0 <= grid_sum(rows.take(k), f) <= grid_sum(rows, f),
    decreases rows.len(),
{
    lemma_grid_sum_bounds(rows.take(k), f);
    if k < rows.len() {
        assert(rows.drop_last().take(k) =~= rows.take(k));
        lemma_grid_sum_prefix(rows.drop_last(), k, f);
        lemma_line_sum_bounds(rows.last(), f);
    } else {
        assert(rows.take(k) =~= rows);
    }
}

/// With a measure that is never negative, the first `k` cells of a line sum
/// to no more than the line.
pub proof fn lemma_line_sum_prefix(line: Seq<u64>, k: int, f: spec_fn(u64) -> int)
    requires
        forall|v: u64| #[trigger] f(v) >= 0,
        0 <= k <= line.len(),
    ensures
        0 <= line_sum(line.take(k), f) <= line_sum(line, f),
{
    assert(line =~= line.take(k) + line.skip(k));
    lemma_line_sum_concat(line.take(k), line.skip(k), f);
    lemma_line_sum_bounds(line.take(k), f);
    lemma_line_sum_bounds(line.skip(k), f);
}

} // verus!
