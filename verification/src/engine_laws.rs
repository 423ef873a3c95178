//! What a move is, as a function of the grid and the direction, and what it
//! keeps and changes.

use vstd::prelude::*;
use crate::grid::{earned_score, has_room, tile_count, total_value, valid_grid};
use crate::layout::{
    cell_col, cell_row, lemma_oriented_sum, lemma_restored_oriented, lemma_restored_sum, line_of,
    offset_of, oriented, restored, square, Direction,
};
use crate::line::{line_merges, line_score, merges_value, slid, within_limit, LineMerge};
use crate::line_laws::{
    lemma_changed_line_has_room, lemma_slid_measures, lemma_slid_sum, lemma_slid_values,
    settled, settled_line_stays, unchanged_line_was_settled, valid_cells,
};
use crate::sums::{earned, face_value, grid_sum, lemma_grid_sum_bounds, occupancy};
use crate::tile::{Position, Tile, TOTAL_LIMIT};

verus! {
/// One merge of a move: the cells of the two tiles that were consumed, the
/// one nearer to the leading edge first, and the tile that they made.
#[derive(Clone, Copy, Debug, PartialEq, Eq, Structural)]
pub struct Merge {
    pub first: Position,
    pub second: Position,
    pub tile: Tile,
}

/// Every line after sliding.
pub open spec fn slid_lines(lines: Seq<Seq<u64>>) -> Seq<Seq<u64>> {
    Seq::new(lines.len(), |line: int| slid(lines[line]))
}

/// The cells of the grid after a move: each line for the direction slides
/// toward its leading edge.
pub open spec fn slid_cells(cells: Seq<Seq<u64>>, d: Direction) -> Seq<Seq<u64>> {
    restored(slid_lines(oriented(cells, d)), d)
}

/// A merge of line `line`, in the cells of a grid of side `n`.
pub open spec fn placed(d: Direction, n: int, line: int, m: LineMerge) -> Merge {
    Merge {
        first: Position {
            row: cell_row(d, n, line, m.first as int) as usize,
            col: cell_col(d, n, line, m.first as int) as usize,
        },
        second: Position {
            row: cell_row(d, n, line, m.second as int) as usize,
            col: cell_col(d, n, line, m.second as int) as usize,
        },
        tile: Tile {
            value: m.value,
            row: cell_row(d, n, line, m.target as int) as usize,
            col: cell_col(d, n, line, m.target as int) as usize,
            animation_progress: 0,
        },
    }
}

/// The merges of line `line`, in the cells of a grid of side `n`.
pub open spec fn placed_all(d: Direction, n: int, line: int, merges: Seq<LineMerge>) -> Seq<
    Merge,
> {
    Seq::new(merges.len(), |i: int| placed(d, n, line, merges[i]))
}

/// The merges of the first `upto` lines, line by line.
pub open spec fn merges_upto(lines: Seq<Seq<u64>>, d: Direction, upto: int) -> Seq<Merge>
    decreases upto,
{
    if upto <= 0 {
        Seq::empty()
    } else {
        merges_upto(lines, d, upto - 1) + placed_all(
            d,
            lines.len() as int,
            upto - 1,
            line_merges(lines[upto - 1]),
        )
    }
}

/// The score that sliding the first `upto` lines earns.
pub open spec fn score_upto(lines: Seq<Seq<u64>>, upto: int) -> int
    decreases upto,
{
    if upto <= 0 {
        0
    } else {
        score_upto(lines, upto - 1) + line_score(lines[upto - 1])
    }
}

/// The merges of a move, line by line and within a line from the leading
/// edge.
pub open spec fn slide_merges(cells: Seq<Seq<u64>>, d: Direction) -> Seq<Merge> {
    merges_upto(oriented(cells, d), d, cells.len() as int)
}

/// The score that a move earns: the sum of the values of the tiles that its
/// merges make.
pub open spec fn slide_score(cells: Seq<Seq<u64>>, d: Direction) -> int {
    score_upto(oriented(cells, d), cells.len() as int)
}

/// The sum of the values of the tiles that the merges made.
pub open spec fn merged_value(merges: Seq<Merge>) -> int
    decreases merges.len(),
{
    if merges.len() == 0 {
        0
    } else {
        merged_value(merges.drop_last()) + merges.last().tile.value
    }
}

/// Whether a move in the direction changes some cell of the grid.
pub open spec fn slide_changes(cells: Seq<Seq<u64>>, d: Direction) -> bool {
    slid_cells(cells, d) != cells
}

/// Whether no move in any direction changes the grid.
pub open spec fn stuck(cells: Seq<Seq<u64>>) -> bool {
    &&& !slide_changes(cells, Direction::Left)
    &&& !slide_changes(cells, Direction::Right)
    &&& !slide_changes(cells, Direction::Up)
    &&& !slide_changes(cells, Direction::Down)
}

/// On a grid within the limit, every line is within the limit.
pub proof fn lemma_lines_within_limit(cells: Seq<Seq<u64>>, d: Direction)
    requires
        square(cells),
        total_value(cells) <= TOTAL_LIMIT,
    ensures
        forall|line: int|
            0 <= line < cells.len() ==> within_limit(#[trigger] oriented(cells, d)[line]),
{
    let f = face_value();
    lemma_oriented_sum(cells, d, f);
    lemma_grid_sum_bounds(oriented(cells, d), f);
}

/// What sliding the first `upto` lines does to the number of tiles, to the
/// sum of their values and to the score they account for.
pub proof fn lemma_lines_measures(lines: Seq<Seq<u64>>, d: Direction, upto: int)
    requires
        0 <= upto <= lines.len(),
        forall|line: int| 0 <= line < lines.len() ==> within_limit(#[trigger] lines[line]),
    ensures
        grid_sum(slid_lines(lines).take(upto), occupancy()) == grid_sum(
            lines.take(upto),
            occupancy(),
        ) - merges_upto(lines, d, upto).len(),
        grid_sum(slid_lines(lines).take(upto), face_value()) == grid_sum(
            lines.take(upto),
            face_value(),
        ),
        grid_sum(slid_lines(lines).take(upto), earned()) == grid_sum(lines.take(upto), earned())
            + score_upto(lines, upto),
        0 <= score_upto(lines, upto) <= grid_sum(lines.take(upto), face_value()),
    decreases upto,
{
    if upto > 0 {
        lemma_lines_measures(lines, d, upto - 1);
        let line = lines[upto - 1];
        lemma_slid_measures(line);
        assert(lines.take(upto).drop_last() =~= lines.take(upto - 1));
        assert(slid_lines(lines).take(upto).drop_last() =~= slid_lines(lines).take(upto - 1));
    }
}

/// A move loses one tile for each merge, keeps the sum of the tile values,
/// and raises the score that the tiles account for by the score it earns.
pub proof fn lemma_slide_measures(cells: Seq<Seq<u64>>, d: Direction)
    requires
        square(cells),
        total_value(cells) <= TOTAL_LIMIT,
    ensures
        square(slid_cells(cells, d)),
        slid_cells(cells, d).len() == cells.len(),
        tile_count(slid_cells(cells, d)) == tile_count(cells) - slide_merges(cells, d).len(),
        total_value(slid_cells(cells, d)) == total_value(cells),
        earned_score(slid_cells(cells, d)) == earned_score(cells) + slide_score(cells, d),
        0 <= slide_score(cells, d) <= total_value(cells),
{
    let n = cells.len() as int;
    let lines = oriented(cells, d);
    let after = slid_lines(lines);
    lemma_oriented_sum(cells, d, occupancy());
    lemma_oriented_sum(cells, d, face_value());
    lemma_oriented_sum(cells, d, earned());
    lemma_lines_within_limit(cells, d);
    lemma_lines_measures(lines, d, n);
    assert(lines.take(n) =~= lines);
    assert(after.take(n) =~= after);
    assert(square(after)) by {
        assert forall|line: int| 0 <= line < after.len() implies (#[trigger] after[line]).len()
            == after.len() by {
            lemma_slid_sum(lines[line], occupancy());
        }
    }
    lemma_restored_sum(after, d, occupancy());
    lemma_restored_sum(after, d, face_value());
    lemma_restored_sum(after, d, earned());
}

/// A move on a grid of valid cells gives a grid of valid cells.
pub proof fn lemma_slide_valid(cells: Seq<Seq<u64>>, d: Direction)
    requires
        square(cells),
        valid_grid(cells),
        total_value(cells) <= TOTAL_LIMIT,
    ensures
        valid_grid(slid_cells(cells, d)),
{
    let n = cells.len() as int;
    let lines = oriented(cells, d);
    let after = slid_lines(lines);
    let out = slid_cells(cells, d);
    lemma_lines_within_limit(cells, d);
    assert forall|line: int| 0 <= line < n implies valid_cells(#[trigger] after[line])
        && after[line].len() == n by {
        assert(valid_cells(lines[line])) by {
            assert forall|k: int| 0 <= k < lines[line].len() implies crate::tile::is_cell_value(
                #[trigger] lines[line][k] as int,
            ) by {
                let r = cell_row(d, n, line, k);
                let c = cell_col(d, n, line, k);
            }
        }
        lemma_slid_values(lines[line]);
        lemma_slid_sum(lines[line], occupancy());
    }
    assert forall|r: int| 0 <= r < out.len() implies valid_cells(#[trigger] out[r]) by {
        assert forall|c: int| 0 <= c < out[r].len() implies crate::tile::is_cell_value(
            #[trigger] out[r][c] as int,
        ) by {
        }
    }
}

/// A move that changes the grid leaves an empty cell on it.
pub proof fn lemma_changed_has_room(cells: Seq<Seq<u64>>, d: Direction)
    requires
        square(cells),
        slide_changes(cells, d),
    ensures
        has_room(slid_cells(cells, d)),
{
    let n = cells.len() as int;
    let lines = oriented(cells, d);
    let after = slid_lines(lines);
    let out = slid_cells(cells, d);
    lemma_oriented_sum(cells, d, occupancy());
    lemma_restored_oriented(cells, d);
    if forall|line: int| 0 <= line < n ==> slid(#[trigger] lines[line]) == lines[line] {
        assert(after =~= lines);
    }
    let line = choose|line: int| 0 <= line < n && slid(#[trigger] lines[line]) != lines[line];
    lemma_changed_line_has_room(lines[line]);
    lemma_slid_sum(lines[line], occupancy());
    let r = cell_row(d, n, line, n - 1);
    let c = cell_col(d, n, line, n - 1);
    assert(out[r][c] == after[line][n - 1]);
}

/// A move toward an edge at which every line is already settled changes
/// nothing.
pub proof fn settled_grid_stays(cells: Seq<Seq<u64>>, d: Direction)
    requires
        square(cells),
        forall|line: int| 0 <= line < cells.len() ==> settled(#[trigger] oriented(cells, d)[line]),
    ensures
        !slide_changes(cells, d),
{
    let lines = oriented(cells, d);
    assert forall|line: int| 0 <= line < lines.len() implies slid(#[trigger] lines[line])
        == lines[line] by {
        settled_line_stays(lines[line]);
    }
    assert(slid_lines(lines) =~= lines);
    lemma_restored_oriented(cells, d);
}

proof fn lemma_merged_value_concat(a: Seq<Merge>, b: Seq<Merge>)
    ensures
        merged_value(a + b) == merged_value(a) + merged_value(b),
    decreases b.len(),
{
    if b.len() > 0 {
        assert((a + b).drop_last() =~= a + b.drop_last());
        lemma_merged_value_concat(a, b.drop_last());
    }
}

proof fn lemma_placed_value(d: Direction, n: int, line: int, merges: Seq<LineMerge>)
    ensures
        merged_value(placed_all(d, n, line, merges)) == merges_value(merges),
    decreases merges.len(),
{
    if merges.len() > 0 {
        assert(placed_all(d, n, line, merges).drop_last() =~= placed_all(
            d,
            n,
            line,
            merges.drop_last(),
        ));
        lemma_placed_value(d, n, line, merges.drop_last());
    }
}

proof fn lemma_value_upto(lines: Seq<Seq<u64>>, d: Direction, upto: int)
    ensures
        merged_value(merges_upto(lines, d, upto)) == score_upto(lines, upto),
    decreases upto,
{
    if upto > 0 {
        lemma_value_upto(lines, d, upto - 1);
        let found = placed_all(d, lines.len() as int, upto - 1, line_merges(lines[upto - 1]));
        lemma_merged_value_concat(merges_upto(lines, d, upto - 1), found);
        lemma_placed_value(d, lines.len() as int, upto - 1, line_merges(lines[upto - 1]));
    }
}

/// The score that a move earns is the sum of the values of the tiles that
/// its merges made.
pub proof fn score_is_value_of_merges(cells: Seq<Seq<u64>>, d: Direction)
    ensures
        slide_score(cells, d) == merged_value(slide_merges(cells, d)),
{
    lemma_value_upto(oriented(cells, d), d, cells.len() as int);
}

/// A move that changes nothing was made toward an edge at which every line
/// was already settled.
pub proof fn unchanged_grid_was_settled(cells: Seq<Seq<u64>>, d: Direction)
    requires
        square(cells),
        total_value(cells) <= TOTAL_LIMIT,
        !slide_changes(cells, d),
    ensures
        forall|line: int| 0 <= line < cells.len() ==> settled(#[trigger] oriented(cells, d)[line]),
{
    let n = cells.len() as int;
    let lines = oriented(cells, d);
    lemma_lines_within_limit(cells, d);
    assert forall|line: int| 0 <= line < n implies settled(#[trigger] lines[line]) by {
        lemma_slid_sum(lines[line], occupancy());
        assert forall|k: int| 0 <= k < n implies slid(lines[line])[k] == lines[line][k] by {
        }
        assert(slid(lines[line]) =~= lines[line]);
        unchanged_line_was_settled(lines[line]);
    }
}

} // verus!
