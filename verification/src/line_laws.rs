//! What sliding a line keeps and what it changes.

use vstd::prelude::*;
use crate::line::{
    compacted, lemma_compacted, lemma_tile_bound, lemma_merges_from, lemma_merges_value_concat,
    line_merges, line_score, merged_from, merges_from, merges_value, occupied, pairs_at, slid,
    within_limit, LineMerge,
};
use crate::sums::{
    blanks, earned, face_value, lemma_line_sum_blanks, lemma_line_sum_bounds,
    lemma_line_sum_concat, lemma_line_sum_front, lemma_line_sum_single, line_sum, occupancy,
};
use crate::tile::{is_cell_value, is_tile_value, rank, weight, TOTAL_LIMIT};

verus! {
/// What one merge of two tiles of value `v` adds to the sum of `f`.
pub open spec fn merge_gain(f: spec_fn(u64) -> int, v: u64) -> int {
    f((2 * v) as u64) - 2 * f(v)
}

/// What the merges of `tiles[k..]` add to the sum of `f`.
pub open spec fn gain_from(tiles: Seq<u64>, k: int, f: spec_fn(u64) -> int) -> int
    decreases tiles.len() - k,
{
    if k < 0 || k >= tiles.len() {
        0
    } else if pairs_at(tiles, k) {
        merge_gain(f, tiles[k]) + gain_from(tiles, k + 2, f)
    } else {
        gain_from(tiles, k + 1, f)
    }
}

/// A line is settled when no tile follows an empty cell and no two
/// neighbouring tiles are equal.
pub open spec fn settled(line: Seq<u64>) -> bool {
    forall|i: int|
        0 <= i < line.len() - 1 ==> if #[trigger] line[i] == 0 {
            line[i + 1] == 0
        } else {
            line[i] != line[i + 1]
        }
}

/// Whether every cell of the line holds 0 or a tile value.
pub open spec fn valid_cells(line: Seq<u64>) -> bool {
    forall|i: int| 0 <= i < line.len() ==> is_cell_value(#[trigger] line[i] as int)
}

proof fn lemma_merged_sum(tiles: Seq<u64>, k: int, f: spec_fn(u64) -> int)
    requires
        0 <= k <= tiles.len(),
    ensures
        line_sum(merged_from(tiles, k), f) == line_sum(tiles.skip(k), f) + gain_from(tiles, k, f),
        merged_from(tiles, k).len() <= tiles.len() - k,
    decreases tiles.len() - k,
{
    if k < tiles.len() {
        lemma_line_sum_front(tiles.skip(k), f);
        assert(tiles.skip(k).skip(1) =~= tiles.skip(k + 1));
        if pairs_at(tiles, k) {
            lemma_merged_sum(tiles, k + 2, f);
            lemma_line_sum_front(tiles.skip(k + 1), f);
            assert(tiles.skip(k + 1).skip(1) =~= tiles.skip(k + 2));
            let made = (2 * tiles[k]) as u64;
            lemma_line_sum_concat(seq![made], merged_from(tiles, k + 2), f);
            lemma_line_sum_single(made, f);
        } else {
            lemma_merged_sum(tiles, k + 1, f);
            lemma_line_sum_concat(seq![tiles[k]], merged_from(tiles, k + 1), f);
            lemma_line_sum_single(tiles[k], f);
        }
    }
}

/// Sliding changes the sum of a measure that is 0 on empty cells by what the
/// merges add to it.
pub proof fn lemma_slid_sum(line: Seq<u64>, f: spec_fn(u64) -> int)
    requires
        f(0) == 0,
    ensures
        slid(line).len() == line.len(),
        line_sum(slid(line), f) == line_sum(line, f) + gain_from(compacted(line), 0, f),
{
    let tiles = compacted(line);
    let merged = merged_from(tiles, 0);
    lemma_compacted(line, f);
    lemma_merged_sum(tiles, 0, f);
    assert(tiles.skip(0) =~= tiles);
    let pad = (line.len() - merged.len()) as nat;
    lemma_line_sum_concat(merged, blanks(pad), f);
    lemma_line_sum_blanks(pad, f);
}

proof fn lemma_gains(tiles: Seq<u64>, cells: Seq<usize>, k: int, target: int)
    requires
        0 <= k <= tiles.len(),
        tiles.len() == cells.len(),
        within_limit(tiles),
        forall|i: int| 0 <= i < tiles.len() ==> (#[trigger] tiles[i]) != 0,
    ensures
        gain_from(tiles, k, occupancy()) == -merges_from(tiles, cells, k, target).len(),
        gain_from(tiles, k, face_value()) == 0,
        gain_from(tiles, k, earned()) == merges_value(merges_from(tiles, cells, k, target)),
    decreases tiles.len() - k,
{
    if k < tiles.len() {
        if pairs_at(tiles, k) {
            lemma_gains(tiles, cells, k + 2, target + 1);
            lemma_tile_bound(tiles, k);
            let v = tiles[k];
            let made = LineMerge {
                first: cells[k],
                second: cells[k + 1],
                target: target as usize,
                value: (2 * v) as u64,
            };
            let rest = merges_from(tiles, cells, k + 2, target + 1);
            lemma_merges_value_concat(seq![made], rest);
            assert(merges_value(seq![made]) == made.value) by {
                assert(merges_value(seq![made].drop_last()) == 0);
            }
            assert(merge_gain(earned(), v) == 2 * v) by {
                lemma_weight_doubled(v as int);
            }
        } else {
            lemma_gains(tiles, cells, k + 1, target + 1);
        }
    }
}

/// A tile of twice the value accounts for the score of its two halves and
/// for its own value.
pub proof fn lemma_weight_doubled(v: int)
    requires
        v >= 1,
    ensures
        weight(2 * v) == 2 * weight(v) + 2 * v,
{
    assert((2 * v) * (1 + rank(v)) == 2 * (v * rank(v)) + 2 * v) by (nonlinear_arith);
}

/// Sliding a line loses one tile for each merge, keeps the sum of the tile
/// values, and raises the score that the tiles account for by the score of
/// the merges.
pub proof fn lemma_slid_measures(line: Seq<u64>)
    requires
        within_limit(line),
    ensures
        slid(line).len() == line.len(),
        line_sum(slid(line), occupancy()) == line_sum(line, occupancy()) - line_merges(line).len(),
        line_sum(slid(line), face_value()) == line_sum(line, face_value()),
        line_sum(slid(line), earned()) == line_sum(line, earned()) + line_score(line),
        0 <= line_score(line) <= line_sum(line, face_value()),
{
    let tiles = compacted(line);
    let cells = occupied(line);
    lemma_compacted(line, face_value());
    lemma_slid_sum(line, occupancy());
    lemma_slid_sum(line, face_value());
    lemma_slid_sum(line, earned());
    lemma_gains(tiles, cells, 0, 0);
    lemma_merges_from(tiles, cells, 0, 0);
}

proof fn lemma_merged_values(tiles: Seq<u64>, k: int)
    requires
        0 <= k <= tiles.len(),
        within_limit(tiles),
        forall|i: int| 0 <= i < tiles.len() ==> is_tile_value(#[trigger] tiles[i] as int),
    ensures
        forall|i: int|
            0 <= i < merged_from(tiles, k).len() ==> is_tile_value(
                #[trigger] merged_from(tiles, k)[i] as int,
            ),
    decreases tiles.len() - k,
{
    if k < tiles.len() {
        let out = merged_from(tiles, k);
        if pairs_at(tiles, k) {
            lemma_merged_values(tiles, k + 2);
            lemma_tile_bound(tiles, k);
            assert forall|i: int| 0 <= i < out.len() implies is_tile_value(
                #[trigger] out[i] as int,
            ) by {
                if i > 0 {
                    assert(out[i] == merged_from(tiles, k + 2)[i - 1]);
                }
            }
        } else {
            lemma_merged_values(tiles, k + 1);
            assert forall|i: int| 0 <= i < out.len() implies is_tile_value(
                #[trigger] out[i] as int,
            ) by {
                if i > 0 {
                    assert(out[i] == merged_from(tiles, k + 1)[i - 1]);
                }
            }
        }
    }
}

proof fn lemma_compacted_values(line: Seq<u64>)
    requires
        valid_cells(line),
    ensures
        forall|i: int|
            0 <= i < compacted(line).len() ==> is_tile_value(#[trigger] compacted(line)[i] as int),
    decreases line.len(),
{
    if line.len() > 0 {
        let rest = line.drop_last();
        lemma_compacted_values(rest);
        assert forall|i: int| 0 <= i < compacted(line).len() implies is_tile_value(
            #[trigger] compacted(line)[i] as int,
        ) by {
            if i < compacted(rest).len() {
                assert(compacted(line)[i] == compacted(rest)[i]);
            }
        }
    }
}

/// Sliding a line of valid cells gives a line of valid cells.
pub proof fn lemma_slid_values(line: Seq<u64>)
    requires
        within_limit(line),
        valid_cells(line),
    ensures
        valid_cells(slid(line)),
{
    let tiles = compacted(line);
    lemma_compacted(line, face_value());
    lemma_compacted_values(line);
    lemma_merged_values(tiles, 0);
}

proof fn lemma_full_compacted(line: Seq<u64>)
    requires
        compacted(line).len() == line.len(),
    ensures
        compacted(line) == line,
    decreases line.len(),
{
    lemma_compacted(line, occupancy());
    if line.len() > 0 {
        let rest = line.drop_last();
        lemma_compacted(rest, occupancy());
        lemma_full_compacted(rest);
    }
}

proof fn lemma_merged_full(tiles: Seq<u64>, k: int)
    requires
        0 <= k <= tiles.len(),
        merged_from(tiles, k).len() == tiles.len() - k,
    ensures
        merged_from(tiles, k) == tiles.skip(k),
    decreases tiles.len() - k,
{
    if k < tiles.len() {
        if pairs_at(tiles, k) {
            lemma_merged_sum(tiles, k + 2, occupancy());
        } else {
            lemma_merged_sum(tiles, k + 1, occupancy());
            lemma_merged_full(tiles, k + 1);
        }
    }
}

/// A line that sliding changes ends, afterwards, in an empty cell.
pub proof fn lemma_changed_line_has_room(line: Seq<u64>)
    requires
        slid(line) != line,
    ensures
        line.len() > 0,
        slid(line).last() == 0,
{
    let tiles = compacted(line);
    let merged = merged_from(tiles, 0);
    lemma_compacted(line, occupancy());
    lemma_merged_sum(tiles, 0, occupancy());
    if merged.len() == line.len() {
        lemma_full_compacted(line);
        lemma_merged_full(tiles, 0);
        assert(tiles.skip(0) =~= tiles);
    }
}

proof fn lemma_merged_no_pairs(tiles: Seq<u64>, k: int)
    requires
        0 <= k <= tiles.len(),
        forall|i: int| 0 <= i < tiles.len() - 1 ==> (#[trigger] tiles[i]) != tiles[i + 1],
    ensures
        merged_from(tiles, k) == tiles.skip(k),
    decreases tiles.len() - k,
{
    if k < tiles.len() {
        lemma_merged_no_pairs(tiles, k + 1);
    }
}

proof fn lemma_settled_shape(line: Seq<u64>)
    requires
        settled(line),
    ensures
        line == compacted(line) + blanks((line.len() - compacted(line).len()) as nat),
    decreases line.len(),
{
    lemma_compacted(line, occupancy());
    if line.len() > 0 {
        let rest = line.drop_last();
        lemma_settled_shape(rest);
        lemma_compacted(rest, occupancy());
        let pad = (rest.len() - compacted(rest).len()) as nat;
        if line.last() != 0 {
            if pad > 0 {
                let i = rest.len() - 1;
            }
        } else {
            let whole = compacted(line) + blanks(pad + 1);
            assert forall|i: int| 0 <= i < line.len() implies line[i] == whole[i] by {
                if i < rest.len() {
                    assert(line[i] == rest[i]);
                }
            }
        }
    }
}

/// Sliding a settled line leaves it as it is: its tiles already stand
/// compacted at the leading edge, and no two neighbours can merge.
pub proof fn settled_line_stays(line: Seq<u64>)
    requires
        settled(line),
    ensures
        slid(line) == line,
{
    let tiles = compacted(line);
    lemma_settled_shape(line);
    lemma_compacted(line, occupancy());
    assert forall|i: int| 0 <= i < tiles.len() - 1 implies (#[trigger] tiles[i]) != tiles[i
        + 1] by {
        assert(line[i] == tiles[i]);
    }
    lemma_merged_no_pairs(tiles, 0);
}

proof fn lemma_no_merges_no_pairs(tiles: Seq<u64>, cells: Seq<usize>, k: int, target: int)
    requires
        0 <= k <= tiles.len(),
        merges_from(tiles, cells, k, target).len() == 0,
    ensures
        forall|i: int| k <= i < tiles.len() - 1 ==> (#[trigger] tiles[i]) != tiles[i + 1],
    decreases tiles.len() - k,
{
    if k < tiles.len() {
        if !pairs_at(tiles, k) {
            lemma_no_merges_no_pairs(tiles, cells, k + 1, target + 1);
        }
    }
}

/// A line that sliding leaves as it is was settled: its tiles stood
/// compacted at the leading edge, and no two neighbours were equal.
pub proof fn unchanged_line_was_settled(line: Seq<u64>)
    requires
        within_limit(line),
        slid(line) == line,
    ensures
        settled(line),
{
    let tiles = compacted(line);
    let cells = occupied(line);
    let merged = merged_from(tiles, 0);
    lemma_compacted(line, face_value());
    lemma_slid_measures(line);
    lemma_merges_from(tiles, cells, 0, 0);
    lemma_merged_full(tiles, 0);
    lemma_no_merges_no_pairs(tiles, cells, 0, 0);
    assert forall|i: int| 0 <= i < line.len() - 1 implies if #[trigger] line[i] == 0 {
        line[i + 1] == 0
    } else {
        line[i] != line[i + 1]
    } by {
        if i < tiles.len() {
            if i + 1 >= tiles.len() {
                assert(line[i + 1] == blanks((line.len() - merged.len()) as nat)[i + 1
                    - merged.len()]);
            }
        } else {
            assert(line[i + 1] == blanks((line.len() - merged.len()) as nat)[i + 1
                - merged.len()]);
        }
    }
}

} // verus!
