//! Sliding one line of cells toward its leading edge, which is index 0.
//!
//! A cell holds 0 when it is empty and a tile's value otherwise.

use vstd::prelude::*;
use crate::sums::{
    blanks, face_value, lemma_line_sum_bounds, lemma_line_sum_concat, lemma_line_sum_front,
    lemma_line_sum_push, line_sum,
};
use crate::tile::TOTAL_LIMIT;

verus! {
/// One merge within a line: the cells of the two tiles that were consumed,
/// the cell of the tile that they made, and its value.
#[derive(Clone, Copy, Debug, PartialEq, Eq, Structural)]
pub struct LineMerge {
    /// The cell of the consumed tile that was nearer to the leading edge.
    pub first: usize,
    /// The cell of the other consumed tile.
    pub second: usize,
    /// The cell in which the new tile stands.
    pub target: usize,
    /// The value of the new tile.
    pub value: u64,
}

/// What sliding a line gives: the cells afterwards, the merges in order from
/// the leading edge, and the sum of the values they made.
#[derive(Debug, PartialEq, Eq)]
pub struct LineSlide {
    pub cells: Vec<u64>,
    pub merges: Vec<LineMerge>,
    pub score: u64,
}

/// The tiles of a line in order, the empty cells left out.
pub open spec fn compacted(line: Seq<u64>) -> Seq<u64>
    decreases line.len(),
{
    if line.len() == 0 {
        Seq::empty()
    } else if line.last() == 0 {
        compacted(line.drop_last())
    } else {
        compacted(line.drop_last()).push(line.last())
    }
}

/// The cells of a line that hold a tile, in order.
pub open spec fn occupied(line: Seq<u64>) -> Seq<usize>
    decreases line.len(),
{
    if line.len() == 0 {
        Seq::empty()
    } else if line.last() == 0 {
        occupied(line.drop_last())
    } else {
        occupied(line.drop_last()).push((line.len() - 1) as usize)
    }
}

/// Whether the tiles `k` and `k + 1` are equal, so that they merge when the
/// scan reaches `k`.
pub open spec fn pairs_at(tiles: Seq<u64>, k: int) -> bool {
    0 <= k && k + 1 < tiles.len() && tiles[k] == tiles[k + 1]
}

/// The tiles that the scan makes of `tiles[k..]`: a tile merges with the
/// next one if they are equal, and a merged tile does not merge again.
pub open spec fn merged_from(tiles: Seq<u64>, k: int) -> Seq<u64>
    decreases tiles.len() - k,
{
    if k < 0 || k >= tiles.len() {
        Seq::empty()
    } else if pairs_at(tiles, k) {
        seq![(2 * tiles[k]) as u64] + merged_from(tiles, k + 2)
    } else {
        seq![tiles[k]] + merged_from(tiles, k + 1)
    }
}

/// The merges that the scan makes of `tiles[k..]`, where tile `i` came from
/// cell `cells[i]` and the next tile made lands in cell `target`.
pub open spec fn merges_from(tiles: Seq<u64>, cells: Seq<usize>, k: int, target: int) -> Seq<
    LineMerge,
>
    decreases tiles.len() - k,
{
    if k < 0 || k >= tiles.len() {
        Seq::empty()
    } else if pairs_at(tiles, k) {
        seq![
            LineMerge {
                first: cells[k],
                second: cells[k + 1],
                target: target as usize,
                value: (2 * tiles[k]) as u64,
            },
        ] + merges_from(tiles, cells, k + 2, target + 1)
    } else {
        merges_from(tiles, cells, k + 1, target + 1)
    }
}

/// The sum of the values that the merges made.
pub open spec fn merges_value(merges: Seq<LineMerge>) -> int
    decreases merges.len(),
{
    if merges.len() == 0 {
        0
    } else {
        merges_value(merges.drop_last()) + merges.last().value
    }
}

/// The line after sliding: its tiles compacted toward index 0, merged in one
/// scan from index 0, and the rest of the line left empty.
pub open spec fn slid(line: Seq<u64>) -> Seq<u64> {
    let merged = merged_from(compacted(line), 0);
    merged + blanks((line.len() - merged.len()) as nat)
}

/// The merges that sliding the line makes, in order from index 0.
pub open spec fn line_merges(line: Seq<u64>) -> Seq<LineMerge> {
    merges_from(compacted(line), occupied(line), 0, 0)
}

/// The score that sliding the line earns.
pub open spec fn line_score(line: Seq<u64>) -> int {
    merges_value(line_merges(line))
}

/// Whether the values of the line add up to no more than `TOTAL_LIMIT`.
pub open spec fn within_limit(line: Seq<u64>) -> bool {
    line_sum(line, face_value()) <= TOTAL_LIMIT
}

/// Compacting keeps the tiles and drops only empty cells.
pub proof fn lemma_compacted(line: Seq<u64>, f: spec_fn(u64) -> int)
    requires
        f(0) == 0,
    ensures
        compacted(line).len() == occupied(line).len(),
        compacted(line).len() <= line.len(),
        line_sum(compacted(line), f) == line_sum(line, f),
        forall|i: int| 0 <= i < compacted(line).len() ==> (#[trigger] compacted(line)[i]) != 0,
    decreases line.len(),
{
    if line.len() > 0 {
        let rest = line.drop_last();
        lemma_compacted(rest, f);
        lemma_line_sum_push(compacted(rest), line.last(), f);
    }
}

/// Every tile of the compacted line stands, in the line, in the cell that
/// `occupied` gives for it.
pub proof fn lemma_occupied(line: Seq<u64>)
    requires
        line.len() <= usize::MAX,
    ensures
        compacted(line).len() == occupied(line).len(),
        forall|i: int|
            0 <= i < compacted(line).len() ==> (#[trigger] occupied(line)[i]) < line.len()
                && line[occupied(line)[i] as int] == compacted(line)[i],
    decreases line.len(),
{
    if line.len() > 0 {
        let rest = line.drop_last();
        lemma_occupied(rest);
    }
}

/// The value of two lists of merges is the sum of their values, and no
/// value is negative.
pub proof fn lemma_merges_value_concat(a: Seq<LineMerge>, b: Seq<LineMerge>)
    ensures
        merges_value(a + b) == merges_value(a) + merges_value(b),
        merges_value(a) >= 0,
    decreases b.len(),
{
    lemma_merges_value_nonneg(a);
    if b.len() > 0 {
        assert((a + b).drop_last() =~= a + b.drop_last());
        lemma_merges_value_concat(a, b.drop_last());
    }
}

proof fn lemma_merges_value_nonneg(a: Seq<LineMerge>)
    ensures
        merges_value(a) >= 0,
    decreases a.len(),
{
    if a.len() > 0 {
        lemma_merges_value_nonneg(a.drop_last());
    }
}

proof fn lemma_merges_value_single(m: LineMerge)
    ensures
        merges_value(seq![m]) == m.value,
{
    let one = seq![m];
    assert(merges_value(one.drop_last()) == 0);
}

/// The values that the merges of `tiles[k..]` make add up to no more than
/// the tiles themselves, and every tile made counts its target cell from
/// `target` on.
pub proof fn lemma_merges_from(tiles: Seq<u64>, cells: Seq<usize>, k: int, target: int)
    requires
        0 <= k <= tiles.len(),
        tiles.len() == cells.len(),
        within_limit(tiles),
    ensures
        0 <= merges_value(merges_from(tiles, cells, k, target)) <= line_sum(
            tiles.skip(k),
            face_value(),
        ),
        line_sum(tiles.skip(k), face_value()) <= line_sum(tiles, face_value()),
        merged_from(tiles, k).len() + merges_from(tiles, cells, k, target).len() == tiles.len()
            - k,
    decreases tiles.len() - k,
{
    let f = face_value();
    assert(tiles =~= tiles.take(k) + tiles.skip(k));
    lemma_line_sum_concat(tiles.take(k), tiles.skip(k), f);
    lemma_line_sum_bounds(tiles.take(k), f);
    if k < tiles.len() {
        lemma_line_sum_front(tiles.skip(k), f);
        assert(tiles.skip(k).skip(1) =~= tiles.skip(k + 1));
        if pairs_at(tiles, k) {
            lemma_merges_from(tiles, cells, k + 2, target + 1);
            lemma_line_sum_front(tiles.skip(k + 1), f);
            assert(tiles.skip(k + 1).skip(1) =~= tiles.skip(k + 2));
            let m = LineMerge {
                first: cells[k],
                second: cells[k + 1],
                target: target as usize,
                value: (2 * tiles[k]) as u64,
            };
            let rest = merges_from(tiles, cells, k + 2, target + 1);
            lemma_merges_value_concat(seq![m], rest);
            lemma_merges_value_single(m);
        } else {
            lemma_merges_from(tiles, cells, k + 1, target + 1);
        }
    }
}

/// No tile is above the limit of its line, and neither is the tile that a
/// pair of equal tiles makes.
pub proof fn lemma_tile_bound(tiles: Seq<u64>, k: int)
    requires
        0 <= k < tiles.len(),
        within_limit(tiles),
    ensures
        tiles[k] <= TOTAL_LIMIT,
        pairs_at(tiles, k) ==> 2 * tiles[k] <= TOTAL_LIMIT,
{
    let f = face_value();
    lemma_line_sum_bounds(tiles, f);
    if pairs_at(tiles, k) {
        assert(tiles =~= tiles.take(k) + tiles.skip(k));
        lemma_line_sum_concat(tiles.take(k), tiles.skip(k), f);
        lemma_line_sum_bounds(tiles.take(k), f);
        lemma_line_sum_front(tiles.skip(k), f);
        assert(tiles.skip(k).skip(1) =~= tiles.skip(k + 1));
        lemma_line_sum_bounds(tiles.skip(k + 1), f);
        assert(tiles.skip(k + 1)[0] == tiles[k + 1]);
    }
}

proof fn lemma_merges_range(tiles: Seq<u64>, cells: Seq<usize>, k: int, target: int, n: int)
    requires
        0 <= k <= tiles.len(),
        tiles.len() == cells.len(),
        0 <= target <= k,
        tiles.len() <= n <= usize::MAX,
        forall|i: int| 0 <= i < cells.len() ==> (#[trigger] cells[i]) < n,
    ensures
        forall|i: int|
            0 <= i < merges_from(tiles, cells, k, target).len() ==> {
                let m = #[trigger] merges_from(tiles, cells, k, target)[i];
                m.first < n && m.second < n && m.target < n
            },
    decreases tiles.len() - k,
{
    if k < tiles.len() {
        let all = merges_from(tiles, cells, k, target);
        if pairs_at(tiles, k) {
            lemma_merges_range(tiles, cells, k + 2, target + 1, n);
            let rest = merges_from(tiles, cells, k + 2, target + 1);
            assert forall|i: int| 0 <= i < all.len() implies {
                let m = #[trigger] all[i];
                m.first < n && m.second < n && m.target < n
            } by {
                if i > 0 {
                    assert(all[i] == rest[i - 1]);
                } else {
                    assert(cells[k] < n && cells[k + 1] < n);
                }
            }
        } else {
            lemma_merges_range(tiles, cells, k + 1, target + 1, n);
            assert(all == merges_from(tiles, cells, k + 1, target + 1));
        }
    } else {
        assert(merges_from(tiles, cells, k, target).len() == 0);
    }
}

/// Every merge of a line names cells of the line.
pub proof fn lemma_line_merges_range(line: Seq<u64>)
    requires
        line.len() <= usize::MAX,
    ensures
        forall|i: int|
            0 <= i < line_merges(line).len() ==> {
                let m = #[trigger] line_merges(line)[i];
                m.first < line.len() && m.second < line.len() && m.target < line.len()
            },
{
    lemma_compacted(line, face_value());
    lemma_occupied(line);
    lemma_merges_range(compacted(line), occupied(line), 0, 0, line.len() as int);
}

/// Slides a line toward index 0.
///
/// The tiles keep their order and close up toward index 0. One scan from
/// index 0 then merges each tile with the next one if the two are equal,
/// into one tile of twice the value; a tile made by a merge is not merged
/// again. The cells left over are empty.
pub fn slide_line(line: &Vec<u64>) -> (out: LineSlide)
    requires
        within_limit(line@),
    ensures
        out.cells@ == slid(line@),
        out.merges@ == line_merges(line@),
        out.score == line_score(line@),
{
    let n = line.len();
    let mut tiles: Vec<u64> = Vec::new();
    let mut cells: Vec<usize> = Vec::new();
    let mut j: usize = 0;
    while j < n
        invariant
            j <= n,
            n == line.len(),
            tiles@ == compacted(line@.take(j as int)),
            cells@ == occupied(line@.take(j as int)),
        decreases n - j,
    {
        proof {
            assert(line@.take(j + 1).drop_last() =~= line@.take(j as int));
        }
        if line[j] != 0 {
            tiles.push(line[j]);
            cells.push(j);
        }
        j += 1;
    }
    proof {
        assert(line@.take(n as int) =~= line@);
        lemma_compacted(line@, face_value());
        lemma_merges_from(tiles@, cells@, 0, 0);
    }
    let m = tiles.len();
    let mut out: Vec<u64> = Vec::new();
    let mut merges: Vec<LineMerge> = Vec::new();
    let mut score: u64 = 0;
    let mut k: usize = 0;
    while k < m
        invariant
            k <= m,
            m == tiles.len(),
            m == cells.len(),
            m <= n,
            within_limit(tiles@),
            out.len() + merges.len() == k,
            merged_from(tiles@, 0) == out@ + merged_from(tiles@, k as int),
            merges_from(tiles@, cells@, 0, 0) == merges@ + merges_from(
                tiles@,
                cells@,
                k as int,
                out.len() as int,
            ),
            score == merges_value(merges@),
            merges_value(merges_from(tiles@, cells@, 0, 0)) <= TOTAL_LIMIT,
        decreases m - k,
    {
        let ghost rest = merges_from(tiles@, cells@, k as int, out.len() as int);
        proof {
            lemma_merges_value_concat(merges@, rest);
        }
        if k + 1 < m && tiles[k] == tiles[k + 1] {
            proof {
                lemma_tile_bound(tiles@, k as int);
                let one = LineMerge {
                    first: cells@[k as int],
                    second: cells@[k + 1],
                    target: out.len(),
                    value: (2 * tiles@[k as int]) as u64,
                };
                let tail = merges_from(tiles@, cells@, k + 2, out.len() + 1);
                lemma_merges_value_concat(seq![one], tail);
                lemma_merges_value_single(one);
                lemma_merges_value_nonneg(tail);
                assert(out@ + (seq![(2 * tiles@[k as int]) as u64] + merged_from(tiles@, k + 2))
                    =~= out@.push((2 * tiles@[k as int]) as u64) + merged_from(tiles@, k + 2));
            }
            let value: u64 = 2 * tiles[k];
            let ghost before = merges@;
            merges.push(
                LineMerge { first: cells[k], second: cells[k + 1], target: out.len(), value },
            );
            proof {
                assert(merges@.drop_last() =~= before);
            }
            out.push(value);
            score = score + value;
            k += 2;
        } else {
            proof {
                assert(out@ + (seq![tiles@[k as int]] + merged_from(tiles@, k + 1)) =~= out@.push(
                    tiles@[k as int],
                ) + merged_from(tiles@, k + 1));
            }
            out.push(tiles[k]);
            k += 1;
        }
    }
    let ghost merged = out@;
    while out.len() < n
        invariant
            merged.len() <= out.len() <= n,
            out@ == merged + blanks((out.len() - merged.len()) as nat),
        decreases n - out.len(),
    {
        proof {
            assert((merged + blanks((out.len() - merged.len()) as nat)).push(0u64) =~= merged
                + blanks((out.len() + 1 - merged.len()) as nat));
        }
        out.push(0);
    }
    LineSlide { cells: out, merges, score }
}

} // verus!
