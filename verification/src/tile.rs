//! Tile values and the tiles that are handed to callers.

use vstd::prelude::*;

verus! {
/// The largest sum of tile values a grid may carry (two to the 57th power).
///
/// The bound keeps every doubling, and the score, inside `u64`.
pub const TOTAL_LIMIT: u64 = 0x0200_0000_0000_0000;

/// Whether `v` is a value a tile can have: a power of two, at least 2.
pub open spec fn is_tile_value(v: int) -> bool
    decreases v,
{
    v == 2 || (v > 2 && v % 2 == 0 && is_tile_value(v / 2))
}

/// Whether `v` can stand in a cell: 0 for an empty cell, or a tile value.
pub open spec fn is_cell_value(v: int) -> bool {
    v == 0 || is_tile_value(v)
}

/// The binary logarithm of `v`, rounded down (0 for `v <= 1`).
pub open spec fn rank(v: int) -> int
    decreases v,
{
    if v <= 1 {
        0
    } else {
        1 + rank(v / 2)
    }
}

/// The most score that can have been earned in building a tile of value `v`.
pub open spec fn weight(v: int) -> int {
    v * rank(v)
}

/// A cell of the grid, by row and column.
#[derive(Clone, Copy, Debug, PartialEq, Eq, Structural)]
pub struct Position {
    pub row: usize,
    pub col: usize,
}

/// A tile as callers see it: its value, its cell, and how far its current
/// transition has run, in microseconds.
#[derive(Clone, Copy, Debug, PartialEq, Eq, Structural)]
pub struct Tile {
    pub value: u64,
    pub row: usize,
    pub col: usize,
    pub animation_progress: u64,
}

/// Tells whether `v` is a tile value.
pub fn valid_tile_value(v: u64) -> (ok: bool)
    ensures
        ok == is_tile_value(v as int),
{
    let mut x: u64 = v;
    while x > 2 && x % 2 == 0
        invariant
            is_tile_value(x as int) == is_tile_value(v as int),
        decreases x,
    {
        x = x / 2;
    }
    x == 2
}

} // verus!
