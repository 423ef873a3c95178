//! The spawn policy: where a new tile appears, and with which value.

use vstd::prelude::*;
use crate::engine::GameError;
use crate::grid::{empty_cells, has_room, lemma_empty_cells, GridState};
use crate::tile::{Position, Tile};

verus! {
/// A small deterministic generator of 64-bit numbers (SplitMix64). The
/// numbers it gives are a function of the seed alone.
#[derive(Clone, Copy, Debug, PartialEq, Eq, Structural)]
pub struct Rng {
    state: u64,
}

/// The state that follows `state`.
pub open spec fn next_state(state: u64) -> u64 {
    state.wrapping_add(0x9E37_79B9_7F4A_7C15)
}

/// The number that the generator gives on reaching `state`.
pub open spec fn output_of(state: u64) -> u64 {
    let a = (state ^ (state >> 30)).wrapping_mul(0xBF58_476D_1CE4_E5B9);
    let b = (a ^ (a >> 27)).wrapping_mul(0x94D0_49BB_1331_11EB);
    b ^ (b >> 31)
}

/// The `k`th number that a generator in `state` gives next, counting from 1.
pub open spec fn draw(state: u64, k: nat) -> u64
    decreases k,
{
    if k <= 1 {
        output_of(next_state(state))
    } else {
        draw(next_state(state), (k - 1) as nat)
    }
}

/// The state of a generator after `k` draws.
pub open spec fn state_after(state: u64, k: nat) -> u64
    decreases k,
{
    if k == 0 {
        state
    } else {
        state_after(next_state(state), (k - 1) as nat)
    }
}

impl View for Rng {
    type V = u64;

    closed spec fn view(&self) -> u64 {
        self.state
    }
}

impl Rng {
    /// A generator that starts from `seed`.
    pub fn new(seed: u64) -> (rng: Rng)
        ensures
            rng@ == seed,
    {
        Rng { state: seed }
    }

    /// The next number.
    pub fn next_u64(&mut self) -> (n: u64)
        ensures
            final(self)@ == next_state(old(self)@),
            n == output_of(next_state(old(self)@)),
    {
        self.state = self.state.wrapping_add(0x9E37_79B9_7F4A_7C15);
        let z = self.state;
        let a = (z ^ (z >> 30)).wrapping_mul(0xBF58_476D_1CE4_E5B9);
        let b = (a ^ (a >> 27)).wrapping_mul(0x94D0_49BB_1331_11EB);
        b ^ (b >> 31)
    }
}

/// How a new tile is chosen: its cell evenly among the empty cells, its
/// value 2 or 4 in the proportion of the two weights.
#[derive(Clone, Copy, Debug, PartialEq, Eq, Structural)]
pub struct SpawnPolicy {
    /// The weight of a new tile of value 2.
    pub two_weight: u32,
    /// The weight of a new tile of value 4.
    pub four_weight: u32,
}

/// The empty cell that the number `pick` selects: the empty cells are
/// counted row by row, and `pick` is taken modulo their number.
pub open spec fn chosen_cell(cells: Seq<Seq<u64>>, pick: u64) -> Position {
    let empty = empty_cells(cells);
    empty[(pick as int) % (empty.len() as int)]
}

/// On a square grid with an empty cell, the tile that two numbers select
/// lies in an empty cell and has the value 2 or 4.
pub proof fn lemma_chosen_tile(policy: SpawnPolicy, cells: Seq<Seq<u64>>, pick: u64, roll: u64)
    requires
        crate::layout::square(cells),
        cells.len() <= usize::MAX,
        has_room(cells),
    ensures
        ({
            let tile = policy.chosen_tile(cells, pick, roll);
            &&& tile.row < cells.len()
            &&& tile.col < cells.len()
            &&& cells[tile.row as int][tile.col as int] == 0
            &&& (tile.value == 2 || tile.value == 4)
            &&& tile.animation_progress == 0
        }),
{
    lemma_empty_cells(cells);
}

/// Counted row by row, the `i`th empty cell is the one that the number `i`
/// selects: in every run of as many numbers as there are empty cells, each
/// empty cell is selected once.
pub proof fn every_empty_cell_is_chosen(cells: Seq<Seq<u64>>, i: u64, run: u64)
    requires
        i < empty_cells(cells).len(),
        run * empty_cells(cells).len() + i <= u64::MAX,
    ensures
        chosen_cell(cells, i) == empty_cells(cells)[i as int],
        chosen_cell(cells, (run * empty_cells(cells).len() + i) as u64) == empty_cells(
            cells,
        )[i as int],
{
    let count = empty_cells(cells).len() as int;
    vstd::arithmetic::div_mod::lemma_small_mod(i as nat, count as nat);
    vstd::arithmetic::div_mod::lemma_mod_multiples_vanish(run as int, i as int, count);
}

impl SpawnPolicy {
    /// A policy can choose if one of its weights is not 0.
    pub open spec fn wf(self) -> bool {
        self.two_weight + self.four_weight > 0
    }

    /// The value that the number `roll` selects: `roll` is taken modulo the
    /// sum of the weights, and the numbers below `two_weight` give 2.
    pub open spec fn chosen_value(self, roll: u64) -> u64 {
        if (roll as int) % (self.two_weight + self.four_weight) < self.two_weight {
            2
        } else {
            4
        }
    }

    /// The tile that the numbers `pick` and `roll` select on a grid with an
    /// empty cell.
    pub open spec fn chosen_tile(self, cells: Seq<Seq<u64>>, pick: u64, roll: u64) -> Tile {
        let at = chosen_cell(cells, pick);
        Tile { value: self.chosen_value(roll), row: at.row, col: at.col, animation_progress: 0 }
    }

    /// The outcome of a spawn on the grid, for the next two numbers of a
    /// generator in `state`.
    pub open spec fn outcome(self, cells: Seq<Seq<u64>>, state: u64) -> Result<Tile, GameError> {
        if has_room(cells) {
            Ok(self.chosen_tile(cells, draw(state, 1), draw(state, 2)))
        } else {
            Err(GameError::NoEmptyCell)
        }
    }

    /// The policy that gives a 2 nine times out of ten.
    pub fn standard() -> (policy: SpawnPolicy)
        ensures
            policy == (SpawnPolicy { two_weight: 9, four_weight: 1 }),
            policy.wf(),
    {
        SpawnPolicy { two_weight: 9, four_weight: 1 }
    }

    /// Chooses the new tile for two given numbers.
    ///
    /// Fails with `NoEmptyCell` if and only if the grid has no empty cell.
    /// The grid is not changed: the caller places the tile.
    pub fn select(&self, grid: &GridState, pick: u64, roll: u64) -> (chosen: Result<
        Tile,
        GameError,
    >)
        requires
            self.wf(),
            grid.wf(),
        ensures
            chosen == if has_room(grid@.cells) {
                Ok::<Tile, GameError>(self.chosen_tile(grid@.cells, pick, roll))
            } else {
                Err(GameError::NoEmptyCell)
            },
            chosen matches Ok(tile) ==> {
                &&& tile.row < grid@.cells.len()
                &&& tile.col < grid@.cells.len()
                &&& grid@.cells[tile.row as int][tile.col as int] == 0
                &&& (tile.value == 2 || tile.value == 4)
            },
    {
        proof {
            grid.lemma_size_fits();
            lemma_empty_cells(grid@.cells);
        }
        let empty = grid.empty_cells();
        let count = empty.len();
        if count == 0 {
            return Err(GameError::NoEmptyCell);
        }
        let index = (pick % (count as u64)) as usize;
        let at = empty[index];
        let weights = self.two_weight as u64 + self.four_weight as u64;
        let value: u64 = if roll % weights < self.two_weight as u64 {
            2
        } else {
            4
        };
        Ok(Tile { value, row: at.row, col: at.col, animation_progress: 0 })
    }

    /// Chooses the new tile with the next two numbers of the generator.
    ///
    /// Fails with `NoEmptyCell` if and only if the grid has no empty cell,
    /// and then leaves the generator as it was.
    pub fn spawn(&self, grid: &GridState, rng: &mut Rng) -> (chosen: Result<Tile, GameError>)
        requires
            self.wf(),
            grid.wf(),
        ensures
            chosen == self.outcome(grid@.cells, old(rng)@),
            final(rng)@ == if has_room(grid@.cells) {
                state_after(old(rng)@, 2)
            } else {
                old(rng)@
            },
            chosen matches Ok(tile) ==> {
                &&& tile.row < grid@.cells.len()
                &&& tile.col < grid@.cells.len()
                &&& grid@.cells[tile.row as int][tile.col as int] == 0
                &&& (tile.value == 2 || tile.value == 4)
            },
    {
        proof {
            grid.lemma_size_fits();
            lemma_empty_cells(grid@.cells);
            reveal_with_fuel(draw, 3);
            reveal_with_fuel(state_after, 3);
        }
        if grid.empty_cells().len() == 0 {
            return Err(GameError::NoEmptyCell);
        }
        let pick = rng.next_u64();
        let roll = rng.next_u64();
        self.select(grid, pick, roll)
    }
}

} // verus!
