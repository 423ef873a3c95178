//! The animation clock: how far each tile's transition has run.
//!
//! Progress is time: a transition that has run for the clock's whole
//! duration has settled. The clock knows the tiles it shows and nothing of
//! the grid or the score.

use vstd::prelude::*;
use crate::engine_laws::Merge;
use crate::grid::GridState;
use crate::layout::square;
use crate::tile::Tile;

verus! {
/// What a clock is, mathematically.
pub struct ClockModel {
    /// How long a transition takes, in microseconds.
    pub duration: u64,
    /// The tiles of the grid, row by row.
    pub tiles: Seq<Tile>,
    /// The tiles that a merge consumed and that have not yet faded.
    pub fading: Seq<Tile>,
}

/// The clock of the transitions that a move started.
#[derive(Debug)]
pub struct AnimationClock {
    duration: u64,
    tiles: Vec<Tile>,
    fading: Vec<Tile>,
}

/// The tile after `dt` more microseconds: its progress grows by `dt` and
/// stops at `duration`.
pub open spec fn stepped(tile: Tile, dt: nat, duration: u64) -> Tile {
    Tile {
        value: tile.value,
        row: tile.row,
        col: tile.col,
        animation_progress: if tile.animation_progress + dt >= duration {
            duration
        } else {
            (tile.animation_progress + dt) as u64
        },
    }
}

/// Every tile after `dt` more microseconds.
pub open spec fn moved(tiles: Seq<Tile>, dt: nat, duration: u64) -> Seq<Tile> {
    Seq::new(tiles.len(), |i: int| stepped(tiles[i], dt, duration))
}

/// The fading tiles after `dt` more microseconds: those that have settled
/// are gone.
pub open spec fn faded(fading: Seq<Tile>, dt: nat, duration: u64) -> Seq<Tile>
    decreases fading.len(),
{
    if fading.len() == 0 {
        Seq::empty()
    } else {
        let rest = faded(fading.drop_last(), dt, duration);
        let tile = stepped(fading.last(), dt, duration);
        if tile.animation_progress < duration {
            rest.push(tile)
        } else {
            rest
        }
    }
}

/// The clock after `dt` more microseconds.
pub open spec fn advanced(clock: ClockModel, dt: nat) -> ClockModel {
    ClockModel {
        duration: clock.duration,
        tiles: moved(clock.tiles, dt, clock.duration),
        fading: faded(clock.fading, dt, clock.duration),
    }
}

/// Whether every transition has settled: no tile is fading, and every tile
/// has run its whole duration.
pub open spec fn at_rest(clock: ClockModel) -> bool {
    &&& clock.fading.len() == 0
    &&& forall|i: int|
        0 <= i < clock.tiles.len() ==> (#[trigger] clock.tiles[i]).animation_progress
            == clock.duration
}

/// The invariant of a clock: no tile has run longer than the duration, and
/// no settled tile is still fading.
pub open spec fn clock_wf(clock: ClockModel) -> bool {
    &&& forall|i: int|
        0 <= i < clock.tiles.len() ==> (#[trigger] clock.tiles[i]).animation_progress
            <= clock.duration
    &&& forall|i: int|
        0 <= i < clock.fading.len() ==> (#[trigger] clock.fading[i]).animation_progress
            < clock.duration
}

/// The tiles of row `r` after a move: a tile whose cell held the same value
/// before the move is settled, and any other starts its transition.
pub open spec fn shown_in_row(before: Seq<u64>, after: Seq<u64>, r: int, duration: u64) -> Seq<Tile>
    decreases after.len(),
{
    if after.len() == 0 {
        Seq::empty()
    } else {
        let rest = shown_in_row(before, after.drop_last(), r, duration);
        let c = after.len() - 1;
        if after.last() == 0 {
            rest
        } else {
            rest.push(
                Tile {
                    value: after.last(),
                    row: r as usize,
                    col: c as usize,
                    animation_progress: if c < before.len() && before[c] == after.last() {
                        duration
                    } else {
                        0
                    },
                },
            )
        }
    }
}

/// The tiles of the grid after a move, row by row.
pub open spec fn shown(before: Seq<Seq<u64>>, after: Seq<Seq<u64>>, duration: u64) -> Seq<Tile>
    decreases after.len(),
{
    if after.len() == 0 {
        Seq::empty()
    } else {
        let r = after.len() - 1;
        shown(before, after.drop_last(), duration) + shown_in_row(
            if r < before.len() {
                before[r]
            } else {
                Seq::empty()
            },
            after.last(),
            r,
            duration,
        )
    }
}

/// The two tiles that a merge consumed, each in its cell and with half the
/// value of the tile that the merge made.
pub open spec fn sources(merge: Merge) -> Seq<Tile> {
    seq![
        Tile {
            value: merge.tile.value / 2,
            row: merge.first.row,
            col: merge.first.col,
            animation_progress: 0,
        },
        Tile {
            value: merge.tile.value / 2,
            row: merge.second.row,
            col: merge.second.col,
            animation_progress: 0,
        },
    ]
}

/// The tiles that the merges consumed, which fade while the transitions
/// run. With a duration of 0 nothing fades.
pub open spec fn consumed(merges: Seq<Merge>, duration: u64) -> Seq<Tile>
    decreases merges.len(),
{
    if merges.len() == 0 || duration == 0 {
        Seq::empty()
    } else {
        consumed(merges.drop_last(), duration) + sources(merges.last())
    }
}

/// The clock at the start of the transitions of a move.
pub open spec fn scheduled(
    before: Seq<Seq<u64>>,
    after: Seq<Seq<u64>>,
    merges: Seq<Merge>,
    duration: u64,
) -> ClockModel {
    ClockModel {
        duration,
        tiles: shown(before, after, duration),
        fading: consumed(merges, duration),
    }
}

proof fn lemma_shown_in_row(before: Seq<u64>, after: Seq<u64>, r: int, duration: u64)
    ensures
        forall|i: int|
            0 <= i < shown_in_row(before, after, r, duration).len() ==> (
            #[trigger] shown_in_row(before, after, r, duration)[i]).animation_progress <= duration,
    decreases after.len(),
{
    let all = shown_in_row(before, after, r, duration);
    if after.len() > 0 {
        let rest = shown_in_row(before, after.drop_last(), r, duration);
        lemma_shown_in_row(before, after.drop_last(), r, duration);
        assert forall|i: int| 0 <= i < all.len() implies (#[trigger] all[i]).animation_progress
            <= duration by {
            if i < rest.len() {
                assert(all[i] == rest[i]);
            }
        }
    } else {
        assert(all.len() == 0);
    }
}

proof fn lemma_shown(before: Seq<Seq<u64>>, after: Seq<Seq<u64>>, duration: u64)
    ensures
        forall|i: int|
            0 <= i < shown(before, after, duration).len() ==> (#[trigger] shown(
                before,
                after,
                duration,
            )[i]).animation_progress <= duration,
    decreases after.len(),
{
    if after.len() > 0 {
        let r = after.len() - 1;
        let row = if r < before.len() {
            before[r]
        } else {
            Seq::empty()
        };
        lemma_shown(before, after.drop_last(), duration);
        lemma_shown_in_row(row, after.last(), r, duration);
        let all = shown(before, after, duration);
        let head = shown(before, after.drop_last(), duration);
        let tail = shown_in_row(row, after.last(), r, duration);
        assert forall|i: int| 0 <= i < all.len() implies (#[trigger] all[i]).animation_progress
            <= duration by {
            if i < head.len() {
                assert(all[i] == head[i]);
            } else {
                assert(all[i] == tail[i - head.len()]);
            }
        }
    } else {
        assert(shown(before, after, duration).len() == 0);
    }
}

proof fn lemma_consumed(merges: Seq<Merge>, duration: u64)
    ensures
        forall|i: int|
            0 <= i < consumed(merges, duration).len() ==> (#[trigger] consumed(
                merges,
                duration,
            )[i]).animation_progress < duration,
    decreases merges.len(),
{
    let all = consumed(merges, duration);
    if merges.len() > 0 && duration > 0 {
        lemma_consumed(merges.drop_last(), duration);
        let head = consumed(merges.drop_last(), duration);
        let tail = sources(merges.last());
        assert forall|i: int| 0 <= i < all.len() implies (#[trigger] all[i]).animation_progress
            < duration by {
            if i < head.len() {
                assert(all[i] == head[i]);
            } else {
                assert(all[i] == tail[i - head.len()]);
            }
        }
    } else {
        assert(all.len() == 0);
    }
}

/// The clock that a move starts meets the clock's invariant.
pub proof fn lemma_scheduled_wf(
    before: Seq<Seq<u64>>,
    after: Seq<Seq<u64>>,
    merges: Seq<Merge>,
    duration: u64,
)
    ensures
        clock_wf(scheduled(before, after, merges, duration)),
{
    lemma_shown(before, after, duration);
    lemma_consumed(merges, duration);
}

proof fn lemma_faded(fading: Seq<Tile>, dt: nat, duration: u64)
    ensures
        faded(fading, dt, duration).len() <= fading.len(),
        forall|i: int|
            0 <= i < faded(fading, dt, duration).len() ==> (#[trigger] faded(
                fading,
                dt,
                duration,
            )[i]).animation_progress < duration,
        dt >= duration ==> faded(fading, dt, duration).len() == 0,
    decreases fading.len(),
{
    if fading.len() > 0 {
        lemma_faded(fading.drop_last(), dt, duration);
    }
}

proof fn lemma_faded_zero(fading: Seq<Tile>, duration: u64)
    requires
        forall|i: int| 0 <= i < fading.len() ==> (#[trigger] fading[i]).animation_progress < duration,
    ensures
        faded(fading, 0, duration) == fading,
    decreases fading.len(),
{
    if fading.len() > 0 {
        let rest = fading.drop_last();
        lemma_faded_zero(rest, duration);
    }
}

proof fn lemma_faded_twice(fading: Seq<Tile>, a: nat, b: nat, duration: u64)
    requires
        forall|i: int| 0 <= i < fading.len() ==> (#[trigger] fading[i]).animation_progress < duration,
    ensures
        faded(faded(fading, a, duration), b, duration) == faded(fading, a + b, duration),
    decreases fading.len(),
{
    if fading.len() > 0 {
        let rest = fading.drop_last();
        lemma_faded_twice(rest, a, b, duration);
        let last = fading.last();
        let once = stepped(last, a, duration);
        if once.animation_progress < duration {
            assert(faded(fading, a, duration).drop_last() =~= faded(rest, a, duration));
        }
    }
}

/// Advancing a clock by no time at all leaves it as it is.
pub proof fn zero_advance_changes_nothing(clock: ClockModel)
    requires
        clock_wf(clock),
    ensures
        advanced(clock, 0) == clock,
{
    lemma_faded_zero(clock.fading, clock.duration);
    assert(moved(clock.tiles, 0, clock.duration) =~= clock.tiles);
}

/// Advancing a clock twice is advancing it once by the sum of the two
/// times.
pub proof fn advances_add_up(clock: ClockModel, a: nat, b: nat)
    requires
        clock_wf(clock),
    ensures
        advanced(advanced(clock, a), b) == advanced(clock, a + b),
{
    lemma_faded_twice(clock.fading, a, b, clock.duration);
    let d = clock.duration;
    assert(moved(moved(clock.tiles, a, d), b, d) =~= moved(clock.tiles, a + b, d));
}

/// Advancing a clock keeps its invariant, and advancing it by its whole
/// duration or more settles every transition.
pub proof fn lemma_advanced(clock: ClockModel, dt: nat)
    requires
        clock_wf(clock),
    ensures
        clock_wf(advanced(clock, dt)),
        dt >= clock.duration ==> at_rest(advanced(clock, dt)),
{
    lemma_faded(clock.fading, dt, clock.duration);
}

impl View for AnimationClock {
    type V = ClockModel;

    closed spec fn view(&self) -> ClockModel {
        ClockModel { duration: self.duration, tiles: self.tiles@, fading: self.fading@ }
    }
}

impl AnimationClock {
    /// The invariant that every clock of this library meets.
    pub open spec fn wf(&self) -> bool {
        clock_wf(self@)
    }

    /// A clock that shows no tile, for transitions of `duration`
    /// microseconds.
    pub fn new(duration: u64) -> (clock: AnimationClock)
        ensures
            clock.wf(),
            clock@ == (ClockModel { duration, tiles: Seq::empty(), fading: Seq::empty() }),
    {
        AnimationClock { duration, tiles: Vec::new(), fading: Vec::new() }
    }

    /// How long a transition takes, in microseconds.
    pub fn duration(&self) -> (duration: u64)
        ensures
            duration == self@.duration,
    {
        self.duration
    }

    /// A copy of the tiles of the grid, row by row.
    pub fn tiles(&self) -> (tiles: Vec<Tile>)
        ensures
            tiles@ == self@.tiles,
    {
        copy_of(&self.tiles)
    }

    /// A copy of the tiles that are fading.
    pub fn fading(&self) -> (tiles: Vec<Tile>)
        ensures
            tiles@ == self@.fading,
    {
        copy_of(&self.fading)
    }

    /// Tells whether every transition has settled.
    pub fn is_settled(&self) -> (settled: bool)
        ensures
            settled == at_rest(self@),
    {
        if self.fading.len() > 0 {
            return false;
        }
        let mut i: usize = 0;
        while i < self.tiles.len()
            invariant
                i <= self.tiles.len(),
                forall|j: int|
                    0 <= j < i ==> (#[trigger] self.tiles@[j]).animation_progress == self.duration,
            decreases self.tiles.len() - i,
        {
            if self.tiles[i].animation_progress != self.duration {
                assert(self@.tiles[i as int].animation_progress != self@.duration);
                return false;
            }
            i += 1;
        }
        true
    }

    /// Starts the transitions of a move that led from `before` to `after`
    /// with the given merges.
    pub fn schedule(&mut self, before: &GridState, after: &GridState, merges: &Vec<Merge>)
        requires
            before.wf(),
            after.wf(),
            before@.cells.len() == after@.cells.len(),
        ensures
            final(self).wf(),
            final(self)@ == scheduled(
                before@.cells,
                after@.cells,
                merges@,
                old(self)@.duration,
            ),
    {
        let n = after.size();
        let duration = self.duration;
        let mut tiles: Vec<Tile> = Vec::new();
        let mut r: usize = 0;
        while r < n
            invariant
                r <= n,
                n == after@.cells.len(),
                n == before@.cells.len(),
                square(before@.cells),
                square(after@.cells),
                tiles@ == shown(before@.cells, after@.cells.take(r as int), duration),
            decreases n - r,
        {
            let ghost head = tiles@;
            let ghost old_row = before@.cells[r as int];
            let ghost new_row = after@.cells[r as int];
            let mut c: usize = 0;
            while c < n
                invariant
                    c <= n,
                    r < n,
                    n == after@.cells.len(),
                    n == before@.cells.len(),
                    old_row == before@.cells[r as int],
                    new_row == after@.cells[r as int],
                    old_row.len() == n,
                    new_row.len() == n,
                    tiles@ == head + shown_in_row(old_row, new_row.take(c as int), r as int, duration),
                decreases n - c,
            {
                let value = after.value_at(r, c);
                proof {
                    assert(new_row.take(c + 1).drop_last() =~= new_row.take(c as int));
                }
                if value != 0 {
                    let progress = if before.value_at(r, c) == value {
                        duration
                    } else {
                        0
                    };
                    let tile = Tile { value, row: r, col: c, animation_progress: progress };
                    tiles.push(tile);
                }
                c += 1;
            }
            proof {
                assert(new_row.take(n as int) =~= new_row);
                let upto = after@.cells.take(r + 1);
                assert(upto.drop_last() =~= after@.cells.take(r as int));
            }
            r += 1;
        }
        let mut fading: Vec<Tile> = Vec::new();
        if duration > 0 {
            let mut i: usize = 0;
            while i < merges.len()
                invariant
                    i <= merges.len(),
                    duration > 0,
                    fading@ == consumed(merges@.take(i as int), duration),
                decreases merges.len() - i,
            {
                let m = merges[i];
                proof {
                    assert(merges@.take(i + 1).drop_last() =~= merges@.take(i as int));
                }
                let half = m.tile.value / 2;
                fading.push(
                    Tile { value: half, row: m.first.row, col: m.first.col, animation_progress: 0 },
                );
                fading.push(
                    Tile {
                        value: half,
                        row: m.second.row,
                        col: m.second.col,
                        animation_progress: 0,
                    },
                );
                i += 1;
            }
            assert(merges@.take(merges.len() as int) =~= merges@);
        }
        proof {
            assert(after@.cells.take(n as int) =~= after@.cells);
            lemma_scheduled_wf(before@.cells, after@.cells, merges@, duration);
        }
        self.tiles = tiles;
        self.fading = fading;
    }

    /// Advances every transition by `dt` microseconds. A tile that has run
    /// its whole duration stays settled, and a fading tile that has settled
    /// is dropped.
    pub fn advance(&mut self, dt: u64)
        requires
            old(self).wf(),
        ensures
            final(self).wf(),
            final(self)@ == advanced(old(self)@, dt as nat),
    {
        let duration = self.duration;
        let ghost before = self@;
        let mut tiles: Vec<Tile> = Vec::new();
        let mut i: usize = 0;
        while i < self.tiles.len()
            invariant
                i <= self.tiles.len(),
                self@ == before,
                clock_wf(before),
                duration == before.duration,
                tiles@ == moved(before.tiles.take(i as int), dt as nat, duration),
            decreases self.tiles.len() - i,
        {
            let tile = self.tiles[i];
            tiles.push(step(tile, dt, duration));
            i += 1;
        }
        assert(before.tiles.take(i as int) =~= before.tiles);
        let mut fading: Vec<Tile> = Vec::new();
        let mut j: usize = 0;
        while j < self.fading.len()
            invariant
                j <= self.fading.len(),
                self@ == before,
                clock_wf(before),
                duration == before.duration,
                fading@ == faded(before.fading.take(j as int), dt as nat, duration),
            decreases self.fading.len() - j,
        {
            let tile = self.fading[j];
            proof {
                assert(before.fading.take(j + 1).drop_last() =~= before.fading.take(j as int));
            }
            let next = step(tile, dt, duration);
            if next.animation_progress < duration {
                fading.push(next);
            }
            j += 1;
        }
        assert(before.fading.take(j as int) =~= before.fading);
        proof {
            lemma_advanced(before, dt as nat);
        }
        self.tiles = tiles;
        self.fading = fading;
    }
}

/// The tile after `dt` more microseconds.
fn step(tile: Tile, dt: u64, duration: u64) -> (next: Tile)
    requires
        tile.animation_progress <= duration,
    ensures
        next == stepped(tile, dt as nat, duration),
{
    let progress = if dt >= duration - tile.animation_progress {
        duration
    } else {
        tile.animation_progress + dt
    };
    Tile { value: tile.value, row: tile.row, col: tile.col, animation_progress: progress }
}

/// A copy of a list of tiles.
fn copy_of(tiles: &Vec<Tile>) -> (copy: Vec<Tile>)
    ensures
        copy@ == tiles@,
{
    let mut copy: Vec<Tile> = Vec::new();
    let mut i: usize = 0;
    while i < tiles.len()
        invariant
            i <= tiles.len(),
            copy@ == tiles@.take(i as int),
        decreases tiles.len() - i,
    {
        copy.push(tiles[i]);
        i += 1;
    }
    copy
}

} // verus!
