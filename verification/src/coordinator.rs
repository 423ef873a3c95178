//! The game coordinator: the state machine that takes intents and ticks of
//! time, moves the grid, spawns tiles and tells when the game has ended.

use vstd::prelude::*;
use crate::clock::{advanced, at_rest, clock_wf, scheduled, AnimationClock, ClockModel};
use crate::detector::{status_of, GameStatus, TerminalStateDetector};
use crate::engine::{move_of, Intent, MergeEngine, MoveResult};
use crate::engine_laws::{
    lemma_changed_has_room, lemma_slide_measures, slide_changes, slide_merges,
};
use crate::grid::{
    has_room, is_reaching, lemma_total_below, lemma_with_cell, reaches, tile_count, well_formed,
    with_cell, GridModel, GridState,
};
use crate::layout::Direction;
use crate::settings::Settings;
use crate::spawn::{draw, lemma_chosen_tile, state_after, Rng};
use crate::sums::{blank_grid, face_value, lemma_blank_grid_sum};
use crate::tile::Tile;

verus! {
/// The states of the coordinator.
#[derive(Clone, Copy, Debug, PartialEq, Eq, Structural)]
pub enum Phase {
    /// The game waits for a move.
    Ready,
    /// The transitions of the last move are running; moves are ignored.
    Animating,
    /// The game is won; only a restart is accepted.
    Won,
    /// The game is lost; only a restart is accepted.
    Lost,
}

/// What a coordinator is, mathematically.
pub struct AppModel {
    pub settings: Settings,
    pub grid: GridModel,
    /// The state of the generator by which new tiles are chosen.
    pub rng: u64,
    pub clock: ClockModel,
    pub phase: Phase,
    /// How the game stands on the grid, as found when the grid last changed.
    pub outcome: GameStatus,
}

/// The game coordinator. It owns the grid, the score, the generator and the
/// clock; nothing else changes them.
#[derive(Debug)]
pub struct App {
    settings: Settings,
    grid: GridState,
    rng: Rng,
    clock: AnimationClock,
    phase: Phase,
    outcome: GameStatus,
}

/// What a renderer is given to draw: the tiles with their progress, the
/// tiles that are fading, the score and how the game stands.
#[derive(Debug)]
pub struct GridSnapshot {
    pub tiles: Vec<Tile>,
    pub fading: Vec<Tile>,
    pub score: u64,
    pub status: GameStatus,
    /// The progress at which a tile has settled, in microseconds.
    pub animation_duration: u64,
}

/// The state that the coordinator takes once the transitions have settled.
pub open spec fn phase_for(outcome: GameStatus) -> Phase {
    match outcome {
        GameStatus::InProgress => Phase::Ready,
        GameStatus::Won => Phase::Won,
        GameStatus::Lost => Phase::Lost,
    }
}

/// How the game stands for a renderer.
pub open spec fn status_in(phase: Phase) -> GameStatus {
    match phase {
        Phase::Won => GameStatus::Won,
        Phase::Lost => GameStatus::Lost,
        _ => GameStatus::InProgress,
    }
}

/// The grid with a tile spawned by the next two numbers of a generator in
/// `state`.
pub open spec fn with_spawn(settings: Settings, cells: Seq<Seq<u64>>, state: u64) -> Seq<Seq<u64>> {
    let tile = settings.spawn_policy().chosen_tile(cells, draw(state, 1), draw(state, 2));
    with_cell(cells, tile.row as int, tile.col as int, tile.value)
}

/// The cells at the start of a game: an empty grid on which two tiles have
/// been spawned.
pub open spec fn seeded(settings: Settings, state: u64) -> Seq<Seq<u64>> {
    let blank = blank_grid(settings.size as nat, settings.size as nat);
    with_spawn(settings, with_spawn(settings, blank, state), state_after(state, 2))
}

/// The coordinator at the start of a game, for a generator in `state`.
pub open spec fn fresh(settings: Settings, state: u64) -> AppModel {
    let cells = seeded(settings, state);
    AppModel {
        settings,
        grid: GridModel { cells, score: 0 },
        rng: state_after(state_after(state, 2), 2),
        clock: scheduled(
            blank_grid(settings.size as nat, settings.size as nat),
            cells,
            Seq::empty(),
            settings.animation_duration,
        ),
        phase: Phase::Ready,
        outcome: GameStatus::InProgress,
    }
}

/// The coordinator after a move that changed the grid: the move is
/// committed, a tile is spawned, the outcome is found, and the transitions
/// start.
pub open spec fn committed(app: AppModel, d: Direction) -> AppModel {
    let moved = move_of(app.grid, d);
    let cells = with_spawn(app.settings, moved.grid.cells, app.rng);
    AppModel {
        settings: app.settings,
        grid: GridModel { cells, score: moved.grid.score },
        rng: state_after(app.rng, 2),
        clock: scheduled(app.grid.cells, cells, moved.merges, app.clock.duration),
        phase: Phase::Animating,
        outcome: status_of(cells, app.settings.win_threshold),
    }
}

/// The coordinator after an intent. A restart starts a new game, whatever
/// the state. A move counts only in the state `Ready` and only if it changes
/// the grid; otherwise nothing changes.
pub open spec fn after_intent(app: AppModel, intent: Intent) -> AppModel {
    match intent.heading() {
        None => fresh(app.settings, app.rng),
        Some(d) => if app.phase == Phase::Ready && slide_changes(app.grid.cells, d) {
            committed(app, d)
        } else {
            app
        },
    }
}

/// The coordinator after `dt` more microseconds: the clock advances, and
/// once every transition of a move has settled the coordinator takes the
/// state that the outcome of the move calls for.
pub open spec fn after_tick(app: AppModel, dt: nat) -> AppModel {
    let clock = advanced(app.clock, dt);
    AppModel {
        settings: app.settings,
        grid: app.grid,
        rng: app.rng,
        clock,
        phase: if app.phase == Phase::Animating && at_rest(clock) {
            phase_for(app.outcome)
        } else {
            app.phase
        },
        outcome: app.outcome,
    }
}

/// The invariant of a coordinator: valid settings, a well-formed grid of
/// the size they name, a well-formed clock of the duration they name, an
/// outcome that is the status of the grid, and, unless transitions are
/// running, the state that the outcome calls for.
pub open spec fn app_wf(app: AppModel) -> bool {
    &&& app.settings.valid()
    &&& well_formed(app.grid)
    &&& app.grid.cells.len() == app.settings.size
    &&& clock_wf(app.clock)
    &&& app.clock.duration == app.settings.animation_duration
    &&& app.outcome == status_of(app.grid.cells, app.settings.win_threshold)
    &&& app.phase != Phase::Animating ==> app.phase == phase_for(app.outcome)
}

/// A tile of value 2 or 4 is a tile value.
proof fn lemma_new_values()
    ensures
        crate::tile::is_tile_value(2),
        crate::tile::is_tile_value(4),
{
    assert(crate::tile::is_tile_value(2));
}

/// On a grid of at least two rows on which no more than two cells of an
/// empty grid were filled, with tiles below the threshold, the game is in
/// progress.
proof fn lemma_seeded_in_progress(settings: Settings, state: u64)
    requires
        settings.valid(),
    ensures
        well_formed(GridModel { cells: seeded(settings, state), score: 0 }),
        seeded(settings, state).len() == settings.size,
        status_of(seeded(settings, state), settings.win_threshold) == GameStatus::InProgress,
        has_room(with_spawn(
            settings,
            blank_grid(settings.size as nat, settings.size as nat),
            state,
        )),
{
    let n = settings.size as nat;
    let blank = blank_grid(n, n);
    let policy = settings.spawn_policy();
    lemma_chosen_tile(policy, blank, draw(state, 1), draw(state, 2));
    let t1 = policy.chosen_tile(blank, draw(state, 1), draw(state, 2));
    let one = with_spawn(settings, blank, state);
    assert(one[0][0] == 0 || one[0][1] == 0);
    let next = state_after(state, 2);
    lemma_chosen_tile(policy, one, draw(next, 1), draw(next, 2));
    let t2 = policy.chosen_tile(one, draw(next, 1), draw(next, 2));
    let two = seeded(settings, state);
    lemma_new_values();
    lemma_blank_grid_sum(n, n, face_value());
    lemma_with_cell(blank, t1.row as int, t1.col as int, t1.value);
    lemma_with_cell(one, t2.row as int, t2.col as int, t2.value);
    crate::grid::lemma_earned_bound(two);
    if reaches(two, settings.win_threshold) {
        let (r, c) = choose|r: int, c: int|
            0 <= r < two.len() && 0 <= c < two[r].len() && is_reaching(
                #[trigger] two[r][c],
                settings.win_threshold,
            );
    }
}

impl View for App {
    type V = AppModel;

    closed spec fn view(&self) -> AppModel {
        AppModel {
            settings: self.settings,
            grid: self.grid@,
            rng: self.rng@,
            clock: self.clock@,
            phase: self.phase,
            outcome: self.outcome,
        }
    }
}

impl App {
    /// The invariant that every coordinator of this library meets.
    pub open spec fn wf(&self) -> bool {
        app_wf(self@)
    }

    /// A coordinator at the start of a game: the grid holds two spawned
    /// tiles, the score is 0, and the state is `Ready`.
    pub fn new(settings: &Settings) -> (app: App)
        requires
            settings.valid(),
        ensures
            app.wf(),
            app@ == fresh(*settings, settings.seed),
    {
        let mut rng = Rng::new(settings.seed);
        let grid = seed_grid(settings, &mut rng);
        let mut clock = AnimationClock::new(settings.animation_duration);
        let blank = GridState::new(settings.size);
        let merges = Vec::new();
        clock.schedule(&blank, &grid, &merges);
        App {
            settings: *settings,
            grid,
            rng,
            clock,
            phase: Phase::Ready,
            outcome: GameStatus::InProgress,
        }
    }

    /// The settings that the game was made with.
    pub fn settings(&self) -> (settings: Settings)
        ensures
            settings == self@.settings,
    {
        self.settings
    }

    /// The state of the coordinator.
    pub fn phase(&self) -> (phase: Phase)
        ensures
            phase == self@.phase,
    {
        self.phase
    }

    /// The score.
    pub fn score(&self) -> (score: u64)
        ensures
            score == self@.grid.score,
    {
        self.grid.score()
    }

    /// The grid, to read.
    pub fn grid(&self) -> (grid: &GridState)
        ensures
            grid@ == self@.grid,
    {
        &self.grid
    }

    /// What a renderer is given to draw.
    pub fn snapshot(&self) -> (shot: GridSnapshot)
        ensures
            shot.tiles@ == self@.clock.tiles,
            shot.fading@ == self@.clock.fading,
            shot.score == self@.grid.score,
            shot.status == status_in(self@.phase),
            shot.animation_duration == self@.clock.duration,
    {
        let status = match self.phase {
            Phase::Won => GameStatus::Won,
            Phase::Lost => GameStatus::Lost,
            _ => GameStatus::InProgress,
        };
        GridSnapshot {
            tiles: self.clock.tiles(),
            fading: self.clock.fading(),
            score: self.grid.score(),
            status,
            animation_duration: self.clock.duration(),
        }
    }

    /// Takes one intent.
    ///
    /// A restart starts a new game in every state. A move is taken only in
    /// the state `Ready`: if it changes the grid it is committed, the score
    /// grows by what the merges made, one tile is spawned, the outcome is
    /// found and the state becomes `Animating`; if it changes nothing,
    /// nothing happens. In every other state a move is ignored.
    pub fn handle_intent(&mut self, intent: Intent)
        requires
            old(self).wf(),
        ensures
            final(self).wf(),
            final(self)@ == after_intent(old(self)@, intent),
    {
        let direction = match intent.direction() {
            Ok(d) => d,
            Err(_) => {
                let settings = self.settings;
                let grid = seed_grid(&settings, &mut self.rng);
                let blank = GridState::new(settings.size);
                let merges = Vec::new();
                self.clock.schedule(&blank, &grid, &merges);
                self.grid = grid;
                self.phase = Phase::Ready;
                self.outcome = GameStatus::InProgress;
                return ;
            },
        };
        match self.phase {
            Phase::Ready => {},
            _ => {
                return ;
            },
        }
        let moved = MergeEngine::slide_toward(&self.grid, direction);
        if !moved.changed {
            return ;
        }
        let ghost before = self@;
        let MoveResult { grid: mut next, changed: _, merges, score_delta: _ } = moved;
        proof {
            let cells = before.grid.cells;
            let n = cells.len();
            let limit = before.settings.win_threshold;
            lemma_changed_has_room(cells, direction);
            lemma_slide_measures(cells, direction);
            lemma_total_below(cells, limit);
            assert(n * (n * limit) <= 256 * (256 * 0x0100_0000_0000)) by (nonlinear_arith)
                requires
                    0 <= n <= 256,
                    0 <= limit <= 0x0100_0000_0000,
            ;
            lemma_new_values();
        }
        let policy = self.settings.policy();
        match policy.spawn(&next, &mut self.rng) {
            Ok(tile) => {
                next.place(tile);
            },
            Err(_) => {
                // A move that changed the grid has left an empty cell.
                assert(false);
                return ;
            },
        }
        let outcome = TerminalStateDetector::evaluate(&next, self.settings.win_threshold);
        self.clock.schedule(&self.grid, &next, &merges);
        self.grid = next;
        self.outcome = outcome;
        self.phase = Phase::Animating;
    }

    /// Takes a tick of `dt` microseconds: the transitions advance, and once
    /// they have all settled after a move, the state becomes `Ready`, `Won`
    /// or `Lost` as the outcome of that move says. The grid and the score
    /// are not touched.
    pub fn update(&mut self, dt: u64)
        requires
            old(self).wf(),
        ensures
            final(self).wf(),
            final(self)@ == after_tick(old(self)@, dt as nat),
    {
        self.clock.advance(dt);
        match self.phase {
            Phase::Animating => {
                if self.clock.is_settled() {
                    self.phase = match self.outcome {
                        GameStatus::InProgress => Phase::Ready,
                        GameStatus::Won => Phase::Won,
                        GameStatus::Lost => Phase::Lost,
                    };
                }
            },
            _ => {},
        }
    }
}

/// An empty grid on which two tiles have been spawned.
fn seed_grid(settings: &Settings, rng: &mut Rng) -> (grid: GridState)
    requires
        settings.valid(),
    ensures
        grid.wf(),
        grid@ == (GridModel { cells: seeded(*settings, old(rng)@), score: 0 }),
        final(rng)@ == state_after(state_after(old(rng)@, 2), 2),
        grid@.cells.len() == settings.size,
        status_of(grid@.cells, settings.win_threshold) == GameStatus::InProgress,
{
    let ghost start = rng@;
    proof {
        lemma_seeded_in_progress(*settings, start);
        lemma_new_values();
        lemma_blank_grid_sum(settings.size as nat, settings.size as nat, face_value());
    }
    let policy = settings.policy();
    let mut grid = GridState::new(settings.size);
    let ghost blank = grid@.cells;
    match policy.spawn(&grid, rng) {
        Ok(tile) => {
            grid.place(tile);
        },
        Err(_) => {
            // An empty grid has an empty cell.
            assert(false);
        },
    }
    proof {
        lemma_with_cell(
            blank,
            policy.chosen_tile(blank, draw(start, 1), draw(start, 2)).row as int,
            policy.chosen_tile(blank, draw(start, 1), draw(start, 2)).col as int,
            policy.chosen_tile(blank, draw(start, 1), draw(start, 2)).value,
        );
    }
    match policy.spawn(&grid, rng) {
        Ok(tile) => {
            grid.place(tile);
        },
        Err(_) => {
            // A grid of four cells or more with one tile has an empty cell.
            assert(false);
        },
    }
    grid
}

/// After a move that changed the grid, the grid holds as many tiles as
/// before, less one for each merge, and one more for the spawned tile.
pub proof fn committed_move_tile_count(app: AppModel, d: Direction)
    requires
        app_wf(app),
        slide_changes(app.grid.cells, d),
    ensures
        tile_count(committed(app, d).grid.cells) == tile_count(app.grid.cells) - slide_merges(
            app.grid.cells,
            d,
        ).len() + 1,
{
    let cells = app.grid.cells;
    let moved = move_of(app.grid, d);
    lemma_slide_measures(cells, d);
    lemma_changed_has_room(cells, d);
    let policy = app.settings.spawn_policy();
    lemma_chosen_tile(policy, moved.grid.cells, draw(app.rng, 1), draw(app.rng, 2));
    let tile = policy.chosen_tile(moved.grid.cells, draw(app.rng, 1), draw(app.rng, 2));
    lemma_with_cell(moved.grid.cells, tile.row as int, tile.col as int, tile.value);
}

/// No intent but a restart ever lowers the score, and a tick of time
/// changes neither the grid nor the score.
pub proof fn score_never_falls(app: AppModel, intent: Intent, dt: nat)
    requires
        app_wf(app),
        intent.heading() is Some,
    ensures
        after_intent(app, intent).grid.score >= app.grid.score,
        after_tick(app, dt).grid == app.grid,
{
    let d = intent.heading().unwrap();
    lemma_slide_measures(app.grid.cells, d);
}

/// A move that arrives while transitions are running, or after the game
/// has ended, changes nothing.
pub proof fn moves_wait_for_ready(app: AppModel, intent: Intent)
    requires
        intent.heading() is Some,
        app.phase != Phase::Ready,
    ensures
        after_intent(app, intent) == app,
{
}

} // verus!
