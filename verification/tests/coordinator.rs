use game2048::coordinator::{App, Phase};
use game2048::detector::GameStatus;
use game2048::engine::{Intent, MergeEngine};
use game2048::layout::Direction;
use game2048::settings::{Settings, MAX_SIZE, MAX_WIN_THRESHOLD};

fn settings(seed: u64) -> Settings {
    Settings { seed, ..Settings::standard() }
}

fn count(rows: &Vec<Vec<u64>>) -> usize {
    rows.iter().map(|row| row.iter().filter(|v| **v != 0).count()).sum()
}

fn moves() -> [(Intent, Direction); 4] {
    [
        (Intent::MoveLeft, Direction::Left),
        (Intent::MoveUp, Direction::Up),
        (Intent::MoveRight, Direction::Right),
        (Intent::MoveDown, Direction::Down),
    ]
}

fn settle(app: &mut App) {
    let duration = app.settings().animation_duration;
    app.update(duration);
}

#[test]
fn new_game_is_ready_with_two_tiles() {
    for seed in 0..50 {
        let app = App::new(&settings(seed));
        assert_eq!(app.phase(), Phase::Ready);
        assert_eq!(app.score(), 0);
        let rows = app.grid().rows();
        assert_eq!(rows.len(), 4);
        assert_eq!(count(&rows), 2);
        assert!(rows.iter().flatten().all(|v| *v == 0 || *v == 2 || *v == 4));
        let shot = app.snapshot();
        assert_eq!(shot.tiles.len(), 2);
        assert_eq!(shot.score, 0);
        assert_eq!(shot.status, GameStatus::InProgress);
        assert_eq!(shot.animation_duration, 150_000);
    }
}

#[test]
fn games_with_one_seed_are_alike() {
    let mut a = App::new(&settings(5));
    let mut b = App::new(&settings(5));
    for (intent, _) in moves() {
        a.handle_intent(intent);
        b.handle_intent(intent);
        settle(&mut a);
        settle(&mut b);
        assert_eq!(a.grid().rows(), b.grid().rows());
        assert_eq!(a.score(), b.score());
    }
}

#[test]
fn changed_move_counts_tiles_less_merges_plus_one() {
    for seed in 0..20 {
        let mut app = App::new(&settings(seed));
        for round in 0..40 {
            let (intent, direction) = moves()[round % 4];
            if app.phase() != Phase::Ready {
                break;
            }
            let before = app.grid().rows();
            let score = app.score();
            let tried = MergeEngine::slide_toward(app.grid(), direction);
            app.handle_intent(intent);
            if tried.changed {
                assert_eq!(app.phase(), Phase::Animating);
                assert_eq!(count(&app.grid().rows()), count(&before) - tried.merges.len() + 1);
                assert_eq!(app.score(), score + tried.score_delta);
            } else {
                assert_eq!(app.phase(), Phase::Ready);
                assert_eq!(app.grid().rows(), before);
                assert_eq!(app.score(), score);
            }
            settle(&mut app);
        }
    }
}

#[test]
fn moves_are_ignored_while_tiles_animate() {
    let mut app = App::new(&settings(3));
    let mut moved = false;
    for (intent, _) in moves() {
        app.handle_intent(intent);
        if app.phase() == Phase::Animating {
            moved = true;
            break;
        }
    }
    assert!(moved);
    let rows = app.grid().rows();
    let score = app.score();
    for (intent, _) in moves() {
        app.handle_intent(intent);
        assert_eq!(app.phase(), Phase::Animating);
        assert_eq!(app.grid().rows(), rows);
        assert_eq!(app.score(), score);
    }
    app.update(149_999);
    assert_eq!(app.phase(), Phase::Animating);
    app.update(1);
    assert_eq!(app.phase(), Phase::Ready);
    assert_eq!(app.grid().rows(), rows);
}

#[test]
fn ticks_touch_neither_grid_nor_score() {
    let mut app = App::new(&settings(11));
    app.handle_intent(Intent::MoveLeft);
    app.handle_intent(Intent::MoveUp);
    let rows = app.grid().rows();
    let score = app.score();
    for dt in [0, 1, 1000, 0, 200_000, 0] {
        app.update(dt);
        assert_eq!(app.grid().rows(), rows);
        assert_eq!(app.score(), score);
    }
    assert!(app.snapshot().fading.is_empty());
    assert!(app.snapshot().tiles.iter().all(|t| t.animation_progress == 150_000));
}

#[test]
fn restart_starts_over_in_every_state() {
    let mut app = App::new(&settings(8));
    for round in 0..30 {
        app.handle_intent(moves()[round % 4].0);
        settle(&mut app);
    }
    app.handle_intent(Intent::MoveLeft);
    app.handle_intent(Intent::Restart);
    assert_eq!(app.phase(), Phase::Ready);
    assert_eq!(app.score(), 0);
    assert_eq!(count(&app.grid().rows()), 2);
    assert!(app.snapshot().fading.is_empty());
}

#[test]
fn low_threshold_game_is_won_and_then_takes_only_a_restart() {
    let low = Settings { win_threshold: 8, seed: 1, ..Settings::standard() };
    assert!(low.is_valid());
    let mut app = App::new(&low);
    let mut rounds = 0;
    while app.phase() == Phase::Ready || app.phase() == Phase::Animating {
        app.handle_intent(moves()[rounds % 4].0);
        settle(&mut app);
        rounds += 1;
        assert!(rounds < 10_000);
    }
    let phase = app.phase();
    assert!(phase == Phase::Won || phase == Phase::Lost);
    if phase == Phase::Won {
        assert!(app.grid().has_tile_at_least(8));
        assert_eq!(app.snapshot().status, GameStatus::Won);
    }
    let rows = app.grid().rows();
    for (intent, _) in moves() {
        app.handle_intent(intent);
        assert_eq!(app.phase(), phase);
        assert_eq!(app.grid().rows(), rows);
    }
    app.handle_intent(Intent::Restart);
    assert_eq!(app.phase(), Phase::Ready);
    assert_eq!(app.score(), 0);
}

#[test]
fn small_grid_game_runs_to_its_end() {
    let small = Settings { size: 2, win_threshold: 2048, seed: 21, ..Settings::standard() };
    let mut app = App::new(&small);
    let mut rounds = 0;
    let mut last_score = 0;
    while app.phase() != Phase::Lost && app.phase() != Phase::Won {
        app.handle_intent(moves()[rounds % 4].0);
        settle(&mut app);
        assert!(app.score() >= last_score);
        last_score = app.score();
        rounds += 1;
        assert!(rounds < 100_000);
    }
    if app.phase() == Phase::Lost {
        assert_eq!(count(&app.grid().rows()), 4);
        for (_, direction) in moves() {
            assert!(!MergeEngine::slide_toward(app.grid(), direction).changed);
        }
        assert_eq!(app.snapshot().status, GameStatus::Lost);
    }
}

#[test]
fn settings_are_checked() {
    assert!(Settings::standard().is_valid());
    assert_eq!(Settings::default(), Settings::standard());
    assert!(!Settings { size: 1, ..Settings::standard() }.is_valid());
    assert!(Settings { size: MAX_SIZE, ..Settings::standard() }.is_valid());
    assert!(!Settings { size: MAX_SIZE + 1, ..Settings::standard() }.is_valid());
    assert!(!Settings { win_threshold: 4, ..Settings::standard() }.is_valid());
    assert!(Settings { win_threshold: MAX_WIN_THRESHOLD, ..Settings::standard() }.is_valid());
    assert!(!Settings { win_threshold: MAX_WIN_THRESHOLD + 1, ..Settings::standard() }.is_valid());
    assert!(!Settings { two_weight: 0, four_weight: 0, ..Settings::standard() }.is_valid());
    assert_eq!(Settings::standard().policy().two_weight, 9);
}
