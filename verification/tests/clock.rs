use game2048::clock::AnimationClock;
use game2048::engine::MergeEngine;
use game2048::grid::GridState;
use game2048::layout::Direction;
use game2048::tile::Tile;

fn moved_clock(duration: u64) -> AnimationClock {
    let before = GridState::from_rows(vec![vec![2, 2, 0], vec![8, 0, 0], vec![0, 0, 4]]).unwrap();
    let moved = MergeEngine::slide_toward(&before, Direction::Left);
    let mut clock = AnimationClock::new(duration);
    clock.schedule(&before, &moved.grid, &moved.merges);
    clock
}

#[test]
fn schedule_starts_the_tiles_that_changed() {
    let clock = moved_clock(150);
    assert_eq!(
        clock.tiles(),
        vec![
            Tile { value: 4, row: 0, col: 0, animation_progress: 0 },
            Tile { value: 8, row: 1, col: 0, animation_progress: 150 },
            Tile { value: 4, row: 2, col: 0, animation_progress: 0 },
        ]
    );
    assert_eq!(
        clock.fading(),
        vec![
            Tile { value: 2, row: 0, col: 0, animation_progress: 0 },
            Tile { value: 2, row: 0, col: 1, animation_progress: 0 },
        ]
    );
    assert!(!clock.is_settled());
    assert_eq!(clock.duration(), 150);
}

#[test]
fn advance_moves_progress_and_stops_at_the_duration() {
    let mut clock = moved_clock(150);
    clock.advance(100);
    assert_eq!(clock.tiles()[0].animation_progress, 100);
    assert_eq!(clock.tiles()[1].animation_progress, 150);
    assert_eq!(clock.fading().len(), 2);
    assert_eq!(clock.fading()[0].animation_progress, 100);
    assert!(!clock.is_settled());
    clock.advance(100);
    assert_eq!(clock.tiles()[0].animation_progress, 150);
    assert_eq!(clock.tiles()[2].animation_progress, 150);
    assert!(clock.fading().is_empty());
    assert!(clock.is_settled());
    clock.advance(u64::MAX);
    assert_eq!(clock.tiles()[0].animation_progress, 150);
    assert!(clock.is_settled());
}

#[test]
fn advance_by_no_time_changes_nothing() {
    let mut clock = moved_clock(150);
    clock.advance(40);
    let tiles = clock.tiles();
    let fading = clock.fading();
    clock.advance(0);
    clock.advance(0);
    assert_eq!(clock.tiles(), tiles);
    assert_eq!(clock.fading(), fading);
}

#[test]
fn two_advances_are_one_by_their_sum() {
    let mut twice = moved_clock(150);
    twice.advance(60);
    twice.advance(70);
    let mut once = moved_clock(150);
    once.advance(130);
    assert_eq!(twice.tiles(), once.tiles());
    assert_eq!(twice.fading(), once.fading());
}

#[test]
fn advance_by_the_duration_settles_everything() {
    let mut clock = moved_clock(150);
    clock.advance(150);
    assert!(clock.is_settled());
    assert!(clock.fading().is_empty());
}

#[test]
fn clock_without_duration_is_settled_at_once() {
    let clock = moved_clock(0);
    assert!(clock.is_settled());
    assert!(clock.fading().is_empty());
    assert_eq!(clock.tiles().len(), 3);
}

#[test]
fn new_clock_shows_nothing() {
    let clock = AnimationClock::new(10);
    assert!(clock.tiles().is_empty());
    assert!(clock.fading().is_empty());
    assert!(clock.is_settled());
}
