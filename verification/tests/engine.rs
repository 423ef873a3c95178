use game2048::engine::{GameError, Intent, MergeEngine};
use game2048::engine_laws::Merge;
use game2048::grid::GridState;
use game2048::layout::Direction;
use game2048::line::{slide_line, LineMerge};
use game2048::tile::{Position, Tile};

fn grid(rows: Vec<Vec<u64>>) -> GridState {
    GridState::from_rows(rows).expect("a well-formed grid")
}

fn count(rows: &Vec<Vec<u64>>) -> usize {
    rows.iter().map(|row| row.iter().filter(|v| **v != 0).count()).sum()
}

#[test]
fn four_equal_tiles_merge_in_pairs() {
    let out = slide_line(&vec![2, 2, 2, 2]);
    assert_eq!(out.cells, vec![4, 4, 0, 0]);
    assert_eq!(out.score, 8);
    assert_eq!(
        out.merges,
        vec![
            LineMerge { first: 0, second: 1, target: 0, value: 4 },
            LineMerge { first: 2, second: 3, target: 1, value: 4 },
        ]
    );
}

#[test]
fn four_equal_tiles_never_cascade_in_any_direction() {
    let start = vec![vec![2, 2, 2, 2], vec![0; 4], vec![0; 4], vec![0; 4]];
    let left = MergeEngine::slide_toward(&grid(start.clone()), Direction::Left);
    assert_eq!(left.grid.rows()[0], vec![4, 4, 0, 0]);
    let right = MergeEngine::slide_toward(&grid(start), Direction::Right);
    assert_eq!(right.grid.rows()[0], vec![0, 0, 4, 4]);
    let column = vec![vec![2, 0, 0, 0], vec![2, 0, 0, 0], vec![2, 0, 0, 0], vec![2, 0, 0, 0]];
    let up = MergeEngine::slide_toward(&grid(column.clone()), Direction::Up);
    assert_eq!(
        up.grid.rows(),
        vec![vec![4, 0, 0, 0], vec![4, 0, 0, 0], vec![0; 4], vec![0; 4]]
    );
    let down = MergeEngine::slide_toward(&grid(column), Direction::Down);
    assert_eq!(
        down.grid.rows(),
        vec![vec![0; 4], vec![0; 4], vec![4, 0, 0, 0], vec![4, 0, 0, 0]]
    );
    assert_eq!(down.score_delta, 8);
}

#[test]
fn gap_between_equal_tiles_closes_and_merges() {
    let out = slide_line(&vec![0, 2, 0, 2]);
    assert_eq!(out.cells, vec![4, 0, 0, 0]);
    assert_eq!(out.score, 4);
    assert_eq!(out.merges, vec![LineMerge { first: 1, second: 3, target: 0, value: 4 }]);

    let start = grid(vec![vec![0, 2, 0, 2], vec![0; 4], vec![0; 4], vec![0; 4]]);
    let moved = MergeEngine::slide_toward(&start, Direction::Left);
    assert!(moved.changed);
    assert_eq!(moved.score_delta, 4);
    assert_eq!(moved.grid.rows()[0], vec![4, 0, 0, 0]);
    assert_eq!(moved.grid.score(), 4);
}

#[test]
fn two_pairs_slid_right_give_four_and_eight() {
    let start = grid(vec![vec![2, 2, 4, 4], vec![0; 4], vec![0; 4], vec![0; 4]]);
    let moved = MergeEngine::slide_toward(&start, Direction::Right);
    assert_eq!(moved.grid.rows()[0], vec![0, 0, 4, 8]);
    assert_eq!(moved.score_delta, 12);
    assert!(moved.changed);
    assert_eq!(
        moved.merges,
        vec![
            Merge {
                first: Position { row: 0, col: 3 },
                second: Position { row: 0, col: 2 },
                tile: Tile { value: 8, row: 0, col: 3, animation_progress: 0 },
            },
            Merge {
                first: Position { row: 0, col: 1 },
                second: Position { row: 0, col: 0 },
                tile: Tile { value: 4, row: 0, col: 2, animation_progress: 0 },
            },
        ]
    );
}

#[test]
fn leading_pair_merges_first_of_three() {
    assert_eq!(slide_line(&vec![2, 2, 2, 0]).cells, vec![4, 2, 0, 0]);
    assert_eq!(slide_line(&vec![4, 2, 2, 0]).cells, vec![4, 4, 0, 0]);
    assert_eq!(slide_line(&vec![2, 4, 4, 8]).cells, vec![2, 8, 8, 0]);
}

#[test]
fn empty_and_single_cell_lines_slide() {
    assert_eq!(slide_line(&vec![]).cells, Vec::<u64>::new());
    assert_eq!(slide_line(&vec![0]).cells, vec![0]);
    assert_eq!(slide_line(&vec![8]).cells, vec![8]);
    assert_eq!(slide_line(&vec![0, 0, 0]).score, 0);
}

#[test]
fn slide_leaves_the_grid_it_was_given_untouched() {
    let rows = vec![vec![2, 2, 0, 0], vec![0, 4, 4, 0], vec![2, 0, 0, 2], vec![0; 4]];
    let start = grid(rows.clone());
    let _ = MergeEngine::slide_toward(&start, Direction::Left);
    assert_eq!(start.rows(), rows);
    assert_eq!(start.score(), 0);
}

#[test]
fn slide_twice_on_the_same_grid_gives_the_same_result() {
    let rows = vec![vec![2, 2, 4, 0], vec![0, 4, 4, 8], vec![2, 0, 16, 2], vec![2, 2, 2, 2]];
    let start = grid(rows);
    for d in [Direction::Left, Direction::Right, Direction::Up, Direction::Down] {
        let first = MergeEngine::slide_toward(&start, d);
        let second = MergeEngine::slide_toward(&start, d);
        assert_eq!(first.grid.rows(), second.grid.rows());
        assert_eq!(first.grid.score(), second.grid.score());
        assert_eq!(first.changed, second.changed);
        assert_eq!(first.merges, second.merges);
        assert_eq!(first.score_delta, second.score_delta);
    }
}

#[test]
fn settled_line_slid_again_does_not_change() {
    let once = slide_line(&vec![2, 0, 2, 8]);
    assert_eq!(once.cells, vec![4, 8, 0, 0]);
    let twice = slide_line(&once.cells);
    assert_eq!(twice.cells, once.cells);
    assert!(twice.merges.is_empty());

    let start = grid(vec![vec![4, 8, 0, 0], vec![2, 0, 0, 0], vec![0; 4], vec![16, 2, 4, 0]]);
    let moved = MergeEngine::slide_toward(&start, Direction::Left);
    assert!(!moved.changed);
    assert_eq!(moved.score_delta, 0);
    assert_eq!(moved.grid.rows(), start.rows());
}

#[test]
fn merged_line_slid_again_may_merge_again() {
    let once = slide_line(&vec![2, 2, 2, 2]);
    let twice = slide_line(&once.cells);
    assert_eq!(twice.cells, vec![8, 0, 0, 0]);
}

#[test]
fn move_loses_one_tile_for_each_merge() {
    let rows = vec![vec![2, 2, 4, 4], vec![0, 4, 4, 8], vec![2, 0, 16, 2], vec![2, 2, 2, 2]];
    let start = grid(rows.clone());
    for d in [Direction::Left, Direction::Right, Direction::Up, Direction::Down] {
        let moved = MergeEngine::slide_toward(&start, d);
        assert_eq!(count(&moved.grid.rows()), count(&rows) - moved.merges.len());
        let made: u64 = moved.merges.iter().map(|m| m.tile.value).sum();
        assert_eq!(moved.score_delta, made);
        let before: u64 = rows.iter().flatten().sum();
        let after: u64 = moved.grid.rows().iter().flatten().sum();
        assert_eq!(before, after);
    }
}

#[test]
fn up_and_down_name_merges_by_grid_cells() {
    let start = grid(vec![vec![0, 2, 0], vec![0, 0, 0], vec![0, 2, 0]]);
    let up = MergeEngine::slide_toward(&start, Direction::Up);
    assert_eq!(
        up.merges,
        vec![Merge {
            first: Position { row: 0, col: 1 },
            second: Position { row: 2, col: 1 },
            tile: Tile { value: 4, row: 0, col: 1, animation_progress: 0 },
        }]
    );
    let down = MergeEngine::slide_toward(&start, Direction::Down);
    assert_eq!(
        down.merges,
        vec![Merge {
            first: Position { row: 2, col: 1 },
            second: Position { row: 0, col: 1 },
            tile: Tile { value: 4, row: 2, col: 1, animation_progress: 0 },
        }]
    );
    assert_eq!(down.grid.rows(), vec![vec![0, 0, 0], vec![0, 0, 0], vec![0, 4, 0]]);
}

#[test]
fn restart_names_no_direction() {
    let start = grid(vec![vec![2, 0], vec![0, 2]]);
    match MergeEngine::slide(&start, Intent::Restart) {
        Err(e) => assert_eq!(e, GameError::InvalidDirection),
        Ok(_) => panic!("a restart is no move"),
    }
    assert_eq!(Intent::Restart.direction(), Err(GameError::InvalidDirection));
    assert_eq!(Intent::MoveUp.direction(), Ok(Direction::Up));
}

#[test]
fn slide_by_intent_moves_as_the_direction_does() {
    let start = grid(vec![vec![2, 0], vec![2, 2]]);
    let by_intent = MergeEngine::slide(&start, Intent::MoveDown).expect("a move");
    let by_direction = MergeEngine::slide_toward(&start, Direction::Down);
    assert_eq!(by_intent.grid.rows(), by_direction.grid.rows());
    assert_eq!(by_intent.grid.rows(), vec![vec![0, 0], vec![4, 2]]);
    let left = MergeEngine::slide(&start, Intent::MoveLeft).expect("a move");
    assert_eq!(left.grid.rows(), vec![vec![2, 0], vec![4, 0]]);
    let right = MergeEngine::slide(&start, Intent::MoveRight).expect("a move");
    assert_eq!(right.grid.rows(), vec![vec![0, 2], vec![0, 4]]);
    let up = MergeEngine::slide(&start, Intent::MoveUp).expect("a move");
    assert_eq!(up.grid.rows(), vec![vec![4, 2], vec![0, 0]]);
}

#[test]
fn score_grows_by_the_score_of_the_move() {
    let start = grid(vec![vec![4, 4], vec![8, 8]]);
    let first = MergeEngine::slide_toward(&start, Direction::Left);
    assert_eq!(first.score_delta, 24);
    assert_eq!(first.grid.score(), 24);
    let second = MergeEngine::slide_toward(&first.grid, Direction::Up);
    assert_eq!(second.score_delta, 0);
    assert_eq!(second.grid.score(), 24);
    assert!(!second.changed);
}
