use game2048::grid::GridState;
use game2048::tile::{valid_tile_value, Position, Tile, TOTAL_LIMIT};

#[test]
fn new_grid_is_empty() {
    let grid = GridState::new(3);
    assert_eq!(grid.size(), 3);
    assert_eq!(grid.score(), 0);
    assert_eq!(grid.rows(), vec![vec![0; 3]; 3]);
    assert_eq!(grid.empty_cells().len(), 9);
    assert_eq!(GridState::new(0).rows(), Vec::<Vec<u64>>::new());
}

#[test]
fn from_rows_takes_square_grids_of_tile_values() {
    assert!(GridState::from_rows(vec![vec![2, 0], vec![0, 1024]]).is_some());
    assert!(GridState::from_rows(vec![]).is_some());
    assert!(GridState::from_rows(vec![vec![2, 0, 0], vec![0, 4, 0]]).is_none());
    assert!(GridState::from_rows(vec![vec![2, 0], vec![0]]).is_none());
    assert!(GridState::from_rows(vec![vec![3, 0], vec![0, 0]]).is_none());
    assert!(GridState::from_rows(vec![vec![1, 0], vec![0, 0]]).is_none());
    assert!(GridState::from_rows(vec![vec![6, 0], vec![0, 0]]).is_none());
}

#[test]
fn from_rows_holds_the_total_to_the_limit() {
    let half = TOTAL_LIMIT / 2;
    assert!(GridState::from_rows(vec![vec![half, half], vec![0, 0]]).is_some());
    assert!(GridState::from_rows(vec![vec![half, half], vec![2, 0]]).is_none());
    assert!(GridState::from_rows(vec![vec![TOTAL_LIMIT * 2, 0], vec![0, 0]]).is_none());
}

#[test]
fn tile_values_are_powers_of_two_from_two() {
    assert!(!valid_tile_value(0));
    assert!(!valid_tile_value(1));
    assert!(valid_tile_value(2));
    assert!(!valid_tile_value(3));
    assert!(valid_tile_value(4));
    assert!(!valid_tile_value(12));
    assert!(valid_tile_value(2048));
    assert!(valid_tile_value(1 << 63));
    assert!(!valid_tile_value(u64::MAX));
}

#[test]
fn cells_are_read_by_row_and_column() {
    let grid = GridState::from_rows(vec![vec![2, 0], vec![8, 4]]).unwrap();
    assert_eq!(grid.value_at(0, 0), 2);
    assert_eq!(grid.value_at(1, 0), 8);
    assert_eq!(grid.value_at(0, 1), 0);
    assert_eq!(grid.tile_at(0, 1), None);
    assert_eq!(
        grid.tile_at(1, 1),
        Some(Tile { value: 4, row: 1, col: 1, animation_progress: 0 })
    );
}

#[test]
fn empty_cells_come_row_by_row() {
    let grid = GridState::from_rows(vec![vec![2, 0, 0], vec![0, 4, 0], vec![8, 8, 8]]).unwrap();
    assert_eq!(
        grid.empty_cells(),
        vec![
            Position { row: 0, col: 1 },
            Position { row: 0, col: 2 },
            Position { row: 1, col: 0 },
            Position { row: 1, col: 2 },
        ]
    );
}

#[test]
fn place_fills_one_cell() {
    let mut grid = GridState::from_rows(vec![vec![2, 0], vec![0, 4]]).unwrap();
    grid.place(Tile { value: 4, row: 1, col: 0, animation_progress: 0 });
    assert_eq!(grid.rows(), vec![vec![2, 0], vec![4, 4]]);
    assert_eq!(grid.score(), 0);
}

#[test]
fn threshold_is_met_by_a_tile_at_or_above_it() {
    let grid = GridState::from_rows(vec![vec![2, 0], vec![0, 64]]).unwrap();
    assert!(grid.has_tile_at_least(64));
    assert!(grid.has_tile_at_least(33));
    assert!(!grid.has_tile_at_least(65));
    assert!(!GridState::new(2).has_tile_at_least(0));
}
