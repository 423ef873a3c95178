use game2048::detector::{GameStatus, TerminalStateDetector};
use game2048::grid::GridState;

fn grid(rows: Vec<Vec<u64>>) -> GridState {
    GridState::from_rows(rows).expect("a well-formed grid")
}

#[test]
fn tile_at_threshold_wins_whatever_else_is_there() {
    let open = grid(vec![vec![2048, 0, 0, 0], vec![0; 4], vec![0; 4], vec![0; 4]]);
    assert_eq!(TerminalStateDetector::evaluate(&open, 2048), GameStatus::Won);
    let above = grid(vec![vec![4096, 0], vec![0, 0]]);
    assert_eq!(TerminalStateDetector::evaluate(&above, 2048), GameStatus::Won);
    let full = grid(vec![vec![2, 4], vec![4, 2048]]);
    assert_eq!(TerminalStateDetector::evaluate(&full, 2048), GameStatus::Won);
}

#[test]
fn full_grid_without_a_move_is_lost() {
    let full = grid(vec![
        vec![2, 4, 2, 4],
        vec![4, 2, 4, 2],
        vec![2, 4, 2, 4],
        vec![4, 2, 4, 2],
    ]);
    assert_eq!(TerminalStateDetector::evaluate(&full, 2048), GameStatus::Lost);
}

#[test]
fn full_grid_with_an_equal_pair_is_in_progress() {
    let row_pair = grid(vec![vec![2, 2], vec![4, 8]]);
    assert_eq!(TerminalStateDetector::evaluate(&row_pair, 2048), GameStatus::InProgress);
    let column_pair = grid(vec![vec![2, 4], vec![2, 8]]);
    assert_eq!(TerminalStateDetector::evaluate(&column_pair, 2048), GameStatus::InProgress);
}

#[test]
fn one_empty_cell_keeps_the_game_in_progress() {
    let open = grid(vec![
        vec![2, 4, 2, 4],
        vec![4, 2, 4, 2],
        vec![2, 4, 2, 4],
        vec![4, 2, 4, 0],
    ]);
    assert_eq!(TerminalStateDetector::evaluate(&open, 2048), GameStatus::InProgress);
}

#[test]
fn board_without_equal_neighbours_is_lost_once_full() {
    let full = grid(vec![vec![2, 4, 8], vec![16, 32, 64], vec![128, 256, 512]]);
    assert_eq!(TerminalStateDetector::evaluate(&full, 2048), GameStatus::Lost);
    assert_eq!(full.rows(), vec![vec![2, 4, 8], vec![16, 32, 64], vec![128, 256, 512]]);
}

#[test]
fn empty_grid_is_in_progress() {
    assert_eq!(TerminalStateDetector::evaluate(&GridState::new(4), 2048), GameStatus::InProgress);
}
