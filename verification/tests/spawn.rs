use game2048::engine::GameError;
use game2048::grid::GridState;
use game2048::spawn::{Rng, SpawnPolicy};
use game2048::tile::Tile;

#[test]
fn generator_gives_the_known_numbers() {
    let mut rng = Rng::new(0);
    assert_eq!(rng.next_u64(), 0xE220_A839_7B1D_CDAF);
    assert_eq!(rng.next_u64(), 0x6E78_9E6A_A1B9_65F4);
    assert_eq!(rng.next_u64(), 0x06C4_5D18_8009_454F);
}

#[test]
fn generators_with_one_seed_agree() {
    let mut a = Rng::new(42);
    let mut b = Rng::new(42);
    for _ in 0..16 {
        assert_eq!(a.next_u64(), b.next_u64());
    }
    assert_ne!(Rng::new(1).next_u64(), Rng::new(2).next_u64());
}

#[test]
fn select_takes_the_empty_cell_that_the_number_names() {
    let grid = GridState::from_rows(vec![vec![2, 0, 0], vec![0, 4, 0], vec![8, 8, 8]]).unwrap();
    let policy = SpawnPolicy::standard();
    assert_eq!(
        policy.select(&grid, 0, 0),
        Ok(Tile { value: 2, row: 0, col: 1, animation_progress: 0 })
    );
    assert_eq!(
        policy.select(&grid, 2, 0),
        Ok(Tile { value: 2, row: 1, col: 0, animation_progress: 0 })
    );
    assert_eq!(
        policy.select(&grid, 7, 0),
        Ok(Tile { value: 2, row: 1, col: 2, animation_progress: 0 })
    );
}

#[test]
fn select_gives_two_below_the_weight_and_four_from_it() {
    let grid = GridState::new(2);
    let policy = SpawnPolicy::standard();
    for roll in 0..9 {
        assert_eq!(policy.select(&grid, 0, roll).unwrap().value, 2);
    }
    assert_eq!(policy.select(&grid, 0, 9).unwrap().value, 4);
    assert_eq!(policy.select(&grid, 0, 10).unwrap().value, 2);
    assert_eq!(policy.select(&grid, 0, 19).unwrap().value, 4);
    let always_four = SpawnPolicy { two_weight: 0, four_weight: 3 };
    assert_eq!(always_four.select(&grid, 0, 5).unwrap().value, 4);
    let always_two = SpawnPolicy { two_weight: 1, four_weight: 0 };
    assert_eq!(always_two.select(&grid, 0, u64::MAX).unwrap().value, 2);
}

#[test]
fn full_grid_has_no_cell_to_spawn_in() {
    let full = GridState::from_rows(vec![vec![2, 4], vec![4, 2]]).unwrap();
    let policy = SpawnPolicy::standard();
    assert_eq!(policy.select(&full, 3, 3), Err(GameError::NoEmptyCell));
    let mut rng = Rng::new(7);
    assert_eq!(policy.spawn(&full, &mut rng), Err(GameError::NoEmptyCell));
    assert_eq!(rng, Rng::new(7));
}

#[test]
fn spawn_uses_the_next_two_numbers() {
    let grid = GridState::from_rows(vec![vec![2, 0, 0], vec![0, 4, 0], vec![8, 8, 8]]).unwrap();
    let policy = SpawnPolicy::standard();
    let mut rng = Rng::new(99);
    let mut twin = Rng::new(99);
    let pick = twin.next_u64();
    let roll = twin.next_u64();
    let tile = policy.spawn(&grid, &mut rng).unwrap();
    assert_eq!(Ok(tile), policy.select(&grid, pick, roll));
    assert_eq!(rng, twin);
    assert_eq!(grid.value_at(tile.row, tile.col), 0);
    assert!(tile.value == 2 || tile.value == 4);
}

#[test]
fn numbers_in_a_run_select_each_empty_cell_once() {
    let grid = GridState::from_rows(vec![vec![2, 0, 0], vec![0, 4, 0], vec![8, 8, 8]]).unwrap();
    let policy = SpawnPolicy::standard();
    let empty = grid.empty_cells();
    for run in 0..3u64 {
        for (i, at) in empty.iter().enumerate() {
            let tile = policy.select(&grid, run * 4 + i as u64, 0).unwrap();
            assert_eq!((tile.row, tile.col), (at.row, at.col));
        }
    }
}
