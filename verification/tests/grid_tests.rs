use game_of_life::cell::Cell;
use game_of_life::grid::Grid;

fn board(x_cells: u32, y_cells: u32, live: &[usize]) -> Grid {
    let mut grid = Grid::new(40, 40, x_cells, y_cells, 1, 0);
    let mut table = vec![false; (x_cells * y_cells) as usize];
    for k in live {
        table[*k] = true;
    }
    grid.update_cells(table);
    grid
}

fn live_indices(table: &[bool]) -> Vec<usize> {
    (0..table.len()).filter(|k| table[*k]).collect()
}

fn states(grid: &Grid) -> Vec<bool> {
    grid.cells().iter().map(|cell| cell.state).collect()
}

#[test]
fn new_computes_truncated_padding() {
    let grid = Grid::new(640, 480, 64, 7, 2, 0);
    assert_eq!(grid.width(), 640);
    assert_eq!(grid.height(), 480);
    assert_eq!(grid.x_cells(), 64);
    assert_eq!(grid.y_cells(), 7);
    assert_eq!(grid.line_weight(), 2);
    assert_eq!(grid.x_pad(), 10);
    assert_eq!(grid.y_pad(), 68);
}

#[test]
fn new_padding_can_be_zero() {
    let grid = Grid::new(3, 5, 4, 6, 1, 0);
    assert_eq!(grid.x_pad(), 0);
    assert_eq!(grid.y_pad(), 0);
    assert_eq!(grid.cells().len(), 24);
}

#[test]
fn new_lays_cells_out_row_major() {
    let grid = Grid::new(30, 20, 3, 2, 1, 0);
    let positions: Vec<(u32, u32)> = grid.cells().iter().map(|cell| cell.position).collect();
    assert_eq!(positions, vec![(0, 0), (1, 0), (2, 0), (0, 1), (1, 1), (2, 1)]);
}

#[test]
fn new_holds_every_position_once() {
    let (x_cells, y_cells) = (7u32, 5u32);
    let grid = Grid::new(70, 50, x_cells, y_cells, 1, 12);
    assert_eq!(grid.cells().len(), 35);
    for y in 0..y_cells {
        for x in 0..x_cells {
            let found = grid.cells().iter().filter(|cell| cell.position == (x, y)).count();
            assert_eq!(found, 1);
            assert_eq!(grid.cells()[(y * x_cells + x) as usize].position, (x, y));
        }
    }
}

#[test]
fn new_without_draws_is_all_dead() {
    let grid = Grid::new(640, 640, 64, 64, 2, 0);
    assert_eq!(grid.cells().len(), 4096);
    assert!(grid.cells().iter().all(|cell| !cell.state));
}

#[test]
fn new_with_one_draw_has_one_live_cell() {
    let grid = Grid::new(100, 100, 10, 10, 2, 1);
    assert_eq!(grid.cells().iter().filter(|cell| cell.state).count(), 1);
}

#[test]
fn random_seed_is_bounded_by_draws_and_cells() {
    for num in [0u32, 1, 2, 5, 16, 17, 400] {
        let cells = Grid::init_cells_rand(4, 4, num);
        assert_eq!(cells.len(), 16);
        let live = cells.iter().filter(|cell| cell.state).count() as u32;
        assert!(live <= num);
        assert!(live <= 16);
        assert_eq!(live % 2, num % 2);
    }
}

#[test]
fn random_seed_on_a_single_cell() {
    let odd = Grid::init_cells_rand(1, 1, 5);
    assert_eq!(odd.len(), 1);
    assert!(odd[0].state);
    let even = Grid::init_cells_rand(1, 1, 6);
    assert!(!even[0].state);
}

#[test]
fn random_seed_of_an_empty_board() {
    assert!(Grid::init_cells_rand(0, 5, 0).is_empty());
    assert!(Grid::init_cells_rand(5, 0, 0).is_empty());
}

#[test]
fn blank_cells_are_dead_and_row_major() {
    let cells = Grid::blank_cells(2, 3);
    let positions: Vec<(u32, u32)> = cells.iter().map(|cell| cell.position).collect();
    assert_eq!(positions, vec![(0, 0), (1, 0), (0, 1), (1, 1), (0, 2), (1, 2)]);
    assert!(cells.iter().all(|cell| !cell.state));
}

#[test]
fn init_cells_makes_one_live_cell_per_position() {
    let cells: Vec<Cell> = Grid::init_cells(4, 4, &[(1, 2), (3, 0), (1, 2)]);
    assert_eq!(cells.len(), 3);
    assert_eq!(cells[0].position, (1, 2));
    assert_eq!(cells[1].position, (3, 0));
    assert_eq!(cells[2].position, (1, 2));
    assert!(cells.iter().all(|cell| cell.state));
    assert!(Grid::init_cells(4, 4, &[]).is_empty());
}

#[test]
fn update_cells_takes_every_entry() {
    let mut grid = Grid::new(30, 30, 3, 3, 1, 7);
    let table = vec![true, false, false, true, true, false, false, false, true];
    grid.update_cells(table.clone());
    assert_eq!(states(&grid), table);
    let positions: Vec<(u32, u32)> = grid.cells().iter().map(|cell| cell.position).collect();
    assert_eq!(
        positions,
        vec![(0, 0), (1, 0), (2, 0), (0, 1), (1, 1), (2, 1), (0, 2), (1, 2), (2, 2)]
    );
    assert_eq!(grid.x_pad(), 10);
    let all_dead = vec![false; 9];
    grid.update_cells(all_dead.clone());
    assert_eq!(states(&grid), all_dead);
}

#[test]
fn process_life_returns_one_entry_per_cell() {
    for (x_cells, y_cells) in [(1u32, 1u32), (2, 2), (5, 5), (3, 7), (7, 3), (64, 64)] {
        let mut grid = Grid::new(640, 640, x_cells, y_cells, 2, 30);
        let table = grid.process_life();
        assert_eq!(table.len(), (x_cells * y_cells) as usize);
        assert_eq!(table.len(), grid.cells().len());
    }
}

#[test]
fn process_life_leaves_the_grid_alone() {
    let mut grid = board(4, 4, &[1, 4, 6]);
    let before = states(&grid);
    let _ = grid.process_life();
    assert_eq!(states(&grid), before);
}

#[test]
fn dead_cell_with_three_live_candidates_comes_alive() {
    let mut grid = board(4, 4, &[1, 4, 6]);
    let table = grid.process_life();
    assert!(table[5]);
    assert_eq!(live_indices(&table), vec![4, 5, 6, 9]);
}

#[test]
fn live_cell_with_two_live_candidates_stays() {
    let mut grid = board(4, 4, &[4, 5]);
    let table = grid.process_life();
    assert!(table[5]);
    assert_eq!(live_indices(&table), vec![4, 5]);
}

#[test]
fn live_cell_with_one_live_candidate_dies() {
    let mut grid = board(4, 4, &[5]);
    let table = grid.process_life();
    assert!(!table[5]);
    assert_eq!(live_indices(&table), Vec::<usize>::new());
}

#[test]
fn live_cell_without_live_candidates_dies() {
    let mut grid = board(4, 4, &[15]);
    let table = grid.process_life();
    assert!(!table[15]);
}

#[test]
fn live_cell_with_four_live_candidates_dies() {
    let mut grid = board(4, 4, &[1, 4, 5, 6]);
    let table = grid.process_life();
    assert!(!table[5]);
    assert_eq!(live_indices(&table), vec![9, 13]);
}

#[test]
fn a_candidate_listed_twice_counts_twice() {
    let mut grid = board(4, 4, &[0, 5]);
    let table = grid.process_life();
    assert_eq!(live_indices(&table), vec![5]);
}

#[test]
fn process_life_on_a_mixed_board() {
    let mut grid = board(4, 4, &[0, 1, 2, 5, 7, 10, 11, 12, 15]);
    let table = grid.process_life();
    assert_eq!(live_indices(&table), vec![0, 2, 7, 8, 11, 14, 15]);
    let mut more = board(4, 4, &[1, 2, 4, 5, 6]);
    assert_eq!(live_indices(&more.process_life()), vec![1, 2, 7, 10, 13]);
}

#[test]
fn process_life_on_boards_that_are_not_square() {
    let mut wide = board(3, 2, &[0, 1, 2, 3, 4, 5]);
    assert_eq!(live_indices(&wide.process_life()), vec![0, 2]);
    let mut tall = board(2, 3, &[0, 1, 2, 3, 4, 5]);
    assert_eq!(live_indices(&tall.process_life()), vec![0, 1, 2, 3, 4, 5]);
}

#[test]
fn dead_two_by_two_board_stays_dead() {
    let mut grid = Grid::new(20, 20, 2, 2, 1, 0);
    let table = grid.process_life();
    assert_eq!(table, vec![false; 4]);
    grid.update_cells(table);
    assert!(grid.cells().iter().all(|cell| !cell.state));
}

#[test]
fn full_two_by_two_board_stays_full() {
    let mut grid = board(2, 2, &[0, 1, 2, 3]);
    let table = grid.process_life();
    assert_eq!(table, vec![true; 4]);
}
