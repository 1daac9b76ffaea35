use minesweeper::grid::Grid;

fn grid_with(width: u32, height: u32, mines: &Vec<(u32, u32)>) -> Grid {
    let mut grid = Grid::new();
    grid.init(width, height);
    grid.take_mine_positions(mines, mines.len() as u32);
    grid
}

fn sorted(mut v: Vec<(u32, u32)>) -> Vec<(u32, u32)> {
    v.sort();
    v
}

#[test]
fn default_grid_is_hard_and_empty() {
    let grid = Grid::new();
    assert_eq!((grid.width, grid.height), (30, 16));
    assert!(grid.mine_positions.is_empty());
}

#[test]
fn neighbors_without_wraparound() {
    let grid = grid_with(9, 9, &vec![]);
    assert_eq!(sorted(grid.get_arround_cells(1, 1)), vec![(1, 2), (2, 1), (2, 2)]);
    assert_eq!(sorted(grid.get_arround_cells(9, 9)), vec![(8, 8), (8, 9), (9, 8)]);
    assert_eq!(
        sorted(grid.get_arround_cells(1, 5)),
        vec![(1, 4), (1, 6), (2, 4), (2, 5), (2, 6)]
    );
    assert_eq!(grid.get_arround_cells(5, 9).len(), 5);
    assert_eq!(
        sorted(grid.get_arround_cells(5, 5)),
        vec![(4, 4), (4, 5), (4, 6), (5, 4), (5, 6), (6, 4), (6, 5), (6, 6)]
    );
}

#[test]
fn neighbors_come_in_reading_order() {
    let grid = Grid::new();
    assert_eq!(grid.get_arround_cells(1, 1), vec![(2, 1), (1, 2), (2, 2)]);
    assert_eq!(
        grid.get_arround_cells(15, 1),
        vec![(14, 1), (16, 1), (14, 2), (15, 2), (16, 2)]
    );
    assert_eq!(
        grid.get_arround_cells(5, 5),
        vec![(4, 4), (5, 4), (6, 4), (4, 5), (6, 5), (4, 6), (5, 6), (6, 6)]
    );
    assert_eq!(grid.get_arround_cells(30, 16), vec![(29, 15), (30, 15), (29, 16)]);
}

#[test]
fn single_cell_board_has_no_neighbors() {
    let grid = grid_with(1, 1, &vec![]);
    assert!(grid.get_arround_cells(1, 1).is_empty());
}

#[test]
fn find_cell_is_column_major() {
    let grid = grid_with(4, 3, &vec![]);
    assert_eq!(grid.find_cell(1, 1), Some(0));
    assert_eq!(grid.find_cell(1, 3), Some(2));
    assert_eq!(grid.find_cell(2, 1), Some(3));
    assert_eq!(grid.find_cell(4, 3), Some(11));
    assert_eq!(grid.find_cell(0, 1), None);
    assert_eq!(grid.find_cell(5, 1), None);
    assert_eq!(grid.find_cell(1, 4), None);
}

#[test]
fn mine_counts_around() {
    let grid = grid_with(4, 4, &vec![(1, 1), (2, 2), (4, 4)]);
    assert_eq!(grid.get_num_mines_around(1, 2), 2);
    assert_eq!(grid.get_num_mines_around(2, 1), 2);
    assert_eq!(grid.get_num_mines_around(1, 1), 1);
    assert_eq!(grid.get_num_mines_around(3, 3), 2);
    assert_eq!(grid.get_num_mines_around(4, 1), 0);
    assert!(grid.is_mine(2, 2));
    assert!(!grid.is_mine(3, 2));
}

#[test]
fn all_eight_around_counts_eight() {
    let ring = vec![(1, 1), (2, 1), (3, 1), (1, 2), (3, 2), (1, 3), (2, 3), (3, 3)];
    let grid = grid_with(3, 3, &ring);
    assert_eq!(grid.get_num_mines_around(2, 2), 8);
}

#[test]
fn take_mine_positions_takes_a_prefix() {
    let mut grid = Grid::new();
    grid.init(5, 5);
    grid.take_mine_positions(&vec![(1, 1), (2, 2), (3, 3)], 2);
    assert_eq!(grid.mine_positions, vec![(1, 1), (2, 2)]);
    grid.take_mine_positions(&vec![(4, 4)], 7);
    assert_eq!(grid.mine_positions, vec![(4, 4)]);
}

#[test]
fn generated_mines_avoid_the_excluded_cell() {
    for _ in 0..50 {
        let mut grid = Grid::new();
        grid.init(3, 3);
        grid.create_mine_positions(8, Some((2, 2)));
        assert_eq!(grid.mine_positions.len(), 8);
        assert!(!grid.is_mine(2, 2));
    }
}

#[test]
fn generated_mine_count_is_clamped() {
    let mut grid = Grid::new();
    grid.init(3, 3);
    grid.create_mine_positions(100, Some((1, 1)));
    assert_eq!(grid.mine_positions.len(), 8);
    grid.create_mine_positions(100, None);
    assert_eq!(grid.mine_positions.len(), 9);
    grid.create_mine_positions(100, Some((7, 7)));
    assert_eq!(grid.mine_positions.len(), 9);
    grid.create_mine_positions(0, None);
    assert!(grid.mine_positions.is_empty());
}

#[test]
fn generated_mines_are_distinct_and_on_the_board() {
    let mut grid = Grid::new();
    grid.init(30, 16);
    grid.create_mine_positions(99, Some((15, 8)));
    let mut v = grid.mine_positions.clone();
    assert_eq!(v.len(), 99);
    assert!(v.iter().all(|&(x, y)| (1..=30).contains(&x) && (1..=16).contains(&y)));
    v.sort();
    v.dedup();
    assert_eq!(v.len(), 99);
}

#[test]
fn generated_mines_are_shuffled() {
    let column_order: Vec<(u32, u32)> =
        (1..=9u32).flat_map(|x| (1..=9u32).map(move |y| (x, y))).take(10).collect();
    let mut differs = false;
    for _ in 0..5 {
        let mut grid = Grid::new();
        grid.init(9, 9);
        grid.create_mine_positions(10, None);
        if grid.mine_positions != column_order {
            differs = true;
        }
    }
    assert!(differs);
}
