use minesweeper::board::Board;
use minesweeper::cell::{Cell, CellState};
use minesweeper::game::init;
use minesweeper::grid::Grid;
use minesweeper::mine::{update_mines, RemainingMine, TotalMine};
use minesweeper::state::{Difficulty, GameState};

fn board_with(width: u32, height: u32, mines: Vec<(u32, u32)>) -> Board {
    let mut grid = Grid::new();
    grid.init(width, height);
    grid.take_mine_positions(&mines, mines.len() as u32);
    Board::new(grid)
}

fn at(board: &Board, x: u32, y: u32) -> Cell {
    board.cells[board.grid.find_cell(x, y).unwrap()]
}

fn click(board: &mut Board, x: u32, y: u32) {
    board.left_pressed_at(Some((x, y)));
    board.left_released_at(Some((x, y)));
}

fn states(board: &Board) -> Vec<CellState> {
    board.cells.iter().map(|c| c.state).collect()
}

#[test]
fn new_board_matches_the_grid() {
    let board = board_with(4, 3, vec![(2, 2)]);
    assert_eq!(board.cells.len(), 12);
    for (i, c) in board.cells.iter().enumerate() {
        assert_eq!(board.grid.find_cell(c.x, c.y), Some(i));
        assert_eq!(c.is_mine, (c.x, c.y) == (2, 2));
        assert_eq!(c.num_mines_around, board.grid.get_num_mines_around(c.x, c.y));
        assert_eq!(c.state, CellState::Hidden);
    }
    assert_eq!(at(&board, 1, 1).num_mines_around, 1);
    assert_eq!(at(&board, 4, 1).num_mines_around, 0);
}

#[test]
fn flood_open_reveals_zero_region_and_border() {
    let mut board = board_with(5, 5, vec![(3, 1), (3, 2), (3, 3), (3, 4), (3, 5)]);
    click(&mut board, 1, 1);
    assert_eq!(board.update(), None);
    for y in 1..=5 {
        assert_eq!(at(&board, 1, y).state, CellState::Revealed);
        assert_eq!(at(&board, 2, y).state, CellState::Revealed);
        assert_eq!(at(&board, 3, y).state, CellState::Hidden);
        assert_eq!(at(&board, 4, y).state, CellState::Hidden);
        assert_eq!(at(&board, 5, y).state, CellState::Hidden);
    }
    assert!(board.cells.iter().all(|c| !c.is_opening));
}

#[test]
fn flood_open_from_numbered_cell_reveals_only_it() {
    let mut board = board_with(5, 5, vec![(5, 5)]);
    click(&mut board, 4, 4);
    assert_eq!(board.update(), None);
    let revealed = board.cells.iter().filter(|c| c.state == CellState::Revealed).count();
    assert_eq!(revealed, 1);
    assert_eq!(at(&board, 4, 4).state, CellState::Revealed);
}

#[test]
fn whole_board_opens_and_flag_wins() {
    let mut board = board_with(5, 5, vec![(5, 5)]);
    click(&mut board, 1, 1);
    assert_eq!(board.update(), None);
    for c in board.cells.iter() {
        let expected = if (c.x, c.y) == (5, 5) { CellState::Hidden } else { CellState::Revealed };
        assert_eq!(c.state, expected);
    }
    assert!(!board.check_win());
    board.right_just_pressed_at(Some((5, 5)));
    assert!(board.check_win());
    assert_eq!(board.update(), Some(GameState::Win));
}

#[test]
fn wrong_flag_still_wins_when_everything_is_covered() {
    let mut board = board_with(2, 1, vec![(2, 1)]);
    board.right_just_pressed_at(Some((1, 1)));
    board.right_just_pressed_at(Some((2, 1)));
    assert_eq!(board.update(), Some(GameState::Win));
}

#[test]
fn opening_a_revealed_region_again_changes_nothing() {
    let mut board = board_with(5, 5, vec![(3, 1), (3, 2), (3, 3), (3, 4), (3, 5)]);
    click(&mut board, 1, 1);
    board.update();
    let before = states(&board);
    click(&mut board, 1, 1);
    assert_eq!(board.update(), None);
    assert_eq!(states(&board), before);
    click(&mut board, 2, 3);
    assert_eq!(board.update(), None);
    assert_eq!(states(&board), before);
}

#[test]
fn clicking_a_hidden_mine_loses_at_once() {
    let mut board = board_with(3, 3, vec![(1, 1), (3, 3)]);
    click(&mut board, 1, 1);
    assert_eq!(board.update(), Some(GameState::Defeated));
    assert_eq!(at(&board, 1, 1).state, CellState::Exploded);
    board.bomb();
    assert_eq!(at(&board, 3, 3).state, CellState::Revealed);
    assert_eq!(at(&board, 1, 1).state, CellState::Exploded);
    assert_eq!(at(&board, 2, 2).state, CellState::Hidden);
}

#[test]
fn chord_with_matching_flags_opens_neighbors() {
    let mut board = board_with(3, 3, vec![(1, 1)]);
    click(&mut board, 2, 2);
    assert_eq!(board.update(), None);
    assert_eq!(at(&board, 2, 2).state, CellState::Revealed);
    board.right_just_pressed_at(Some((1, 1)));
    board.left_pressed_at(Some((2, 2)));
    assert_eq!(board.update(), None);
    assert_eq!(at(&board, 3, 3).state, CellState::Pressed);
    assert_eq!(at(&board, 1, 1).state, CellState::Flagged);
    board.left_released_at(Some((2, 2)));
    assert_eq!(board.update(), Some(GameState::Win));
    for c in board.cells.iter() {
        let expected = if (c.x, c.y) == (1, 1) { CellState::Flagged } else { CellState::Revealed };
        assert_eq!(c.state, expected);
    }
}

#[test]
fn chord_with_wrong_flag_count_only_resets_preview() {
    let mut board = board_with(3, 3, vec![(1, 1), (3, 3)]);
    click(&mut board, 2, 2);
    board.update();
    board.right_just_pressed_at(Some((1, 1)));
    board.left_pressed_at(Some((2, 2)));
    board.update();
    assert_eq!(at(&board, 3, 3).state, CellState::Pressed);
    board.left_released_at(Some((2, 2)));
    assert_eq!(board.update(), None);
    for c in board.cells.iter() {
        let expected = match (c.x, c.y) {
            (1, 1) => CellState::Flagged,
            (2, 2) => CellState::Revealed,
            _ => CellState::Hidden,
        };
        assert_eq!(c.state, expected);
        assert!(!c.is_opening);
    }
}

#[test]
fn chord_with_wrong_flag_detonates() {
    let mut board = board_with(3, 3, vec![(1, 1)]);
    click(&mut board, 2, 2);
    board.update();
    board.right_just_pressed_at(Some((3, 3)));
    board.left_pressed_at(Some((2, 2)));
    board.update();
    board.left_released_at(Some((2, 2)));
    assert_eq!(board.update(), Some(GameState::Defeated));
    assert_eq!(at(&board, 3, 3).state, CellState::WrongFlagged);
    assert_eq!(at(&board, 1, 1).state, CellState::Exploded);
}

#[test]
fn moving_out_takes_the_press_back() {
    let mut board = board_with(3, 3, vec![]);
    board.left_pressed_at(Some((1, 1)));
    assert_eq!(at(&board, 1, 1).state, CellState::Pressed);
    board.left_pressed_at(Some((2, 1)));
    assert_eq!(at(&board, 1, 1).state, CellState::Hidden);
    assert_eq!(at(&board, 2, 1).state, CellState::Pressed);
    board.left_pressed_at(None);
    assert_eq!(at(&board, 2, 1).state, CellState::Hidden);
    board.left_released_at(Some((2, 1)));
    assert!(!at(&board, 2, 1).is_opening);
}

#[test]
fn flag_twice_on_board_changes_nothing() {
    let mut board = board_with(4, 4, vec![(2, 3)]);
    let before = board.cells.clone();
    board.right_just_pressed_at(Some((2, 3)));
    assert_eq!(at(&board, 2, 3).state, CellState::Flagged);
    board.right_just_pressed_at(Some((2, 3)));
    assert_eq!(board.cells, before);
}

#[test]
fn reset_makes_every_cell_hidden() {
    let mut board = board_with(3, 3, vec![(1, 1)]);
    click(&mut board, 3, 3);
    board.update();
    board.right_just_pressed_at(Some((1, 1)));
    board.reset();
    assert!(board.cells.iter().all(|c| c.state == CellState::Hidden && !c.is_opening));
}

#[test]
fn texture_indices_follow_the_cells() {
    let mut board = board_with(2, 2, vec![(1, 1)]);
    board.right_just_pressed_at(Some((1, 1)));
    click(&mut board, 2, 2);
    board.update();
    assert_eq!(board.texture_indices(), vec![2, 0, 0, 8]);
}

#[test]
fn first_click_waits_for_an_opening() {
    let mut total = TotalMine::new();
    let mut board = init(Difficulty::Easy, &mut total);
    let before = board.cells.clone();
    assert_eq!(board.first_click(&total), None);
    assert_eq!(board.cells, before);
}

#[test]
fn easy_game_first_click_scenario() {
    let mut total = TotalMine::new();
    let mut board = init(Difficulty::Easy, &mut total);
    assert_eq!(total.0, 10);
    assert_eq!((board.grid.width, board.grid.height), (9, 9));
    assert_eq!(board.grid.mine_positions.len(), 10);

    click(&mut board, 5, 5);
    assert_eq!(board.first_click(&total), Some(GameState::Playing));
    assert_eq!(board.grid.mine_positions.len(), 10);
    assert!(!board.grid.is_mine(5, 5));
    assert!(!board.grid.mine_positions.contains(&(5, 5)));
    for c in board.cells.iter() {
        assert_eq!(c.is_mine, board.grid.is_mine(c.x, c.y));
        assert_eq!(c.num_mines_around, board.grid.get_num_mines_around(c.x, c.y));
    }
    assert!(at(&board, 5, 5).is_opening);

    assert_ne!(board.update(), Some(GameState::Defeated));
    assert_eq!(at(&board, 5, 5).state, CellState::Revealed);
    let revealed = board.cells.iter().filter(|c| c.state == CellState::Revealed).count();
    assert!(revealed >= 1);

    let mut remaining = RemainingMine::default();
    update_mines(&board, &total, &mut remaining);
    assert_eq!(remaining.0, 10);
    let hidden: Vec<(u32, u32)> = board
        .cells
        .iter()
        .filter(|c| c.state == CellState::Hidden)
        .map(|c| (c.x, c.y))
        .take(3)
        .collect();
    let mut flagged = 0;
    for &(x, y) in hidden.iter() {
        board.right_just_pressed_at(Some((x, y)));
        flagged += 1;
        update_mines(&board, &total, &mut remaining);
        assert_eq!(remaining.0, 10 - flagged);
    }
    board.right_just_pressed_at(Some(hidden[0]));
    update_mines(&board, &total, &mut remaining);
    assert_eq!(remaining.0, 10 - (flagged - 1));
}

#[test]
fn remaining_mines_goes_negative() {
    let mut board = board_with(2, 2, vec![(1, 1)]);
    for &(x, y) in [(1, 1), (1, 2), (2, 1), (2, 2)].iter() {
        board.right_just_pressed_at(Some((x, y)));
    }
    let mut remaining = RemainingMine::default();
    update_mines(&board, &TotalMine(1), &mut remaining);
    assert_eq!(remaining.0, -3);
    assert_eq!(board.count_flags(), 4);
}
