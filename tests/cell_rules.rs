use minesweeper::cell::{Cell, CellState, QueryState};

fn revealed(is_mine: bool, around: u32) -> Cell {
    let mut c = Cell::new(2, 3, is_mine, around);
    c.state = CellState::Revealed;
    c
}

#[test]
fn new_cell_is_hidden_and_idle() {
    let c = Cell::new(4, 7, true, 2);
    assert_eq!((c.x, c.y, c.is_mine, c.num_mines_around), (4, 7, true, 2));
    assert_eq!(c.state, CellState::Hidden);
    assert!(!c.is_left_pressed && !c.is_opening);
    assert_eq!(c.query_state, QueryState::Idle);
}

#[test]
fn press_out_release_cycle() {
    let mut c = Cell::new(1, 1, false, 0);
    c.left_pressed();
    assert_eq!(c.state, CellState::Pressed);
    assert!(c.is_left_pressed);
    c.left_out();
    assert_eq!(c.state, CellState::Hidden);
    assert!(!c.is_left_pressed);
    c.left_pressed();
    c.left_released();
    assert_eq!(c.state, CellState::Pressed);
    assert!(c.is_opening);
    assert!(!c.is_left_pressed);
}

#[test]
fn release_without_press_does_nothing() {
    let mut c = Cell::new(1, 1, false, 0);
    c.left_released();
    assert_eq!(c, Cell::new(1, 1, false, 0));
    c.left_out();
    assert_eq!(c, Cell::new(1, 1, false, 0));
}

#[test]
fn press_on_revealed_number_starts_chord_queries() {
    let mut c = revealed(false, 2);
    c.left_pressed();
    assert_eq!(c.query_state, QueryState::Querying);
    c.left_out();
    assert_eq!(c.query_state, QueryState::QueryingOut);
    c.left_pressed();
    c.left_released();
    assert_eq!(c.query_state, QueryState::QueryingDone);
    assert_eq!(c.state, CellState::Revealed);
}

#[test]
fn press_on_revealed_zero_or_mine_queries_nothing() {
    let mut zero = revealed(false, 0);
    zero.left_pressed();
    assert_eq!(zero.query_state, QueryState::Idle);
    zero.left_released();
    assert_eq!(zero.query_state, QueryState::Idle);
    assert!(!zero.is_left_pressed);
    let mut mine = revealed(true, 3);
    mine.left_pressed();
    mine.left_released();
    assert_eq!(mine.query_state, QueryState::Idle);
}

#[test]
fn flag_toggles() {
    let mut c = Cell::new(1, 1, false, 0);
    c.right_just_pressed();
    assert_eq!(c.state, CellState::Flagged);
    c.right_just_pressed();
    assert_eq!(c.state, CellState::Hidden);
    c.left_pressed();
    c.right_just_pressed();
    assert_eq!(c.state, CellState::Flagged);
    let mut r = revealed(false, 1);
    r.right_just_pressed();
    assert_eq!(r.state, CellState::Revealed);
}

#[test]
fn flag_twice_restores_hidden_cell() {
    let original = Cell::new(3, 3, true, 1);
    let mut c = original;
    c.right_just_pressed();
    c.right_just_pressed();
    assert_eq!(c, original);
}

#[test]
fn open_outcomes() {
    let mut safe = Cell::new(1, 1, false, 1);
    assert!(safe.open());
    assert_eq!(safe.state, CellState::Revealed);

    let mut mine = Cell::new(1, 1, true, 0);
    assert!(!mine.open());
    assert_eq!(mine.state, CellState::Exploded);

    let mut pressed_mine = Cell::new(1, 1, true, 0);
    pressed_mine.left_pressed();
    assert!(!pressed_mine.open());
    assert_eq!(pressed_mine.state, CellState::Exploded);

    let mut wrong = Cell::new(1, 1, false, 0);
    wrong.right_just_pressed();
    assert!(!wrong.open());
    assert_eq!(wrong.state, CellState::WrongFlagged);

    let mut right = Cell::new(1, 1, true, 0);
    right.right_just_pressed();
    assert!(right.open());
    assert_eq!(right.state, CellState::Flagged);

    let mut again = revealed(false, 2);
    assert!(again.open());
    assert_eq!(again.state, CellState::Revealed);
}

#[test]
fn bomb_shows_hidden_mines_only() {
    let mut hidden_mine = Cell::new(1, 1, true, 0);
    hidden_mine.bomb();
    assert_eq!(hidden_mine.state, CellState::Revealed);
    let mut flagged_mine = Cell::new(1, 1, true, 0);
    flagged_mine.right_just_pressed();
    flagged_mine.bomb();
    assert_eq!(flagged_mine.state, CellState::Flagged);
    let mut safe = Cell::new(1, 1, false, 0);
    safe.bomb();
    assert_eq!(safe.state, CellState::Hidden);
}

#[test]
fn texture_index_table() {
    let mut c = Cell::new(1, 1, false, 3);
    assert_eq!(c.get_texture_index(), 0);
    c.left_pressed();
    assert_eq!(c.get_texture_index(), 1);
    c.right_just_pressed();
    assert_eq!(c.get_texture_index(), 2);
    assert_eq!(revealed(false, 3).get_texture_index(), 10);
    assert_eq!(revealed(false, 8).get_texture_index(), 15);
    assert_eq!(revealed(false, 0).get_texture_index(), 1);
    assert_eq!(revealed(true, 2).get_texture_index(), 5);
    let mut wrong = Cell::new(1, 1, false, 0);
    wrong.right_just_pressed();
    wrong.open();
    assert_eq!(wrong.get_texture_index(), 7);
    let mut boom = Cell::new(1, 1, true, 0);
    boom.open();
    assert_eq!(boom.get_texture_index(), 6);
}

#[test]
fn reset_and_change_mine() {
    let mut c = Cell::new(5, 6, false, 0);
    c.left_pressed();
    c.left_released();
    c.reset();
    assert_eq!(c, Cell::new(5, 6, false, 0));
    c.change_mine(true, 4);
    assert_eq!(c, Cell::new(5, 6, true, 4));
}
