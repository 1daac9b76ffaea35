use minesweeper::cell::{Cell, CellState};
use minesweeper::session::Session;
use minesweeper::smile::SmileSprite;
use minesweeper::state::{Difficulty, GameState};
use minesweeper::timer::TimerState;

fn at(session: &Session, x: u32, y: u32) -> Cell {
    session.board.cells[session.board.grid.find_cell(x, y).unwrap()]
}

fn click(session: &mut Session, x: u32, y: u32, now: u64) {
    session.press(Some((x, y)));
    session.release(Some((x, y)));
    session.cycle(now);
}

fn started_easy_game() -> Session {
    let mut session = Session::new(Difficulty::Easy);
    assert_eq!(session.state, GameState::Ready);
    click(&mut session, 5, 5, 1_000);
    assert_eq!(session.state, GameState::Playing);
    assert!(!session.board.grid.is_mine(5, 5));
    session.cycle(1_100);
    assert_ne!(session.state, GameState::Defeated);
    assert_eq!(at(&session, 5, 5).state, CellState::Revealed);
    session
}

#[test]
fn new_session_waits_for_first_click() {
    let mut session = Session::new(Difficulty::Normal);
    assert_eq!((session.board.grid.width, session.board.grid.height), (16, 16));
    assert_eq!(session.total_mine.0, 40);
    assert_eq!(session.remaining_mine.0, 40);
    session.cycle(10);
    assert_eq!(session.state, GameState::Ready);
    assert_eq!(session.timer.state, TimerState::Stopped { elapsed: 0 });
}

#[test]
fn first_click_starts_the_stopwatch() {
    let session = started_easy_game();
    assert_eq!(session.timer.state, TimerState::Running { start: 1_000, elapsed: 0 });
    assert_eq!(session.timer.get_sec(4_200), 3);
}

#[test]
fn clicking_a_mine_ends_the_session_in_the_same_cycle() {
    let mut session = started_easy_game();
    let mines = session.board.grid.mine_positions.clone();
    let (x, y) = mines[0];
    click(&mut session, x, y, 6_000);
    assert_eq!(session.state, GameState::Defeated);
    assert_eq!(at(&session, x, y).state, CellState::Exploded);
    assert_eq!(session.smile.state, SmileSprite::Defeat);
    assert_eq!(session.timer.state, TimerState::Stopped { elapsed: 5_000 });
    for &(mx, my) in mines.iter().skip(1) {
        let state = at(&session, mx, my).state;
        assert!(state == CellState::Revealed || state == CellState::Flagged);
    }
    let before = session.board.cells.clone();
    click(&mut session, 5, 5, 7_000);
    session.toggle_flag(Some((x, y)));
    assert_eq!(session.board.cells, before);
    assert_eq!(session.state, GameState::Defeated);
}

#[test]
fn clearing_the_board_wins() {
    let mut session = started_easy_game();
    let mut now = 2_000;
    for x in 1..=9 {
        for y in 1..=9 {
            if !session.board.grid.is_mine(x, y) && at(&session, x, y).state == CellState::Hidden {
                click(&mut session, x, y, now);
                now += 10;
                assert_eq!(session.state, GameState::Playing);
            }
        }
    }
    let mines = session.board.grid.mine_positions.clone();
    for (i, &(x, y)) in mines.iter().enumerate() {
        session.toggle_flag(Some((x, y)));
        assert_eq!(session.remaining_mine.0, 10 - (i as i32 + 1));
    }
    session.cycle(now);
    assert_eq!(session.state, GameState::Win);
    assert_eq!(session.smile.state, SmileSprite::Win);
    assert!(matches!(session.timer.state, TimerState::Stopped { .. }));
}

#[test]
fn smile_starts_a_new_game_of_the_same_difficulty() {
    let mut session = started_easy_game();
    session.toggle_flag(Some((1, 1)));
    session.release_smile();
    assert_eq!(session.state, GameState::Playing);
    session.press_smile();
    assert_eq!(session.smile.state, SmileSprite::Pressed);
    session.release_smile();
    assert_eq!(session.state, GameState::Ready);
    assert_eq!(session.difficulty, Difficulty::Easy);
    assert_eq!((session.board.grid.width, session.board.grid.height), (9, 9));
    assert_eq!(session.board.grid.mine_positions.len(), 10);
    assert!(session.board.cells.iter().all(|c| c.state == CellState::Hidden && !c.is_opening));
    for c in session.board.cells.iter() {
        assert_eq!(c.is_mine, session.board.grid.is_mine(c.x, c.y));
        assert_eq!(c.num_mines_around, session.board.grid.get_num_mines_around(c.x, c.y));
    }
    assert_eq!(session.remaining_mine.0, 10);
    assert_eq!(session.timer.state, TimerState::Stopped { elapsed: 0 });
    assert_eq!(session.smile.state, SmileSprite::Normal);
}

#[test]
fn restart_after_defeat_is_ready_again() {
    let mut session = started_easy_game();
    let (x, y) = session.board.grid.mine_positions[0];
    click(&mut session, x, y, 3_000);
    assert_eq!(session.state, GameState::Defeated);
    session.restart();
    assert_eq!(session.state, GameState::Ready);
    assert!(session.board.cells.iter().all(|c| c.state == CellState::Hidden));
    click(&mut session, 1, 1, 4_000);
    assert_eq!(session.state, GameState::Playing);
    assert!(!session.board.grid.is_mine(1, 1));
}

#[test]
fn changing_difficulty_builds_a_new_board() {
    let mut session = started_easy_game();
    session.set_difficulty(Difficulty::Hard);
    assert_eq!(session.state, GameState::Ready);
    assert_eq!((session.board.grid.width, session.board.grid.height), (30, 16));
    assert_eq!(session.board.grid.mine_positions.len(), 99);
    assert_eq!(session.board.cells.len(), 480);
}
