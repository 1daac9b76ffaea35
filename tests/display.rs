use minesweeper::number::{get_number_sprites, NumberSprite};
use minesweeper::smile::{SmileComponent, SmileSprite};
use minesweeper::state::{
    get_difficulty, run_if_all_menu_closed, Difficulty, GameState, LoginPopupState,
    MenuGameState, MenuInfoState,
};
use minesweeper::texture::{CellType, TextureType};
use minesweeper::timer::{Timer, TimerState};
use NumberSprite::{Empty, Five, Four, Minus, Nine, One, Seven, Two, Zero};

#[test]
fn counter_digits_positive() {
    assert_eq!(get_number_sprites(0), (Zero, Zero, Zero));
    assert_eq!(get_number_sprites(7), (Zero, Zero, Seven));
    assert_eq!(get_number_sprites(42), (Zero, Four, Two));
    assert_eq!(get_number_sprites(105), (One, Zero, Five));
    assert_eq!(get_number_sprites(999), (Nine, Nine, Nine));
    assert_eq!(get_number_sprites(1234), (Nine, Nine, Nine));
    assert_eq!(get_number_sprites(i32::MAX), (Nine, Nine, Nine));
}

#[test]
fn counter_digits_negative() {
    assert_eq!(get_number_sprites(-5), (Zero, Minus, Five));
    assert_eq!(get_number_sprites(-10), (Minus, One, Zero));
    assert_eq!(get_number_sprites(-42), (Minus, Four, Two));
    assert_eq!(get_number_sprites(-150), (Minus, Nine, Nine));
    assert_eq!(get_number_sprites(i32::MIN), (Minus, Nine, Nine));
}

#[test]
fn digit_sheet_indices() {
    assert_eq!(One.index(), 0);
    assert_eq!(Nine.index(), 8);
    assert_eq!(Zero.index(), 9);
    assert_eq!(Minus.index(), 10);
    assert_eq!(Empty.index(), 11);
}

#[test]
fn texture_paths() {
    assert_eq!(TextureType::Cells.get_path(), "cells.png");
    assert_eq!(TextureType::CornerRightUpperTop.get_path(), "corner_right_upper_top.png");
    assert_eq!(TextureType::EdgeTopUpper.get_path(), "edge_top_upper.png");
    assert_eq!(TextureType::Smile.get_path(), "smile.png");
}

#[test]
fn revealed_cell_types() {
    assert_eq!(CellType::get_revealed_num(0), CellType::Revealed);
    assert_eq!(CellType::get_revealed_num(3), CellType::Revealed3);
    assert_eq!(CellType::get_revealed_num(8), CellType::Revealed8);
    assert_eq!(CellType::Revealed.index(), 1);
    assert_eq!(CellType::Revealed8.index(), 15);
    assert_eq!(CellType::WrongMine.index(), 7);
}

#[test]
fn presets() {
    assert_eq!(get_difficulty(&Difficulty::Easy), (9, 9, 10));
    assert_eq!(get_difficulty(&Difficulty::Normal), (16, 16, 40));
    assert_eq!(get_difficulty(&Difficulty::Hard), (30, 16, 99));
    assert_eq!(Difficulty::default(), Difficulty::Hard);
    assert_eq!(Difficulty::Normal.to_string(), "Normal");
}

#[test]
fn menus_block_input() {
    assert!(run_if_all_menu_closed(
        MenuGameState::Closed,
        MenuInfoState::Closed,
        LoginPopupState::Closed
    ));
    assert!(!run_if_all_menu_closed(
        MenuGameState::Closed,
        MenuInfoState::Opened,
        LoginPopupState::Closed
    ));
    assert!(!run_if_all_menu_closed(
        MenuGameState::Opened,
        MenuInfoState::Closed,
        LoginPopupState::Opened
    ));
}

#[test]
fn smile_button_restarts() {
    let mut smile = SmileComponent::new();
    assert_eq!(smile.released(), None);
    smile.pressed();
    assert_eq!(smile.state, SmileSprite::Pressed);
    assert_eq!(smile.state.index(), 1);
    assert_eq!(smile.released(), Some(GameState::Init));
    assert_eq!(smile.state, SmileSprite::Normal);
    assert_eq!(SmileSprite::Defeat.index(), 4);
}

#[test]
fn timer_counts_between_start_and_stop() {
    let mut timer = Timer::new();
    assert_eq!(timer.get_sec(5_000), 0);
    timer.start(1_000);
    assert_eq!(timer.get_milli_sec(3_500), 2_500);
    assert_eq!(timer.get_sec(3_500), 2);
    timer.start(2_000);
    assert_eq!(timer.get_milli_sec(3_500), 2_500);
    timer.stop(4_000);
    assert_eq!(timer.state, TimerState::Stopped { elapsed: 3_000 });
    assert_eq!(timer.get_sec(99_000), 3);
    timer.start(10_000);
    assert_eq!(timer.get_milli_sec(11_000), 4_000);
    assert_eq!(timer.get_milli_sec(9_000), 3_000);
    timer.reset();
    assert_eq!(timer.get_milli_sec(20_000), 0);
}
