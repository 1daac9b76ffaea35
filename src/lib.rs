//! Minesweeper rules: the board and its mine layout, the cell state machine,
//! flood-fill reveal, chord opening and the end of a game.

pub mod cell;
pub mod grid;
pub mod board;
pub mod flood;
pub mod chord;
pub mod state;
pub mod mine;
pub mod game;
pub mod laws;
pub mod number;
pub mod texture;
pub mod smile;
pub mod timer;
pub mod session;
