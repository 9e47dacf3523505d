//! Rules engine for a two-player board game on a rectangular grid: the square
//! label codec, the board with its move generation, and the turn state machine.
pub mod board;
pub mod coords;
pub mod game;
pub mod moves;
pub mod pieces;
