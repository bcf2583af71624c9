//! A falling-block puzzle engine: the board, the pieces with their rotation
//! system, the seven-piece bag and the session state machine.

pub mod board;
pub mod game;
pub mod tet;
