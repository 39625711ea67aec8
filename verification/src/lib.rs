//! A grid-based snake game: the geometry of the board, the apple, the snake's
//! movement and collision rules, and the score keeping of a round.
//!
//! The library works on whole numbers only. Positions are in render units,
//! time is in microseconds, and sub-cell progress is in millionths of a
//! render unit.

pub mod apple;
pub mod common;
pub mod game;
pub mod save;
pub mod snake;
