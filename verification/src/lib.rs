//! A terminal minesweeper game: the playing field, its rules, and the
//! decisions of the game loop.

pub mod config;
pub mod field;
pub mod mining;
pub mod spread;
pub mod laws;
pub mod render;
pub mod game;

pub use config::{Args, Mode};
