//! The game loop's decisions: what an action does to the game, and how the
//! cursor answers the player's input.

pub mod controller;
pub mod view;
