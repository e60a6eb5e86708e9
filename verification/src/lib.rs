//! A maze-chase arcade simulation: the grid, the player, the four ghosts and
//! the state machine that drives them on a fixed tick.

pub mod enums;
pub mod utils;
pub mod grid;
pub mod player;
pub mod ghost;
pub mod config;
pub mod model;
pub mod game;
pub mod pathfinding;
pub mod states;
