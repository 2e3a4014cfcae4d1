//! Proximity: a hex-grid tile placement game with greedy and Monte Carlo players.

pub mod constants;
pub mod valid_moves;
pub mod player;
pub mod grid;
pub mod game;
pub mod moves;
pub mod play;
pub mod text;
pub mod human;
pub mod args;
pub mod display;
pub mod python;
