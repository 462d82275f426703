//! Core rules of a recursive tower-defense game: a tile grid with a cable
//! path, levels nested under towers, waves of bugs and the input protocol
//! that turns clicks on grid cells into game events.
pub mod grid;
pub mod tilemap;
pub mod cable;
pub mod tower;
pub mod motion;
pub mod bug;
pub mod wave;
pub mod level;
pub mod defense;
pub mod ui;
pub mod selection;
pub mod game;
