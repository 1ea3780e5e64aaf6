//! Centurion: the rules of a tactical roguelike on an 8×8 grid, verified.
//!
//! The library holds the pure game logic: room layouts and their procedural
//! generation, the connectivity search, enemy behaviour, player movement,
//! combat resolution, rest choices and scoring.

pub mod room;
pub mod reach;
pub mod procgen;
pub mod room_laws;
pub mod enemies;
pub mod items;
pub mod state;
pub mod combat;
pub mod tactics;
pub mod config;
pub mod player;
pub mod rest;
pub mod dead_screen;
pub mod hud;
pub mod spawn;
pub mod run;
pub mod game_laws;
pub mod input;
