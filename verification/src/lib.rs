//! The model of a 2048 game: tiles, the field they lie on, swipes and new tiles.
pub mod column;
pub mod field;
pub mod grid;
pub mod side;
pub mod swipe;
pub mod tile;
pub mod top_level;
pub mod array;
pub mod append;
pub mod game;
pub mod panel;
pub mod laws;
pub mod control;
pub mod input;
pub mod main_panel;
pub mod style;
pub mod animation;
pub mod totals;
