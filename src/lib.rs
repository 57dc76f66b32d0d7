//! Turn-resolution core of a small grid-based tactical game: the world
//! state, the actions that entities submit each turn, the processors that
//! apply them in order, the controllers that turn player input into actions,
//! and the text format of a map.
//!
//! Coordinates are whole grid cells, so equality of positions is exact.

pub mod actions;
pub mod controllers;
pub mod engine_result;
pub mod error;
pub mod game;
pub mod models;
pub mod serializers;
