//! Game-state engine for a two-sided grid combat game: board geometry,
//! ship placement, shot resolution, turn alternation, win detection and
//! the bot's choice of target.

pub mod grid;
pub mod cell;
pub mod ship;
pub mod placement;
pub mod engine;
pub mod bot;
mod chance;
pub mod setup;
