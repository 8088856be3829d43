//! Core of a turn-based dungeon crawl: level generation, the entity store
//! with its component bundles, stat composition, combat, monster AI,
//! item effects, level progression, and persistence of the world state.
//!
//! Rendering, input handling and the field-of-view computation are outside
//! collaborators: the library consumes visibility answers as plain values
//! and exposes the full world state for a front end to draw.

pub mod object;
pub mod ai;
pub mod combat;
pub mod game;
pub mod generate;
pub mod items;
pub mod map;
pub mod progress;
pub mod rng;
pub mod save;
pub mod stats;
