//! Runtime core of a text-driven interactive-fiction engine.
//!
//! Given an in-memory world description (rooms, items, non-player characters,
//! conditional text and scripted actions) and a stream of free-text player
//! commands, the engine resolves each command into a state transition and an
//! ordered block of narrative output.
#![verifier::loop_isolation(false)]

pub mod actions;
pub mod conditions;
pub mod flags;
pub mod items;
pub mod laws;
pub mod locmap;
pub mod matching;
pub mod model;
pub mod movement;
pub mod npcs;
pub mod order;
pub mod output;
pub mod parse;
pub mod rand;
pub mod render;
pub mod state;
pub mod text;
pub mod validate;
