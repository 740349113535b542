//! A falling-sand cellular automaton: a grid of particles that evolves one
//! tick at a time under local, per-variant rules.

pub mod api;
pub mod gameworld;
pub mod grid;
pub mod laws;
pub mod manager;
pub mod paint;
pub mod particle;
mod random;
pub mod rules;
pub mod tools;
pub mod utils;
pub mod variant;
pub mod variant_type;
pub mod world;
