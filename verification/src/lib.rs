//! A turn-based naval combat engine: boards and ships, strike resolution,
//! win detection, targeting strategies and the turn sequence of a match.
//!
//! Everything here computes on plain values. Reading input and printing are
//! left to the program that drives the engine.

pub mod enums;
pub mod text;
pub mod geometry;
pub mod ship;
pub mod board;
pub mod render;
pub mod rng;
pub mod helpers;
pub mod placement;
pub mod player;
pub mod game;
