//! Procedural generation of cave-like dungeon levels: a cellular
//! automaton turns seeded wall/floor noise into caves, a deterministic
//! scan places the player's start and the level exit, and a spatial
//! noise function partitions the floor into spawn regions.

pub mod builder;
pub mod landmarks;
pub mod map;
pub mod noise;
pub mod regions;
pub mod synthesis;
pub mod rng;

pub use map::{Grid, Position, TileType};
