//! The simulation core of a turn-based, grid-based dungeon game: seeded
//! procedural map generation, field-of-view computation by circular ray
//! casting, and a deterministic per-tick scheduler for movement, collision,
//! monster behaviour, melee combat and death handling.  Rendering targets a
//! software console; real I/O lives outside this crate.

pub mod ai;
pub mod colors;
pub mod config;
pub mod draw;
pub mod fov;
pub mod game;
pub mod map;
pub mod mem;
pub mod object;
pub mod rect;
pub mod rng;
pub mod ui;
