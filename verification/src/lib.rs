//! A raycasting engine on a grid of tiles, in fixed-point arithmetic.
//!
//! - `fixed`: raw fixed-point values and exact integer helpers.
//! - `geometry`: points and directions of the world plane.
//! - `maze`: the tile grid of a level and its queries.
//! - `caster`: the walk of one ray through the grid, and the frame of all
//!   columns.
//! - `projector`: from a hit to the strip that a screen column shows.
//! - `player`: heading, movement and sliding collision.
//! - `sight`: line of sight between two points.
//! - `screamer`: the proximity trigger of a level.
//! - `minimap`: the overlay map.
//! - `levels`: the set of levels and the one that is played.
//!
//! Angles reach the engine as raw radians and leave it as such; where a
//! cosine and a sine are needed, the caller hands them in as a
//! `geometry::Dir`.

pub mod caster;
pub mod fixed;
pub mod geometry;
pub mod levels;
pub mod maze;
pub mod minimap;
pub mod player;
pub mod projector;
pub mod screamer;
pub mod sight;
