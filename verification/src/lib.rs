//! Turn-driven dungeon simulation core: a tile grid carved into connected
//! rooms, an entity store of positioned drawables, a memoized field-of-view
//! subsystem, and player movement validated against the grid.

pub mod components;
pub mod fov;
pub mod grid;
pub mod player;
pub mod rect;
pub mod rng;
pub mod state;
pub mod store;
pub mod visibility;
