//! Voxel universe data and its management.
pub mod chunk;
pub mod chunk_map;
pub mod decorators;
pub mod generator;
pub mod persistence;
pub mod plugin;
