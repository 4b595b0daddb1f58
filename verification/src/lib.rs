//! Verified game logic of the Geosia voxel game: chunk bookkeeping, world generation rules,
//! network protocol decisions and client state machines.
pub mod promises;
pub mod coordinates;
pub mod voxel;
pub mod entity;
pub mod network;
pub mod client;
pub mod player;
pub mod console;
