//! Voxel chunk storage with a compact block palette, face culling, mesh
//! assembly and the bookkeeping of asynchronous chunk generation.

pub mod identifier;
pub mod chunky;
pub mod block;
pub mod registry;
pub mod chunk_manager;
pub mod version;
pub mod item;
