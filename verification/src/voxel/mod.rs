//! The voxel data that meshing and lighting read: type ids, the type
//! registry and the dense chunk grid.

pub mod types;
pub mod registry;
pub mod chunk;
pub mod address;
pub mod lod_chunk;
