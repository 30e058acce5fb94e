//! Material identifiers and the voxel texture atlas.

pub mod material;
pub mod atlas;
pub mod animator;
pub mod registry;
