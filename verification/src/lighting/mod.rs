//! Per-voxel light levels and their flood-fill propagation, inside a chunk
//! and across chunk borders.

pub mod voxel_light;
pub mod cross_chunk;
pub mod point;
