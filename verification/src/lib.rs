//! Integer-exact math, voxel meshing, lighting, materials, LOD and multiplayer
//! logic of the Nebula engine, with their contracts.

pub mod math;
pub mod mesh;
pub mod voxel;
pub mod net;
pub mod lighting;
pub mod materials;
pub mod lod;
