//! Voxel meshing: directions, visibility, ambient occlusion, packed meshes,
//! LOD stitching and seam repair.

pub mod face_direction;
pub mod visible_faces;
pub mod ambient_occlusion;
pub mod packed;
pub mod chunk_mesh;
pub mod neighborhood;
pub mod visibility;
pub mod greedy;
pub mod invalidation;
pub mod lod_stitching;
pub mod transition_seams;
pub mod lod_meshing;
