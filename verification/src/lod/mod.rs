//! Level-of-detail decisions for planet terrain.

pub mod face_quadtree_lod;
pub mod planet_lod;
pub mod priority_queue;
pub mod selector;
