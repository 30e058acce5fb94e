//! How a planet is drawn at a given distance.

use vstd::prelude::*;

verus! {

/// The way a planet is rendered, from nearest to farthest.
#[derive(Clone, Copy, Debug, PartialEq, Eq, Structural)]
pub enum PlanetRenderMode {
    /// Full voxel rendering with per-chunk LOD, on or near the surface.
    VoxelTerrain,
    /// Coarse voxel terrain blended with a geometric sphere underlay, on the
    /// way from the surface to orbit.
    HybridTerrainSphere,
    /// A tessellated sphere with procedural height displacement and a baked
    /// terrain color texture; no individual voxels.
    GeometricSphere,
    /// A pre-rendered billboard (impostor) at distances where the planet is a
    /// few pixels wide.
    Impostor,
}

} // verus!
