//! Voxel type identifiers.

use vstd::prelude::*;

verus! {

/// Identifier of a voxel type; `0` is air.
#[derive(Clone, Copy, Debug, PartialEq, Eq, Structural, Hash)]
pub struct VoxelTypeId(pub u16);

/// The id of air.
pub open spec fn air_id() -> VoxelTypeId {
    VoxelTypeId(0)
}

} // verus!
