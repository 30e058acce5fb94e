//! Dense voxel storage of one chunk.

use vstd::prelude::*;
use crate::voxel::types::VoxelTypeId;

verus! {

/// Voxels along each edge of a chunk.
pub const CHUNK_SIZE: usize = 32;

/// Voxels in a chunk (`CHUNK_SIZE³`).
pub const CHUNK_VOLUME: usize = 32768;

/// Index of voxel `(x, y, z)` in a chunk: x varies fastest.
pub open spec fn voxel_index(x: int, y: int, z: int) -> int {
    x + y * 32 + z * 32 * 32
}

/// Whether `(x, y, z)` lies inside a chunk.
pub open spec fn in_chunk(x: int, y: int, z: int) -> bool {
    0 <= x < 32 && 0 <= y < 32 && 0 <= z < 32
}

/// The voxels of one chunk, `CHUNK_SIZE³` of them.
#[derive(Debug)]
pub struct ChunkData {
    voxels: Vec<VoxelTypeId>,
}

impl View for ChunkData {
    type V = Seq<VoxelTypeId>;

    closed spec fn view(&self) -> Seq<VoxelTypeId> {
        self.voxels@
    }
}

impl Clone for ChunkData {
    fn clone(&self) -> (r: Self)
        ensures
            r@ == self@,
    {
        proof {
            use_type_invariant(self);
        }
        let voxels = self.voxels.clone();
        proof {
            assert(voxels@ =~= self.voxels@);
        }
        ChunkData { voxels }
    }
}

/// Every in-chunk coordinate has an index inside the chunk.
pub proof fn lemma_voxel_index_bounds(x: int, y: int, z: int)
    requires
        in_chunk(x, y, z),
    ensures
        0 <= voxel_index(x, y, z) < 32768,
{
}

impl ChunkData {
    /// The stored voxels always number `CHUNK_VOLUME`.
    #[verifier::type_invariant]
    spec fn well_formed(&self) -> bool {
        self.voxels@.len() == 32768
    }

    /// A chunk filled with `fill`.
    pub fn new(fill: VoxelTypeId) -> (r: Self)
        ensures
            r@ == Seq::new(32768, |i: int| fill),
    {
        let mut voxels: Vec<VoxelTypeId> = Vec::new();
        let mut i: usize = 0;
        while i < CHUNK_VOLUME
            invariant
                i <= 32768,
                voxels@ == Seq::new(i as nat, |j: int| fill),
            decreases 32768 - i,
        {
            voxels.push(fill);
            i = i + 1;
            assert(voxels@ =~= Seq::new(i as nat, |j: int| fill));
        }
        ChunkData { voxels }
    }

    /// A chunk of air.
    pub fn new_air() -> (r: Self)
        ensures
            r@ == Seq::new(32768, |i: int| VoxelTypeId(0)),
    {
        Self::new(VoxelTypeId(0))
    }

    /// The number of stored voxels.
    pub fn len(&self) -> (r: usize)
        ensures
            r == self@.len(),
            r == CHUNK_VOLUME,
    {
        proof {
            use_type_invariant(self);
        }
        self.voxels.len()
    }

    /// The voxel at `(x, y, z)`.
    pub fn get(&self, x: usize, y: usize, z: usize) -> (r: VoxelTypeId)
        requires
            in_chunk(x as int, y as int, z as int),
        ensures
            r == self@[voxel_index(x as int, y as int, z as int)],
            self@.len() == 32768,
    {
        proof {
            use_type_invariant(self);
        }
        self.voxels[x + y * CHUNK_SIZE + z * CHUNK_SIZE * CHUNK_SIZE]
    }

    /// Sets the voxel at `(x, y, z)`.
    pub fn set(&mut self, x: usize, y: usize, z: usize, voxel: VoxelTypeId)
        requires
            in_chunk(x as int, y as int, z as int),
        ensures
            final(self)@ == old(self)@.update(voxel_index(x as int, y as int, z as int), voxel),
            final(self)@.len() == 32768,
    {
        proof {
            use_type_invariant(&*self);
        }
        let i = x + y * CHUNK_SIZE + z * CHUNK_SIZE * CHUNK_SIZE;
        self.voxels[i] = voxel;
    }
}

} // verus!
