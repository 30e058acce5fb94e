//! Reduced-resolution chunk storage for distant terrain: at LOD `n` a chunk
//! covers the same space with `(32 / 2^n)³` voxels.

use vstd::prelude::*;
use crate::voxel::types::VoxelTypeId;

verus! {

/// The voxels along one axis of a chunk at LOD `lod` (0 to 5): `32 / 2^lod`.
pub open spec fn lod_resolution(lod: nat) -> nat {
    if lod == 0 {
        32
    } else if lod == 1 {
        16
    } else if lod == 2 {
        8
    } else if lod == 3 {
        4
    } else if lod == 4 {
        2
    } else {
        1
    }
}

/// The index of voxel `(x, y, z)` in a grid of side `res` (x varies
/// fastest).
pub open spec fn lod_index(res: int, x: int, y: int, z: int) -> int {
    x + y * res + z * res * res
}

/// The coordinates of index `i` in a grid of side `res`.
pub open spec fn lod_coords(res: int, i: int) -> (int, int, int) {
    (i % res, (i / res) % res, i / (res * res))
}

/// Index and coordinates of a grid of side `res` correspond one to one.
pub proof fn lemma_lod_index(res: int, x: int, y: int, z: int)
    requires
        1 <= res <= 32,
        0 <= x < res,
        0 <= y < res,
        0 <= z < res,
    ensures
        0 <= lod_index(res, x, y, z) < res * res * res,
        res * res * res <= 32768,
        lod_coords(res, lod_index(res, x, y, z)) == (x, y, z),
{
    let i = lod_index(res, x, y, z);
    assert(0 <= i < res * res * res && res * res * res <= 32768) by (nonlinear_arith)
        requires 1 <= res <= 32, 0 <= x < res, 0 <= y < res, 0 <= z < res, i == x + y * res + z * res * res;
    assert(i == (y + z * res) * res + x) by (nonlinear_arith)
        requires i == x + y * res + z * res * res;
    vstd::arithmetic::div_mod::lemma_fundamental_div_mod_converse(i, res, y + z * res, x);
    assert(y + z * res == z * res + y);
    vstd::arithmetic::div_mod::lemma_fundamental_div_mod_converse(y + z * res, res, z, y);
    assert(0 <= x + y * res < res * res) by (nonlinear_arith)
        requires 1 <= res, 0 <= x < res, 0 <= y < res;
    assert(i == z * (res * res) + (x + y * res)) by (nonlinear_arith)
        requires i == x + y * res + z * res * res;
    vstd::arithmetic::div_mod::lemma_fundamental_div_mod_converse(i, res * res, z, x + y * res);
}

/// An index below `res³` names in-grid coordinates that index back to it.
pub proof fn lemma_lod_coords(res: int, i: int)
    requires
        1 <= res <= 32,
        0 <= i < res * res * res,
    ensures
        0 <= lod_coords(res, i).0 < res,
        0 <= lod_coords(res, i).1 < res,
        0 <= lod_coords(res, i).2 < res,
        lod_index(res, lod_coords(res, i).0, lod_coords(res, i).1, lod_coords(res, i).2) == i,
{
    let (x, y, z) = lod_coords(res, i);
    assert(0 <= x < res && 0 <= y < res && 0 <= z < res && x + y * res + z * res * res == i) by (nonlinear_arith)
        requires
            1 <= res,
            0 <= i < res * res * res,
            x == i % res,
            y == (i / res) % res,
            z == i / (res * res),
    {
        vstd::arithmetic::div_mod::lemma_fundamental_div_mod(i, res);
        vstd::arithmetic::div_mod::lemma_fundamental_div_mod(i / res, res);
        vstd::arithmetic::div_mod::lemma_div_denominator(i, res, res);
        vstd::arithmetic::div_mod::lemma_div_pos_is_pos(i, res);
        vstd::arithmetic::div_mod::lemma_mod_pos_bound(i, res);
        vstd::arithmetic::div_mod::lemma_mod_pos_bound(i / res, res);
        vstd::arithmetic::div_mod::lemma_div_pos_is_pos(i / res, res);
        vstd::arithmetic::div_mod::lemma_div_is_ordered(i, res * res * res - 1, res * res);
    }
}

/// A chunk stored at a reduced level of detail.
#[derive(Debug)]
pub struct LodChunkData {
    lod: u8,
    voxels: Vec<VoxelTypeId>,
}

impl LodChunkData {
    /// The level is at most 5 and the grid holds `resolution³` voxels.
    #[verifier::type_invariant]
    spec fn well_formed(&self) -> bool {
        &&& self.lod <= 5
        &&& self.voxels@.len() == lod_resolution(self.lod as nat) * lod_resolution(self.lod as nat) * lod_resolution(
            self.lod as nat,
        )
    }

    /// The level of detail.
    pub closed spec fn spec_lod(&self) -> u8 {
        self.lod
    }

    /// The voxels, indexed by [`lod_index`].
    pub closed spec fn voxels(&self) -> Seq<VoxelTypeId> {
        self.voxels@
    }

    /// The side of the grid.
    pub open spec fn res(&self) -> int {
        lod_resolution(self.spec_lod() as nat) as int
    }

    /// An all-air chunk at level `lod`.
    pub fn new(lod: u8) -> (r: Self)
        requires
            lod <= 5,
        ensures
            r.spec_lod() == lod,
            r.voxels() == Seq::new((r.res() * r.res() * r.res()) as nat, |i: int| VoxelTypeId(0)),
    {
        let res = resolution_of(lod);
        let total = res * res * res;
        let mut voxels: Vec<VoxelTypeId> = Vec::new();
        let mut i: u32 = 0;
        while i < total
            invariant
                i <= total,
                voxels@ == Seq::new(i as nat, |j: int| VoxelTypeId(0)),
            decreases total - i,
        {
            voxels.push(VoxelTypeId(0));
            i = i + 1;
            assert(voxels@ =~= Seq::new(i as nat, |j: int| VoxelTypeId(0)));
        }
        LodChunkData { lod, voxels }
    }

    /// The level of detail.
    pub fn lod(&self) -> (r: u8)
        ensures
            r == self.spec_lod(),
            r <= 5,
    {
        proof {
            use_type_invariant(self);
        }
        self.lod
    }

    /// The side of the grid: `32 / 2^lod`.
    pub fn resolution(&self) -> (r: u32)
        ensures
            r == self.res(),
            1 <= r <= 32,
            self.voxels().len() == r * r * r,
    {
        proof {
            use_type_invariant(self);
        }
        resolution_of(self.lod)
    }

    /// The voxel at `(x, y, z)`.
    pub fn get(&self, x: u32, y: u32, z: u32) -> (r: VoxelTypeId)
        requires
            x < self.res(),
            y < self.res(),
            z < self.res(),
        ensures
            r == self.voxels()[lod_index(self.res(), x as int, y as int, z as int)],
    {
        proof {
            use_type_invariant(self);
            lemma_lod_index(self.res(), x as int, y as int, z as int);
        }
        let res = resolution_of(self.lod);
        proof {
            assert(y * res <= 1024 && z * res <= 1024 && z * res * res <= 32768) by (nonlinear_arith)
                requires y < res, z < res, res <= 32;
        }
        self.voxels[(x + y * res + z * res * res) as usize]
    }

    /// Sets the voxel at `(x, y, z)`.
    pub fn set(&mut self, x: u32, y: u32, z: u32, voxel: VoxelTypeId)
        requires
            x < old(self).res(),
            y < old(self).res(),
            z < old(self).res(),
        ensures
            final(self).spec_lod() == old(self).spec_lod(),
            final(self).voxels() == old(self).voxels().update(
                lod_index(old(self).res(), x as int, y as int, z as int),
                voxel,
            ),
    {
        proof {
            use_type_invariant(&*self);
            lemma_lod_index(self.res(), x as int, y as int, z as int);
        }
        let res = resolution_of(self.lod);
        proof {
            assert(y * res <= 1024 && z * res <= 1024 && z * res * res <= 32768) by (nonlinear_arith)
                requires y < res, z < res, res <= 32;
        }
        let i = (x + y * res + z * res * res) as usize;
        self.voxels[i] = voxel;
    }
}

/// [`lod_resolution`] computed.
fn resolution_of(lod: u8) -> (r: u32)
    requires
        lod <= 5,
    ensures
        r == lod_resolution(lod as nat),
        1 <= r <= 32,
        r * r * r <= 32768,
{
    let r: u32 = if lod == 0 {
        32
    } else if lod == 1 {
        16
    } else if lod == 2 {
        8
    } else if lod == 3 {
        4
    } else if lod == 4 {
        2
    } else {
        1
    };
    assert(r * r * r <= 32768) by (nonlinear_arith)
        requires 1 <= r <= 32;
    r
}

} // verus!
