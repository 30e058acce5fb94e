//! Voxel resolution per level of detail.

use vstd::prelude::*;

verus! {

/// The voxel resolution of a chunk at LOD `lod`: 32 at LOD 0, halving at
/// each coarser level.
pub open spec fn lod_resolution(lod: nat) -> nat
    decreases lod,
{
    if lod == 0 {
        32
    } else {
        lod_resolution((lod - 1) as nat) / 2
    }
}

/// Shifting right by one more bit halves the result.
proof fn lemma_shift_halves(lod: u8)
    requires
        1 <= lod < 32,
    ensures
        (32u32 >> lod) == (32u32 >> ((lod - 1) as u8)) / 2,
{
    assert((32u32 >> lod) == (32u32 >> ((lod - 1) as u8)) / 2) by (bit_vector)
        requires
            1 <= lod < 32,
    ;
}

/// `32 >> lod` is the resolution of LOD `lod`.
proof fn lemma_shift_is_resolution(lod: u8)
    requires
        lod < 32,
    ensures
        (32u32 >> lod) as nat == lod_resolution(lod as nat),
    decreases lod,
{
    if lod == 0 {
        assert((32u32 >> 0u8) == 32u32) by (bit_vector);
    } else {
        lemma_shift_is_resolution((lod - 1) as u8);
        lemma_shift_halves(lod);
    }
}

/// Return the voxel resolution for a given LOD level: LOD 0 = 32, LOD 1 =
/// 16, LOD 2 = 8, and so on down to 0 from LOD 6 on. A level of 32 or more
/// would shift a `u32` by its width, so it is not accepted.
pub fn resolution_for_lod(lod: u8) -> (r: u32)
    requires
        lod < 32,
    ensures
        r == lod_resolution(lod as nat),
{
    proof {
        lemma_shift_is_resolution(lod);
    }
    32u32 >> lod
}

} // verus!
