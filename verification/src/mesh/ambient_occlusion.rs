//! Per-vertex voxel ambient occlusion following the Mikola Lysenko algorithm.
//!
//! Each visible face has 4 vertices; for each vertex, three neighboring voxels
//! (two sides and one corner) are checked to compute an occlusion value 0–3.

use vstd::prelude::*;
use crate::mesh::face_direction::{FaceDirection, face_offset, sweep_axes_spec};
use crate::mesh::neighborhood::{ChunkNeighborhood, NeighborhoodView, lookup};
use crate::voxel::registry::{VoxelTypeRegistry, TypeTraits, is_solid_spec};

verus! {

/// Neighbor offsets for a single vertex's AO calculation.
#[derive(Clone, Copy, Debug)]
pub struct VertexAoOffsets {
    /// Offset to the first side neighbor (relative to the voxel position).
    pub side1: (i32, i32, i32),
    /// Offset to the second side neighbor.
    pub side2: (i32, i32, i32),
    /// Offset to the diagonal corner neighbor.
    pub corner: (i32, i32, i32),
}

/// The AO value of a vertex: 3 when both sides are solid, otherwise the
/// number of solid neighbors among the two sides and the corner.
pub open spec fn vertex_ao_spec(side1: bool, side2: bool, corner: bool) -> u8 {
    if side1 && side2 {
        3
    } else {
        ((if side1 { 1u8 } else { 0u8 }) + (if side2 { 1u8 } else { 0u8 }) + (if corner { 1u8 } else { 0u8 })) as u8
    }
}

/// Compute the ambient occlusion value for a single vertex.
///
/// Returns a value in `0..=3`: `0` fully exposed (brightest) up to `3`
/// fully occluded (darkest).
pub fn vertex_ao(side1: bool, side2: bool, corner: bool) -> (r: u8)
    ensures
        r == vertex_ao_spec(side1, side2, corner),
        r <= 3,
{
    if side1 && side2 {
        3
    } else {
        (side1 as u8) + (side2 as u8) + (corner as u8)
    }
}

/// The AO value is symmetric in its two sides and never exceeds 3.
pub proof fn lemma_vertex_ao_symmetric(side1: bool, side2: bool, corner: bool)
    ensures
        vertex_ao_spec(side1, side2, corner) == vertex_ao_spec(side2, side1, corner),
        vertex_ao_spec(side1, side2, corner) <= 3,
        vertex_ao_spec(false, false, false) == 0,
{
}

/// Whether the quad diagonal should be flipped: `ao[0] + ao[2] > ao[1] + ao[3]`.
pub open spec fn should_flip_spec(ao: Seq<u8>) -> bool {
    ao[0] + ao[2] > ao[1] + ao[3]
}

/// Determine whether to flip the quad diagonal based on AO values, for
/// smoother interpolation across the quad.
///
/// The two diagonal sums are byte sums (AO values are at most 3 as
/// `vertex_ao` produces them).
pub fn should_flip_ao_diagonal(ao: [u8; 4]) -> (r: bool)
    requires
        ao@[0] + ao@[2] <= u8::MAX,
        ao@[1] + ao@[3] <= u8::MAX,
    ensures
        r == should_flip_spec(ao@),
{
    ao[0] + ao[2] > ao[1] + ao[3]
}

/// The sign of the `u` and `v` steps of vertex `k` of a face, in the order
/// `(u, v)`, `(u+1, v)`, `(u+1, v+1)`, `(u, v+1)`.
pub open spec fn corner_signs(k: int) -> (int, int) {
    if k == 0 {
        (-1, -1)
    } else if k == 1 {
        (1, -1)
    } else if k == 2 {
        (1, 1)
    } else {
        (-1, 1)
    }
}

/// A step of `s` along axis `axis` (0=X, 1=Y, 2=Z).
pub open spec fn step_along(axis: usize, s: int) -> (int, int, int) {
    if axis == 0 {
        (s, 0, 0)
    } else if axis == 1 {
        (0, s, 0)
    } else {
        (0, 0, s)
    }
}

/// Component-wise sum of two offsets.
pub open spec fn add3(a: (int, int, int), b: (int, int, int)) -> (int, int, int) {
    (a.0 + b.0, a.1 + b.1, a.2 + b.2)
}

/// An integer offset as an `i32` triple.
pub open spec fn to_i32_3(a: (int, int, int)) -> (i32, i32, i32) {
    (a.0 as i32, a.1 as i32, a.2 as i32)
}

/// The AO neighbor offsets of vertex `k` of face `d`: one step along the
/// normal, plus the vertex's step along `u` (side1), along `v` (side2), or
/// both (corner).
pub open spec fn ao_offsets_spec(d: FaceDirection, k: int) -> VertexAoOffsets {
    let (_layer, u, v) = sweep_axes_spec(d);
    let (su, sv) = corner_signs(k);
    let n = face_offset(d);
    VertexAoOffsets {
        side1: to_i32_3(add3(n, step_along(u, su))),
        side2: to_i32_3(add3(n, step_along(v, sv))),
        corner: to_i32_3(add3(add3(n, step_along(u, su)), step_along(v, sv))),
    }
}

/// Returns the 4 sets of AO neighbor offsets for the vertices of a face.
///
/// The offsets are relative to the voxel's own position in chunk-local
/// coords; vertex order matches `push_quad`: `(u, v)`, `(u+1, v)`,
/// `(u+1, v+1)`, `(u, v+1)` in the face's UV space.
pub fn face_ao_offsets(direction: FaceDirection) -> (r: [VertexAoOffsets; 4])
    ensures
        forall|k: int| 0 <= k < 4 ==> r@[k] == ao_offsets_spec(direction, k),
{
    let r = match direction {
        FaceDirection::PosY => [
            VertexAoOffsets { side1: (-1, 1, 0), side2: (0, 1, -1), corner: (-1, 1, -1) },
            VertexAoOffsets { side1: (1, 1, 0), side2: (0, 1, -1), corner: (1, 1, -1) },
            VertexAoOffsets { side1: (1, 1, 0), side2: (0, 1, 1), corner: (1, 1, 1) },
            VertexAoOffsets { side1: (-1, 1, 0), side2: (0, 1, 1), corner: (-1, 1, 1) },
        ],
        FaceDirection::NegY => [
            VertexAoOffsets { side1: (-1, -1, 0), side2: (0, -1, -1), corner: (-1, -1, -1) },
            VertexAoOffsets { side1: (1, -1, 0), side2: (0, -1, -1), corner: (1, -1, -1) },
            VertexAoOffsets { side1: (1, -1, 0), side2: (0, -1, 1), corner: (1, -1, 1) },
            VertexAoOffsets { side1: (-1, -1, 0), side2: (0, -1, 1), corner: (-1, -1, 1) },
        ],
        FaceDirection::PosX => [
            VertexAoOffsets { side1: (1, 0, -1), side2: (1, -1, 0), corner: (1, -1, -1) },
            VertexAoOffsets { side1: (1, 0, 1), side2: (1, -1, 0), corner: (1, -1, 1) },
            VertexAoOffsets { side1: (1, 0, 1), side2: (1, 1, 0), corner: (1, 1, 1) },
            VertexAoOffsets { side1: (1, 0, -1), side2: (1, 1, 0), corner: (1, 1, -1) },
        ],
        FaceDirection::NegX => [
            VertexAoOffsets { side1: (-1, 0, -1), side2: (-1, -1, 0), corner: (-1, -1, -1) },
            VertexAoOffsets { side1: (-1, 0, 1), side2: (-1, -1, 0), corner: (-1, -1, 1) },
            VertexAoOffsets { side1: (-1, 0, 1), side2: (-1, 1, 0), corner: (-1, 1, 1) },
            VertexAoOffsets { side1: (-1, 0, -1), side2: (-1, 1, 0), corner: (-1, 1, -1) },
        ],
        FaceDirection::PosZ => [
            VertexAoOffsets { side1: (-1, 0, 1), side2: (0, -1, 1), corner: (-1, -1, 1) },
            VertexAoOffsets { side1: (1, 0, 1), side2: (0, -1, 1), corner: (1, -1, 1) },
            VertexAoOffsets { side1: (1, 0, 1), side2: (0, 1, 1), corner: (1, 1, 1) },
            VertexAoOffsets { side1: (-1, 0, 1), side2: (0, 1, 1), corner: (-1, 1, 1) },
        ],
        FaceDirection::NegZ => [
            VertexAoOffsets { side1: (-1, 0, -1), side2: (0, -1, -1), corner: (-1, -1, -1) },
            VertexAoOffsets { side1: (1, 0, -1), side2: (0, -1, -1), corner: (1, -1, -1) },
            VertexAoOffsets { side1: (1, 0, -1), side2: (0, 1, -1), corner: (1, 1, -1) },
            VertexAoOffsets { side1: (-1, 0, -1), side2: (0, 1, -1), corner: (-1, 1, -1) },
        ],
    };
    assert(r@[0] == ao_offsets_spec(direction, 0));
    assert(r@[1] == ao_offsets_spec(direction, 1));
    assert(r@[2] == ao_offsets_spec(direction, 2));
    assert(r@[3] == ao_offsets_spec(direction, 3));
    r
}

/// Whether the voxel at `(x, y, z)` moved by `off` is solid.
pub open spec fn solid_at(types: Seq<TypeTraits>, n: NeighborhoodView, x: int, y: int, z: int, off: (i32, i32, i32)) -> bool {
    is_solid_spec(types, lookup(n, x + off.0, y + off.1, z + off.2))
}

/// The AO value of vertex `k` of the face in direction `d` of the voxel at
/// `(x, y, z)`.
pub open spec fn face_ao_spec(types: Seq<TypeTraits>, n: NeighborhoodView, x: int, y: int, z: int, d: FaceDirection, k: int) -> u8 {
    let o = ao_offsets_spec(d, k);
    vertex_ao_spec(solid_at(types, n, x, y, z, o.side1), solid_at(types, n, x, y, z, o.side2), solid_at(types, n, x, y, z, o.corner))
}

/// Compute AO values for all 4 vertices of a voxel face, reading the
/// neighborhood for solidity.
pub fn compute_face_ao(
    neighborhood: &ChunkNeighborhood,
    registry: &VoxelTypeRegistry,
    face_pos: (usize, usize, usize),
    direction: FaceDirection,
) -> (r: [u8; 4])
    requires
        face_pos.0 + 2 <= i32::MAX,
        face_pos.1 + 2 <= i32::MAX,
        face_pos.2 + 2 <= i32::MAX,
    ensures
        forall|k: int| 0 <= k < 4 ==> #[trigger] r@[k] == face_ao_spec(
            registry@,
            neighborhood@,
            face_pos.0 as int,
            face_pos.1 as int,
            face_pos.2 as int,
            direction,
            k,
        ),
        forall|k: int| 0 <= k < 4 ==> #[trigger] r@[k] <= 3,
{
    let offsets = face_ao_offsets(direction);
    let x = face_pos.0 as i32;
    let y = face_pos.1 as i32;
    let z = face_pos.2 as i32;
    let mut ao = [0u8; 4];
    let mut k: usize = 0;
    while k < 4
        invariant
            k <= 4,
            x == face_pos.0,
            y == face_pos.1,
            z == face_pos.2,
            x + 2 <= i32::MAX,
            y + 2 <= i32::MAX,
            z + 2 <= i32::MAX,
            forall|j: int| 0 <= j < 4 ==> offsets@[j] == ao_offsets_spec(direction, j),
            forall|j: int| 0 <= j < k ==> #[trigger] ao@[j] == face_ao_spec(
                registry@,
                neighborhood@,
                x as int,
                y as int,
                z as int,
                direction,
                j,
            ),
            forall|j: int| 0 <= j < k ==> #[trigger] ao@[j] <= 3,
        decreases 4 - k,
    {
        let vo = offsets[k];
        assert(vo == ao_offsets_spec(direction, k as int));
        let s1 = registry.is_solid(neighborhood.get(x + vo.side1.0, y + vo.side1.1, z + vo.side1.2));
        let s2 = registry.is_solid(neighborhood.get(x + vo.side2.0, y + vo.side2.1, z + vo.side2.2));
        let c = registry.is_solid(neighborhood.get(x + vo.corner.0, y + vo.corner.1, z + vo.corner.2));
        ao[k] = vertex_ao(s1, s2, c);
        k = k + 1;
    }
    ao
}

} // verus!
