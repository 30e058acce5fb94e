//! Chunk mesh data structure holding vertices and indices produced by meshing
//! algorithms.
//!
//! Positions and texture coordinates of this mesh are whole voxel units, so
//! they are held as integers; a renderer widens them to floats on upload.

use vstd::prelude::*;
use crate::mesh::face_direction::{FaceDirection, face_offset, sweep_axes_spec, is_positive};
use crate::mesh::ambient_occlusion::{should_flip_ao_diagonal, should_flip_spec};
use crate::voxel::types::VoxelTypeId;

verus! {

/// A single vertex in a chunk mesh.
#[derive(Clone, Copy, Debug, PartialEq, Eq)]
pub struct MeshVertex {
    /// Position in chunk-local voxel coordinates.
    pub position: [usize; 3],
    /// Face normal (one component is ±1, the others 0).
    pub normal: [i8; 3],
    /// Texture coordinates (tiled across merged quads).
    pub uv: [usize; 2],
    /// Voxel type for material/texture lookup.
    pub voxel_type: VoxelTypeId,
    /// Ambient occlusion level (0 = fully lit, 3 = fully shadowed).
    pub ao: u8,
}

/// Metadata for a single merged quad, used for analysis and debugging.
#[derive(Clone, Copy, Debug)]
pub struct QuadInfo {
    /// Which face direction this quad belongs to.
    pub direction: FaceDirection,
}

/// The mesh output of a chunk meshing pass.
pub struct ChunkMesh {
    /// Vertex buffer.
    pub vertices: Vec<MeshVertex>,
    /// Index buffer (triangles, 3 indices per triangle).
    pub indices: Vec<u32>,
    /// One entry per emitted quad, for debugging / statistics.
    pub quads: Vec<QuadInfo>,
}

/// The offset of corner `k` of a `w` by `h` quad along (u, v): `(0, 0)`,
/// `(w, 0)`, `(w, h)`, `(0, h)`.
pub open spec fn corner_offset(k: int, w: int, h: int) -> (int, int) {
    if k == 0 {
        (0, 0)
    } else if k == 1 {
        (w, 0)
    } else if k == 2 {
        (w, h)
    } else {
        (0, h)
    }
}

/// Corner `k` (0..4) of the quad pushed by [`ChunkMesh::push_quad_ao`].
///
/// Positive faces sit on the far side of their voxel (`layer + 1`).
pub open spec fn quad_vertex_spec(
    direction: FaceDirection,
    layer: usize,
    u: usize,
    v: usize,
    w: usize,
    h: usize,
    voxel_type: VoxelTypeId,
    ao: Seq<u8>,
    k: int,
) -> MeshVertex {
    let (la, ua, va) = sweep_axes_spec(direction);
    let (du, dv) = corner_offset(k, w as int, h as int);
    let lp: int = if is_positive(direction) { layer + 1 } else { layer as int };
    let p = seq![0usize, 0usize, 0usize].update(la as int, lp as usize).update(ua as int, (u + du) as usize).update(
        va as int,
        (v + dv) as usize,
    );
    let n = face_offset(direction);
    MeshVertex {
        position: [p[0], p[1], p[2]],
        normal: [n.0 as i8, n.1 as i8, n.2 as i8],
        uv: [du as usize, dv as usize],
        voxel_type,
        ao: ao[k],
    }
}

/// The six indices of a quad whose corners start at `base`: counter-clockwise
/// seen from outside for positive faces, reversed for negative ones, and on
/// the 1–3 diagonal instead of 0–2 when `flip`.
pub open spec fn quad_winding(base: int, positive: bool, flip: bool) -> Seq<u32> {
    let b0 = base as u32;
    let b1 = (base + 1) as u32;
    let b2 = (base + 2) as u32;
    let b3 = (base + 3) as u32;
    if positive {
        if !flip {
            seq![b0, b1, b2, b0, b2, b3]
        } else {
            seq![b1, b2, b3, b0, b1, b3]
        }
    } else {
        if !flip {
            seq![b0, b2, b1, b0, b3, b2]
        } else {
            seq![b1, b3, b2, b0, b3, b1]
        }
    }
}

/// Number of quads among `quads` that face `direction`.
pub open spec fn quads_facing(quads: Seq<QuadInfo>, direction: FaceDirection) -> nat
    decreases quads.len(),
{
    if quads.len() == 0 {
        0
    } else {
        quads_facing(quads.drop_last(), direction) + if quads.last().direction == direction { 1nat } else { 0nat }
    }
}

/// Builds corner `k` of a quad.
fn quad_vertex(
    direction: FaceDirection,
    layer: usize,
    u: usize,
    v: usize,
    w: usize,
    h: usize,
    voxel_type: VoxelTypeId,
    ao: [u8; 4],
    k: usize,
) -> (r: MeshVertex)
    requires
        k < 4,
        layer < usize::MAX,
        u + w <= usize::MAX,
        v + h <= usize::MAX,
    ensures
        r == quad_vertex_spec(direction, layer, u, v, w, h, voxel_type, ao@, k as int),
{
    let (layer_axis, u_axis, v_axis) = direction.sweep_axes();
    let layer_pos: usize = match direction {
        FaceDirection::PosX | FaceDirection::PosY | FaceDirection::PosZ => layer + 1,
        FaceDirection::NegX | FaceDirection::NegY | FaceDirection::NegZ => layer,
    };
    let du: usize = if k == 1 || k == 2 { w } else { 0 };
    let dv: usize = if k == 2 || k == 3 { h } else { 0 };
    let mut pos = [0usize; 3];
    pos[layer_axis] = layer_pos;
    pos[u_axis] = u + du;
    pos[v_axis] = v + dv;
    let r = MeshVertex { position: pos, normal: direction.normal_components(), uv: [du, dv], voxel_type, ao: ao[k] };
    proof {
        let sp = quad_vertex_spec(direction, layer, u, v, w, h, voxel_type, ao@, k as int);
        assert(r.position =~= sp.position);
        assert(r.normal =~= sp.normal);
        assert(r.uv =~= sp.uv);
    }
    r
}

impl ChunkMesh {
    /// Creates an empty mesh.
    pub fn new() -> (r: Self)
        ensures
            r.vertices@.len() == 0,
            r.indices@.len() == 0,
            r.quads@.len() == 0,
    {
        ChunkMesh { vertices: Vec::new(), indices: Vec::new(), quads: Vec::new() }
    }

    /// Pushes a single merged quad with no ambient occlusion.
    ///
    /// `layer`, `u`, `v` are in chunk-local voxel coordinates; `w` and `h`
    /// are the quad dimensions along the u and v axes.
    pub fn push_quad(
        &mut self,
        direction: FaceDirection,
        layer: usize,
        u: usize,
        v: usize,
        w: usize,
        h: usize,
        voxel_type: VoxelTypeId,
    )
        requires
            layer < usize::MAX,
            u + w <= usize::MAX,
            v + h <= usize::MAX,
            old(self).vertices@.len() + 3 <= u32::MAX,
        ensures
            final(self).vertices@.len() == old(self).vertices@.len() + 4,
            forall|k: int| 0 <= k < 4 ==> #[trigger] final(self).vertices@[old(self).vertices@.len() + k]
                == quad_vertex_spec(direction, layer, u, v, w, h, voxel_type, seq![0u8, 0u8, 0u8, 0u8], k),
            final(self).vertices@.subrange(0, old(self).vertices@.len() as int) == old(self).vertices@,
            final(self).indices@ == old(self).indices@ + quad_winding(
                old(self).vertices@.len() as int,
                is_positive(direction),
                false,
            ),
            final(self).quads@ == old(self).quads@.push(QuadInfo { direction }),
    {
        let zero: [u8; 4] = [0, 0, 0, 0];
        assert(zero@ =~= seq![0u8, 0u8, 0u8, 0u8]);
        self.push_quad_ao(direction, layer, u, v, w, h, voxel_type, zero);
    }

    /// Pushes a single merged quad with per-vertex ambient occlusion.
    ///
    /// Corners are `(u, v)`, `(u+w, v)`, `(u+w, v+h)`, `(u, v+h)`; the
    /// triangulation diagonal is flipped when the AO values call for it.
    pub fn push_quad_ao(
        &mut self,
        direction: FaceDirection,
        layer: usize,
        u: usize,
        v: usize,
        w: usize,
        h: usize,
        voxel_type: VoxelTypeId,
        ao: [u8; 4],
    )
        requires
            layer < usize::MAX,
            u + w <= usize::MAX,
            v + h <= usize::MAX,
            ao@[0] + ao@[2] <= u8::MAX,
            ao@[1] + ao@[3] <= u8::MAX,
            old(self).vertices@.len() + 3 <= u32::MAX,
        ensures
            final(self).vertices@.len() == old(self).vertices@.len() + 4,
            forall|k: int| 0 <= k < 4 ==> #[trigger] final(self).vertices@[old(self).vertices@.len() + k]
                == quad_vertex_spec(direction, layer, u, v, w, h, voxel_type, ao@, k),
            final(self).vertices@.subrange(0, old(self).vertices@.len() as int) == old(self).vertices@,
            final(self).indices@ == old(self).indices@ + quad_winding(
                old(self).vertices@.len() as int,
                is_positive(direction),
                should_flip_spec(ao@),
            ),
            final(self).quads@ == old(self).quads@.push(QuadInfo { direction }),
    {
        let ghost v0 = old(self).vertices@;
        let base = self.vertices.len() as u32;
        let c0 = quad_vertex(direction, layer, u, v, w, h, voxel_type, ao, 0);
        let c1 = quad_vertex(direction, layer, u, v, w, h, voxel_type, ao, 1);
        let c2 = quad_vertex(direction, layer, u, v, w, h, voxel_type, ao, 2);
        let c3 = quad_vertex(direction, layer, u, v, w, h, voxel_type, ao, 3);
        self.vertices.push(c0);
        self.vertices.push(c1);
        self.vertices.push(c2);
        self.vertices.push(c3);
        let flip = should_flip_ao_diagonal(ao);
        let positive = match direction {
            FaceDirection::PosX | FaceDirection::PosY | FaceDirection::PosZ => true,
            FaceDirection::NegX | FaceDirection::NegY | FaceDirection::NegZ => false,
        };
        if positive {
            if !flip {
                self.indices.push(base);
                self.indices.push(base + 1);
                self.indices.push(base + 2);
                self.indices.push(base);
                self.indices.push(base + 2);
                self.indices.push(base + 3);
            } else {
                self.indices.push(base + 1);
                self.indices.push(base + 2);
                self.indices.push(base + 3);
                self.indices.push(base);
                self.indices.push(base + 1);
                self.indices.push(base + 3);
            }
        } else {
            if !flip {
                self.indices.push(base);
                self.indices.push(base + 2);
                self.indices.push(base + 1);
                self.indices.push(base);
                self.indices.push(base + 3);
                self.indices.push(base + 2);
            } else {
                self.indices.push(base + 1);
                self.indices.push(base + 3);
                self.indices.push(base + 2);
                self.indices.push(base);
                self.indices.push(base + 3);
                self.indices.push(base + 1);
            }
        }
        self.quads.push(QuadInfo { direction });
        proof {
            assert(self.vertices@.subrange(0, v0.len() as int) =~= v0);
            assert(self.indices@ =~= old(self).indices@ + quad_winding(v0.len() as int, is_positive(direction), flip));
        }
    }

    /// Counts the number of quads emitted for a specific face direction.
    pub fn count_quads_for_direction(&self, direction: FaceDirection) -> (r: usize)
        ensures
            r == quads_facing(self.quads@, direction),
    {
        let mut count: usize = 0;
        let mut i: usize = 0;
        while i < self.quads.len()
            invariant
                i <= self.quads@.len(),
                count == quads_facing(self.quads@.subrange(0, i as int), direction),
                count <= i,
            decreases self.quads@.len() - i,
        {
            proof {
                let s = self.quads@.subrange(0, i as int + 1);
                assert(s.drop_last() =~= self.quads@.subrange(0, i as int));
            }
            if self.quads[i].direction == direction {
                count = count + 1;
            }
            i = i + 1;
        }
        assert(self.quads@.subrange(0, i as int) =~= self.quads@);
        count
    }

    /// Returns the total number of quads in the mesh.
    pub fn quad_count(&self) -> (r: usize)
        ensures
            r == self.quads@.len(),
    {
        self.quads.len()
    }
}

impl Default for ChunkMesh {
    fn default() -> (r: Self)
        ensures
            r.vertices@.len() == 0,
            r.indices@.len() == 0,
            r.quads@.len() == 0,
    {
        Self::new()
    }
}

/// The position of a vertex as integers.
pub open spec fn vertex_point(v: MeshVertex) -> (int, int, int) {
    (v.position@[0] as int, v.position@[1] as int, v.position@[2] as int)
}

/// The cross product of `b - a` and `c - a`: twice the signed area vector
/// of triangle `(a, b, c)`, pointing to the side from which the corners run
/// counter-clockwise.
pub open spec fn triangle_area_vector(a: (int, int, int), b: (int, int, int), c: (int, int, int)) -> (int, int, int) {
    let (ux, uy, uz) = (b.0 - a.0, b.1 - a.1, b.2 - a.2);
    let (vx, vy, vz) = (c.0 - a.0, c.1 - a.1, c.2 - a.2);
    (uy * vz - uz * vy, uz * vx - ux * vz, ux * vy - uy * vx)
}

/// The area vector of the triangle of `vs` with corners at indices `i`,
/// `j`, `k`.
pub open spec fn indexed_triangle_area(vs: Seq<MeshVertex>, i: u32, j: u32, k: u32) -> (int, int, int) {
    triangle_area_vector(vertex_point(vs[i as int]), vertex_point(vs[j as int]), vertex_point(vs[k as int]))
}

/// `+1` when the sweep axes `(layer, u, v)` of `d` are an even permutation of
/// `(x, y, z)` (a right-handed frame), `-1` when odd.
pub open spec fn sweep_handedness(d: FaceDirection) -> int {
    let (a, b, c) = sweep_axes_spec(d);
    if (a, b, c) == (0usize, 1usize, 2usize) || (a, b, c) == (1usize, 2usize, 0usize) || (a, b, c) == (2usize, 0usize,
        1usize) {
        1
    } else {
        -1
    }
}

/// Both triangles of a quad pushed by [`ChunkMesh::push_quad_ao`] wind the
/// same way, with or without the flipped diagonal: each runs
/// counter-clockwise in the face's `(u, v)` coordinates seen from the side
/// the face points to, so its area vector is `w * h` along the face's
/// normal, turned by the handedness of the sweep axes. The AO flip changes
/// the diagonal, never the side a quad faces, and a face and the opposite
/// face on the same plane face away from each other.
pub proof fn lemma_quad_triangles_face_one_way(
    vs: Seq<MeshVertex>,
    base: int,
    direction: FaceDirection,
    layer: usize,
    u: usize,
    v: usize,
    w: usize,
    h: usize,
    voxel_type: VoxelTypeId,
    ao: Seq<u8>,
    flip: bool,
)
    requires
        0 <= base,
        base + 3 <= u32::MAX,
        base + 4 <= vs.len(),
        layer < usize::MAX,
        u + w <= usize::MAX,
        v + h <= usize::MAX,
        forall|k: int| 0 <= k < 4 ==> #[trigger] vs[base + k] == quad_vertex_spec(direction, layer, u, v, w, h, voxel_type, ao, k),
    ensures
        quad_winding(base, is_positive(direction), flip).len() == 6,
        ({
            let t = quad_winding(base, is_positive(direction), flip);
            let n = face_offset(direction);
            let s = sweep_handedness(direction) * (w * h);
            &&& indexed_triangle_area(vs, t[0], t[1], t[2]) == (s * n.0, s * n.1, s * n.2)
            &&& indexed_triangle_area(vs, t[3], t[4], t[5]) == (s * n.0, s * n.1, s * n.2)
        }),
{
    let lp: int = if is_positive(direction) { layer + 1 } else { layer as int };
    let sgn: int = if is_positive(direction) { 1 } else { -1 };
    assert forall|k: int| 0 <= k < 4 implies #[trigger] vertex_point(vs[base + k]) == frame_point(
        direction,
        lp,
        u + corner_offset(k, w as int, h as int).0,
        v + corner_offset(k, w as int, h as int).1,
    ) by {
        let q = quad_vertex_spec(direction, layer, u, v, w, h, voxel_type, ao, k);
        assert(vs[base + k] == q);
    }
    let a0 = frame_point(direction, lp, u as int, v as int);
    assert(vertex_point(vs[base + 0]) == a0);
    let a1 = frame_point(direction, lp, u + w, v as int);
    let a2 = frame_point(direction, lp, u + w, v + h);
    let a3 = frame_point(direction, lp, u as int, v + h);
    assert(vertex_point(vs[base + 1]) == a1);
    assert(vertex_point(vs[base + 2]) == a2);
    assert(vertex_point(vs[base + 3]) == a3);
    assert(w * h == h * w) by (nonlinear_arith);
    assert((-(w as int)) * (h as int) == -(w * h)) by (nonlinear_arith);
    assert(w * (h as int) - 0 * (w as int) == w * h) by (nonlinear_arith);
    lemma_frame_area(direction, lp, u as int, v as int, u + w, v as int, u + w, v + h);
    lemma_frame_area(direction, lp, u as int, v as int, u + w, v + h, u as int, v + h);
    lemma_frame_area(direction, lp, u as int, v as int, u + w, v + h, u + w, v as int);
    lemma_frame_area(direction, lp, u as int, v as int, u as int, v + h, u + w, v + h);
    lemma_frame_area(direction, lp, u + w, v as int, u + w, v + h, u as int, v + h);
    lemma_frame_area(direction, lp, u as int, v as int, u + w, v as int, u as int, v + h);
    lemma_frame_area(direction, lp, u + w, v as int, u as int, v + h, u + w, v + h);
    lemma_frame_area(direction, lp, u as int, v as int, u as int, v + h, u + w, v as int);
    assert(face_offset(direction) == axis_unit(direction, sgn));
    assert(sweep_handedness(direction) * (w * h) * sgn == sgn * (sweep_handedness(direction) * (w * h))) by (nonlinear_arith);
}

/// The point at `l` along the layer axis of `d` and `(pu, pv)` along its
/// `u` and `v` axes.
pub open spec fn frame_point(d: FaceDirection, l: int, pu: int, pv: int) -> (int, int, int) {
    let (la, ua, va) = sweep_axes_spec(d);
    let c = |i: usize| if i == la { l } else if i == ua { pu } else { pv };
    (c(0), c(1), c(2))
}

/// `s` times the unit vector along the layer axis of `d`.
pub open spec fn axis_unit(d: FaceDirection, s: int) -> (int, int, int) {
    let (la, _, _) = sweep_axes_spec(d);
    (if la == 0 { s } else { 0 }, if la == 1 { s } else { 0 }, if la == 2 { s } else { 0 })
}

/// A triangle in the plane of a face has area vector the signed area of
/// its `(u, v)` projection along the layer axis, turned by the handedness
/// of the sweep axes.
proof fn lemma_frame_area(d: FaceDirection, l: int, au: int, av: int, bu: int, bv: int, cu: int, cv: int)
    ensures
        triangle_area_vector(frame_point(d, l, au, av), frame_point(d, l, bu, bv), frame_point(d, l, cu, cv))
            == axis_unit(d, sweep_handedness(d) * ((bu - au) * (cv - av) - (bv - av) * (cu - au))),
{
    let x = (bu - au) * (cv - av) - (bv - av) * (cu - au);
    assert((bv - av) * (cu - au) - (bu - au) * (cv - av) == -x);
    assert((cv - av) * (bu - au) == (bu - au) * (cv - av)) by (nonlinear_arith);
    assert((cu - au) * (bv - av) == (bv - av) * (cu - au)) by (nonlinear_arith);
    assert(0 * (cv - av) == 0 && (bv - av) * 0 == 0 && 0 * (cu - au) == 0 && (bu - au) * 0 == 0 && (cv - av) * 0 == 0
        && 0 * (bv - av) == 0 && (cu - au) * 0 == 0 && 0 * (bu - au) == 0) by (nonlinear_arith);
}

} // verus!
