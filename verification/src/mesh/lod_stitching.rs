//! LOD transition stitching: removes cracks at boundaries between chunks
//! at different levels of detail, by snapping high-LOD edge vertices to the
//! low-LOD grid or by emitting bridging transition strips.

use vstd::prelude::*;
use crate::mesh::face_direction::{FaceDirection, face_index, face_from_index, lemma_face_index_roundtrip, sweep_axes_spec, is_positive};
use crate::mesh::packed::{ChunkVertex, PackedChunkMesh, indices_valid};

verus! {

/// Information about the LOD relationship between a chunk and its 6 face neighbors.
#[derive(Clone, Debug)]
pub struct LodContext {
    /// The LOD level of the central chunk being meshed.
    pub center_lod: u8,
    /// The LOD level of each face neighbor, indexed by face direction;
    /// `None` means the neighbor is not loaded (treated as same LOD).
    pub neighbor_lods: [Option<u8>; 6],
}

/// The signed LOD difference `neighbor - center`, with both levels read as `i8`.
pub open spec fn lod_difference_spec(ctx: LodContext, d: FaceDirection) -> int {
    match ctx.neighbor_lods@[face_index(d) as int] {
        Some(n) => (n as i8) - (ctx.center_lod as i8),
        None => 0,
    }
}

impl LodContext {
    /// Create a context where all neighbors share the same LOD level.
    pub fn uniform(lod: u8) -> (r: Self)
        ensures
            r.center_lod == lod,
            forall|i: int| 0 <= i < 6 ==> r.neighbor_lods@[i] == Some(lod),
    {
        LodContext { center_lod: lod, neighbor_lods: [Some(lod); 6] }
    }

    /// Whether the face has a loaded neighbor at a different LOD level.
    pub fn has_transition(&self, direction: FaceDirection) -> (r: bool)
        ensures
            r == match self.neighbor_lods@[face_index(direction) as int] {
                Some(n) => n != self.center_lod,
                None => false,
            },
    {
        match self.neighbor_lods[direction.index()] {
            Some(neighbor_lod) => neighbor_lod != self.center_lod,
            None => false,
        }
    }

    /// The LOD difference for a face; positive means the neighbor is coarser.
    pub fn lod_difference(&self, direction: FaceDirection) -> (r: i8)
        requires
            -128 <= lod_difference_spec(*self, direction) <= 127,
        ensures
            r == lod_difference_spec(*self, direction),
    {
        match self.neighbor_lods[direction.index()] {
            Some(neighbor_lod) => neighbor_lod as i8 - self.center_lod as i8,
            None => 0,
        }
    }
}

/// The coordinate on the boundary plane of a face: `chunk_size` (wrapped to
/// a byte) for positive faces, `0` for negative ones.
pub open spec fn boundary_coord(d: FaceDirection, chunk_size: usize) -> u8 {
    if is_positive(d) { chunk_size as u8 } else { 0 }
}

/// Whether a vertex lies on the boundary plane of face `d`.
pub open spec fn on_boundary(v: ChunkVertex, d: FaceDirection, chunk_size: usize) -> bool {
    v.position@[sweep_axes_spec(d).0 as int] == boundary_coord(d, chunk_size)
}

/// Coordinate `c` rounded to the nearest multiple of `step` (ties upward),
/// clamped to `chunk_size`, as a byte.
pub open spec fn snap_coord(c: u8, step: nat, chunk_size: nat) -> u8 {
    let s: int = ((c as int + step as int / 2) / step as int) * step as int;
    (if s <= chunk_size as int { s } else { chunk_size as int }) as u8
}

/// A vertex with its two tangential coordinates snapped to the `step` grid.
pub open spec fn snap_vertex(v: ChunkVertex, d: FaceDirection, step: nat, chunk_size: nat) -> ChunkVertex {
    let (_l, u, w) = sweep_axes_spec(d);
    let p1 = v.position@.update(u as int, snap_coord(v.position@[u as int], step, chunk_size));
    let p2 = p1.update(w as int, snap_coord(v.position@[w as int], step, chunk_size));
    ChunkVertex { position: [p2[0], p2[1], p2[2]], ..v }
}

/// The vertices after snapping the boundary vertices of face `d`.
pub open spec fn snapped_vertices(vs: Seq<ChunkVertex>, d: FaceDirection, step: nat, chunk_size: usize) -> Seq<ChunkVertex> {
    Seq::new(vs.len(), |i: int| if on_boundary(vs[i], d, chunk_size) { snap_vertex(vs[i], d, step, chunk_size as nat) } else { vs[i] })
}

/// `2^k`.
pub open spec fn pow2(k: nat) -> nat
    decreases k,
{
    if k == 0 { 1 } else { 2 * pow2((k - 1) as nat) }
}

/// Snaps the tangential coordinates of one vertex to the `step` grid.
fn snap_one(v: ChunkVertex, direction: FaceDirection, step: u128, chunk_size: usize) -> (r: ChunkVertex)
    requires
        step >= 1,
        step <= 0x8000_0000_0000_0000,
    ensures
        r == snap_vertex(v, direction, step as nat, chunk_size as nat),
{
    let (_layer, u_idx, v_idx) = direction.sweep_axes();
    let mut pos = v.position;
    let u = pos[u_idx] as u128;
    let tu = u + step / 2;
    let qu = tu / step;
    assert(qu * step <= tu) by (nonlinear_arith)
        requires step >= 1, qu == tu / step;
    let su = qu * step;
    pos[u_idx] = (if su <= chunk_size as u128 { su } else { chunk_size as u128 }) as u8;
    let w = pos[v_idx] as u128;
    let tw = w + step / 2;
    let qw = tw / step;
    assert(qw * step <= tw) by (nonlinear_arith)
        requires step >= 1, qw == tw / step;
    let sw = qw * step;
    pos[v_idx] = (if sw <= chunk_size as u128 { sw } else { chunk_size as u128 }) as u8;
    let r = ChunkVertex { position: pos, ..v };
    proof {
        let sp = snap_vertex(v, direction, step as nat, chunk_size as nat);
        assert(su as int == ((u as int + step as int / 2) / step as int) * step as int);
        assert(sw as int == ((w as int + step as int / 2) / step as int) * step as int);
        assert(r.position@ =~= sp.position@);
        vstd::array::lemma_array_index(r.position, 0);
        assert(r.position == sp.position);
    }
    r
}

/// Snaps the boundary vertices of face `direction` to a grid of step
/// `2^lod_difference`. Shared by LOD stitching and seam constraining.
pub(crate) fn snap_boundary_vertices(
    mesh: &mut PackedChunkMesh,
    direction: FaceDirection,
    lod_difference: u8,
    chunk_size: usize,
)
    requires
        lod_difference < 64,
    ensures
        final(mesh).indices@ == old(mesh).indices@,
        lod_difference == 0 ==> final(mesh).vertices@ == old(mesh).vertices@,
        lod_difference > 0 ==> final(mesh).vertices@ == snapped_vertices(old(mesh).vertices@, direction, pow2(lod_difference as nat), chunk_size),
{
    if lod_difference == 0 {
        return;
    }
    let step: u128 = 1u128 << (lod_difference as u128);
    proof {
        lemma_shl_pow2(lod_difference);
    }
    let (layer, _u, _v) = direction.sweep_axes();
    let boundary: u8 = match direction {
        FaceDirection::PosX | FaceDirection::PosY | FaceDirection::PosZ => chunk_size as u8,
        FaceDirection::NegX | FaceDirection::NegY | FaceDirection::NegZ => 0,
    };
    let n = mesh.vertices.len();
    let mut i: usize = 0;
    while i < n
        invariant
            n == old(mesh).vertices@.len(),
            mesh.vertices@.len() == n,
            mesh.indices@ == old(mesh).indices@,
            step == pow2(lod_difference as nat),
            1 <= step <= 0x8000_0000_0000_0000,
            boundary == boundary_coord(direction, chunk_size),
            layer == sweep_axes_spec(direction).0,
            i <= n,
            forall|j: int| 0 <= j < n ==> #[trigger] mesh.vertices@[j] == if j < i {
                snapped_vertices(old(mesh).vertices@, direction, step as nat, chunk_size)[j]
            } else {
                old(mesh).vertices@[j]
            },
        decreases n - i,
    {
        let vertex = mesh.vertices[i];
        if vertex.position[layer] == boundary {
            let snapped = snap_one(vertex, direction, step, chunk_size);
            mesh.vertices.set(i, snapped);
        }
        i = i + 1;
    }
    assert(mesh.vertices@ =~= snapped_vertices(old(mesh).vertices@, direction, pow2(lod_difference as nat), chunk_size));
}

/// `1 << k` is `2^k` for shifts below 64.
proof fn lemma_shl_pow2(k: u8)
    requires
        k < 64,
    ensures
        (1u128 << (k as u128)) == pow2(k as nat),
        1 <= pow2(k as nat) <= 0x8000_0000_0000_0000,
    decreases k,
{
    if k == 0 {
        assert((1u128 << 0u128) == 1) by (bit_vector);
    } else {
        lemma_shl_pow2((k - 1) as u8);
        let kk = k as u128;
        assert((1u128 << kk) == 2 * (1u128 << ((kk - 1) as u128))) by (bit_vector)
            requires 0 < kk < 64;
        assert((1u128 << kk) <= 0x8000_0000_0000_0000) by (bit_vector)
            requires kk < 64;
    }
}

/// Snap high-LOD edge vertices to align with the low-LOD grid.
///
/// Boundary vertices of face `direction` get their two tangential
/// coordinates rounded to the nearest multiple of `2^lod_difference`
/// (ties upward), clamped to `chunk_size`; other vertices and all indices
/// are unchanged.
pub fn snap_edge_vertices(
    mesh: &mut PackedChunkMesh,
    direction: FaceDirection,
    lod_difference: u8,
    chunk_size: usize,
)
    requires
        lod_difference < 64,
    ensures
        final(mesh).indices@ == old(mesh).indices@,
        lod_difference == 0 ==> final(mesh).vertices@ == old(mesh).vertices@,
        lod_difference > 0 ==> final(mesh).vertices@ == snapped_vertices(old(mesh).vertices@, direction, pow2(lod_difference as nat), chunk_size),
{
    snap_boundary_vertices(mesh, direction, lod_difference, chunk_size);
}

/// After snapping to a grid that divides `chunk_size` (at most 255), every
/// boundary vertex has both tangential coordinates on the grid and is still
/// on the boundary: no T-junction remains along that face.
pub proof fn lemma_snapped_vertices_aligned(vs: Seq<ChunkVertex>, d: FaceDirection, step: nat, chunk_size: usize, i: int)
    requires
        step >= 1,
        chunk_size <= 255,
        chunk_size as int % step as int == 0,
        0 <= i < vs.len(),
        on_boundary(vs[i], d, chunk_size),
    ensures
        on_boundary(snapped_vertices(vs, d, step, chunk_size)[i], d, chunk_size),
        snapped_vertices(vs, d, step, chunk_size)[i].position@[sweep_axes_spec(d).1 as int] as int % step as int == 0,
        snapped_vertices(vs, d, step, chunk_size)[i].position@[sweep_axes_spec(d).2 as int] as int % step as int == 0,
{
    let (l, u, w) = sweep_axes_spec(d);
    let v = vs[i];
    lemma_snap_coord_aligned(v.position@[u as int], step, chunk_size as nat);
    lemma_snap_coord_aligned(v.position@[w as int], step, chunk_size as nat);
}

/// A snapped coordinate is a multiple of the step.
proof fn lemma_snap_coord_aligned(c: u8, step: nat, chunk_size: nat)
    requires
        step >= 1,
        chunk_size <= 255,
        chunk_size as int % step as int == 0,
    ensures
        snap_coord(c, step, chunk_size) as int % step as int == 0,
{
    let s: int = ((c as int + step as int / 2) / step as int) * step as int;
    assert(s % (step as int) == 0 && s >= 0) by (nonlinear_arith)
        requires s == ((c as int + step as int / 2) / step as int) * step as int, step >= 1, c >= 0;
    if s <= chunk_size as int {
        assert(s <= 255);
    }
}

/// The vertices after stitching the first `k` faces, in face-index order:
/// each face whose neighbor is coarser has its boundary vertices snapped to
/// the `2^difference` grid.
pub open spec fn stitched_vertices(vs: Seq<ChunkVertex>, ctx: LodContext, chunk_size: usize, k: nat) -> Seq<ChunkVertex>
    decreases k,
{
    if k == 0 {
        vs
    } else {
        let prev = stitched_vertices(vs, ctx, chunk_size, (k - 1) as nat);
        let d = face_from_index((k - 1) as nat);
        let diff = lod_difference_spec(ctx, d);
        if diff > 0 {
            snapped_vertices(prev, d, pow2(diff as nat), chunk_size)
        } else {
            prev
        }
    }
}

/// Apply LOD stitching: for each face whose neighbor is coarser (positive
/// LOD difference), snap its boundary vertices to the coarser grid (see
/// [`stitched_vertices`]); the indices stay.
pub fn apply_lod_stitching(mesh: &mut PackedChunkMesh, context: &LodContext, chunk_size: usize)
    requires
        forall|i: int| 0 <= i < 6 ==> match #[trigger] context.neighbor_lods@[i] {
            Some(n) => -128 <= (n as i8) - (context.center_lod as i8) < 64,
            None => true,
        },
    ensures
        final(mesh).indices@ == old(mesh).indices@,
        final(mesh).vertices@ == stitched_vertices(old(mesh).vertices@, *context, chunk_size, 6),
{
    let mut k: usize = 0;
    while k < 6
        invariant
            k <= 6,
            mesh.indices@ == old(mesh).indices@,
            mesh.vertices@ == stitched_vertices(old(mesh).vertices@, *context, chunk_size, k as nat),
            forall|i: int| 0 <= i < 6 ==> match #[trigger] context.neighbor_lods@[i] {
                Some(n) => -128 <= (n as i8) - (context.center_lod as i8) < 64,
                None => true,
            },
        decreases 6 - k,
    {
        let dir = FaceDirection::ALL[k];
        assert(face_index(dir) == k);
        proof {
            lemma_face_index_roundtrip(dir);
        }
        let diff = context.lod_difference(dir);
        if diff > 0 {
            snap_boundary_vertices(mesh, dir, diff as u8, chunk_size);
        }
        k = k + 1;
    }
}


/// Whether a vertex of a transition strip for face `d` is well formed: it
/// lies on the boundary plane, inside the face, carries the face's normal
/// index, and has zero AO, material and UV.
pub open spec fn strip_vertex_ok(v: ChunkVertex, d: FaceDirection, chunk_size: usize) -> bool {
    let (l, u, w) = sweep_axes_spec(d);
    &&& v.position@[l as int] == boundary_coord(d, chunk_size)
    &&& v.position@[u as int] <= chunk_size
    &&& v.position@[w as int] <= chunk_size
    &&& v.normal == face_index(d)
    &&& v.ao == 0
    &&& v._pad0 == 0
    &&& v.material_id == 0
    &&& v.uv@ == seq![0u8, 0u8]
    &&& v._pad1 == 0
}

/// Whether the three vertices of triangle `t` have pairwise distinct positions.
pub open spec fn triangle_nondegenerate(vs: Seq<ChunkVertex>, t: int) -> bool {
    &&& vs[3 * t].position@ != vs[3 * t + 1].position@
    &&& vs[3 * t + 1].position@ != vs[3 * t + 2].position@
    &&& vs[3 * t].position@ != vs[3 * t + 2].position@
}

/// The shape of a transition strip: triangle `t` uses vertices `3t`, `3t+1`,
/// `3t+2` (indices in order), every vertex is well formed and no triangle is
/// degenerate.
pub open spec fn strip_ok(vs: Seq<ChunkVertex>, is: Seq<u32>, d: FaceDirection, chunk_size: usize) -> bool {
    &&& is.len() == vs.len()
    &&& vs.len() % 3 == 0
    &&& forall|i: int| 0 <= i < is.len() ==> is[i] == i
    &&& forall|i: int| 0 <= i < vs.len() ==> strip_vertex_ok(#[trigger] vs[i], d, chunk_size)
    &&& forall|t: int| 0 <= t < vs.len() / 3 ==> #[trigger] triangle_nondegenerate(vs, t)
}

/// A point of a boundary face: its coordinates along the face's `u` and `v`
/// axes.
pub type FacePoint = (int, int);

/// A triangle of a transition strip, by the face points of its three
/// vertices in order.
pub type StripTriangle = (FacePoint, FacePoint, FacePoint);

/// The face point of vertex `v` on face `d`.
pub open spec fn face_point(v: ChunkVertex, d: FaceDirection) -> FacePoint {
    let (l, u, w) = sweep_axes_spec(d);
    (v.position@[u as int] as int, v.position@[w as int] as int)
}

/// The triangles of strip vertices `vs` (three vertices each) as face
/// points of face `d`.
pub open spec fn strip_triangles(vs: Seq<ChunkVertex>, d: FaceDirection) -> Seq<StripTriangle> {
    Seq::new(
        vs.len() / 3,
        |t: int| (face_point(vs[3 * t], d), face_point(vs[3 * t + 1], d), face_point(vs[3 * t + 2], d)),
    )
}

/// The triangles that bridge the coarse cell `[u0, u1] × [v0, v1]` to the
/// fine grid of unit steps on its edges, in this order:
/// - along the bottom edge, from the corner `(u0, v0)` to each unit segment
///   `(u, v0)–(u + 1, v0)` with `u0 < u < u1` (these lie on the edge);
/// - along the right edge, from `(u0, v0)` to each unit segment
///   `(u1, v)–(u1, v + 1)`, upwards;
/// - along the top edge, from the corner `(u1, v1)` to each unit segment
///   `(u, v1)–(u - 1, v1)` with `u0 < u < u1`, leftwards (these lie on the
///   edge);
/// - along the left edge, from `(u1, v1)` to each unit segment
///   `(u0, v)–(u0, v - 1)`, downwards.
///
/// The right and left fans each turn counter-clockwise in the `(u, v)`
/// plane and together tile the cell: the right fan covers the triangle
/// below its diagonal from `(u0, v0)` to `(u1, v1)`, the left fan the one
/// above it ([`lemma_cell_fans_tile`]).
pub open spec fn cell_triangles(u0: int, v0: int, u1: int, v1: int) -> Seq<StripTriangle> {
    let bottom = Seq::new((u1 - u0 - 1) as nat, |i: int| ((u0, v0), (u0 + 1 + i, v0), (u0 + 2 + i, v0)));
    let right = Seq::new((v1 - v0) as nat, |i: int| ((u0, v0), (u1, v0 + i), (u1, v0 + i + 1)));
    let top = Seq::new((u1 - u0 - 1) as nat, |i: int| ((u1, v1), (u1 - 1 - i, v1), (u1 - 2 - i, v1)));
    let left = Seq::new((v1 - v0) as nat, |i: int| ((u1, v1), (u0, v1 - i), (u0, v1 - i - 1)));
    bottom + right + top + left
}

/// The start of coarse cell `c` along an axis of `n` units split in steps
/// of `s` (clamped to `n`).
pub open spec fn cell_lo(n: nat, s: nat, c: nat) -> int {
    if c * s <= n { (c * s) as int } else { n as int }
}

/// The triangles of the first `cv` cells of the column of cells spanning
/// `[u0, u1]` along `u`, in order along `v`.
pub open spec fn column_triangles(n: nat, s: nat, u0: int, u1: int, cv: nat) -> Seq<StripTriangle>
    decreases cv,
{
    if cv == 0 {
        Seq::empty()
    } else {
        column_triangles(n, s, u0, u1, (cv - 1) as nat) + cell_triangles(
            u0,
            cell_lo(n, s, (cv - 1) as nat),
            u1,
            cell_lo(n, s, cv),
        )
    }
}

/// The triangles of the first `cu` columns of cells of a face of `n × n`
/// units split in coarse steps of `s`, column by column along `u`.
pub open spec fn face_triangles(n: nat, s: nat, cu: nat) -> Seq<StripTriangle>
    decreases cu,
{
    if cu == 0 {
        Seq::empty()
    } else {
        face_triangles(n, s, (cu - 1) as nat) + column_triangles(
            n,
            s,
            cell_lo(n, s, (cu - 1) as nat),
            cell_lo(n, s, cu),
            cell_count(n, s),
        )
    }
}

/// Twice the signed area of triangle `t` in the `(u, v)` plane: positive
/// when it turns counter-clockwise.
pub open spec fn twice_area(t: StripTriangle) -> int {
    let (a, b, c) = t;
    (b.0 - a.0) * (c.1 - a.1) - (b.1 - a.1) * (c.0 - a.0)
}

/// Every triangle of the right and left fans of a cell turns
/// counter-clockwise, and the fans have as much area as the cell: each
/// right-fan triangle has twice-area `u1 - u0` and each left-fan triangle
/// the same, so the `2 (v1 - v0)` of them make `2 (u1 - u0)(v1 - v0)`. The
/// edge triangles have no area.
pub proof fn lemma_cell_fans_tile(u0: int, v0: int, u1: int, v1: int)
    requires
        u0 < u1,
        v0 < v1,
    ensures
        forall|i: int|
            0 <= i < v1 - v0 ==> twice_area(#[trigger] cell_triangles(u0, v0, u1, v1)[(u1 - u0 - 1) + i]) == u1 - u0,
        forall|i: int|
            0 <= i < v1 - v0 ==> twice_area(
                #[trigger] cell_triangles(u0, v0, u1, v1)[2 * (u1 - u0 - 1) + (v1 - v0) + i],
            ) == u1 - u0,
        forall|i: int| 0 <= i < u1 - u0 - 1 ==> twice_area(#[trigger] cell_triangles(u0, v0, u1, v1)[i]) == 0,
        forall|i: int|
            0 <= i < u1 - u0 - 1 ==> twice_area(#[trigger] cell_triangles(u0, v0, u1, v1)[(u1 - u0 - 1) + (v1 - v0) + i])
                == 0,
        cell_triangles(u0, v0, u1, v1).len() == 2 * (u1 - u0 - 1) + 2 * (v1 - v0),
{
    let bw = u1 - u0 - 1;
    let h = v1 - v0;
    let ct = cell_triangles(u0, v0, u1, v1);
    assert forall|i: int| 0 <= i < h implies twice_area(#[trigger] ct[bw + i]) == u1 - u0 by {
        assert(ct[bw + i] == ((u0, v0), (u1, v0 + i), (u1, v0 + i + 1)));
        assert((u1 - u0) * (v0 + i + 1 - v0) - (v0 + i - v0) * (u1 - u0) == u1 - u0) by (nonlinear_arith);
    }
    assert forall|i: int| 0 <= i < h implies twice_area(#[trigger] ct[2 * bw + h + i]) == u1 - u0 by {
        assert(ct[2 * bw + h + i] == ((u1, v1), (u0, v1 - i), (u0, v1 - i - 1)));
        assert((u0 - u1) * (v1 - i - 1 - v1) - (v1 - i - v1) * (u0 - u1) == u1 - u0) by (nonlinear_arith);
    }
    assert forall|i: int| 0 <= i < bw implies twice_area(#[trigger] ct[i]) == 0 by {
        assert(ct[i] == ((u0, v0), (u0 + 1 + i, v0), (u0 + 2 + i, v0)));
        assert((u0 + 1 + i - u0) * (v0 - v0) - (v0 - v0) * (u0 + 2 + i - u0) == 0) by (nonlinear_arith);
    }
    assert forall|i: int| 0 <= i < bw implies twice_area(#[trigger] ct[bw + h + i]) == 0 by {
        assert(ct[bw + h + i] == ((u1, v1), (u1 - 1 - i, v1), (u1 - 2 - i, v1)));
        assert((u1 - 1 - i - u1) * (v1 - v1) - (v1 - v1) * (u1 - 2 - i - u1) == 0) by (nonlinear_arith);
    }
}

/// The coarse cells along an axis of `n` units partition it: the first
/// starts at 0, each ends where the next starts and is not empty, and the
/// last ends at `n`. With [`lemma_cell_fans_tile`], the strip's triangles
/// ([`face_triangles`]) leave no gap on the face.
pub proof fn lemma_cells_partition(n: nat, s: nat)
    requires
        s >= 1,
    ensures
        cell_lo(n, s, 0) == 0,
        cell_lo(n, s, cell_count(n, s)) == n,
        forall|c: nat| c < cell_count(n, s) ==> #[trigger] cell_lo(n, s, c) < cell_lo(n, s, c + 1),
{
    lemma_cell_count(n, s);
    let k = cell_count(n, s);
    assert forall|c: nat| c < k implies #[trigger] cell_lo(n, s, c) < cell_lo(n, s, c + 1) by {
        assert(c * s < n) by (nonlinear_arith)
            requires c < k, c <= k - 1, (k - 1) * s < n, n > 0 || k == 0, s >= 1;
        assert((c + 1) * s == c * s + s) by (nonlinear_arith);
    }
}

/// No triangle of a cell turns clockwise.
proof fn lemma_cell_ccw(u0: int, v0: int, u1: int, v1: int)
    requires
        u0 < u1,
        v0 < v1,
    ensures
        forall|t: int| 0 <= t < cell_triangles(u0, v0, u1, v1).len() ==> twice_area(
            #[trigger] cell_triangles(u0, v0, u1, v1)[t],
        ) >= 0,
{
    lemma_cell_fans_tile(u0, v0, u1, v1);
    let ct = cell_triangles(u0, v0, u1, v1);
    let bw = u1 - u0 - 1;
    let h = v1 - v0;
    assert forall|t: int| 0 <= t < ct.len() implies twice_area(#[trigger] ct[t]) >= 0 by {
        if t < bw {
            assert(twice_area(ct[t]) == 0);
        } else if t < bw + h {
            assert(twice_area(ct[bw + (t - bw)]) == u1 - u0);
        } else if t < 2 * bw + h {
            assert(twice_area(ct[bw + h + (t - bw - h)]) == 0);
        } else {
            assert(twice_area(ct[2 * bw + h + (t - 2 * bw - h)]) == u1 - u0);
        }
    }
}

/// No triangle of the first `cv` cells of a column turns clockwise.
proof fn lemma_column_ccw(n: nat, s: nat, u0: int, u1: int, cv: nat)
    requires
        s >= 1,
        u0 < u1,
        cv <= cell_count(n, s),
    ensures
        forall|t: int| 0 <= t < column_triangles(n, s, u0, u1, cv).len() ==> twice_area(
            #[trigger] column_triangles(n, s, u0, u1, cv)[t],
        ) >= 0,
    decreases cv,
{
    if cv > 0 {
        let c = (cv - 1) as nat;
        lemma_column_ccw(n, s, u0, u1, c);
        lemma_cells_partition(n, s);
        assert(cell_lo(n, s, c) < cell_lo(n, s, c + 1));
        lemma_cell_ccw(u0, cell_lo(n, s, c), u1, cell_lo(n, s, cv));
        let a = column_triangles(n, s, u0, u1, c);
        let b = cell_triangles(u0, cell_lo(n, s, c), u1, cell_lo(n, s, cv));
        assert forall|t: int| 0 <= t < (a + b).len() implies twice_area(#[trigger] (a + b)[t]) >= 0 by {
            if t < a.len() {
                assert((a + b)[t] == a[t]);
            } else {
                assert((a + b)[t] == b[t - a.len()]);
            }
        }
    }
}

/// Every triangle of a transition strip ([`face_triangles`]) turns
/// counter-clockwise in the face's `(u, v)` plane, or has no area (the
/// triangles along the cell edges).
pub proof fn lemma_face_triangles_ccw(n: nat, s: nat, cu: nat)
    requires
        s >= 1,
        cu <= cell_count(n, s),
    ensures
        forall|t: int| 0 <= t < face_triangles(n, s, cu).len() ==> twice_area(#[trigger] face_triangles(n, s, cu)[t]) >= 0,
    decreases cu,
{
    if cu > 0 {
        let c = (cu - 1) as nat;
        lemma_face_triangles_ccw(n, s, c);
        lemma_cells_partition(n, s);
        assert(cell_lo(n, s, c) < cell_lo(n, s, c + 1));
        lemma_column_ccw(n, s, cell_lo(n, s, c), cell_lo(n, s, cu), cell_count(n, s));
        let a = face_triangles(n, s, c);
        let b = column_triangles(n, s, cell_lo(n, s, c), cell_lo(n, s, cu), cell_count(n, s));
        assert forall|t: int| 0 <= t < (a + b).len() implies twice_area(#[trigger] (a + b)[t]) >= 0 by {
            if t < a.len() {
                assert((a + b)[t] == a[t]);
            } else {
                assert((a + b)[t] == b[t - a.len()]);
            }
        }
    }
}

/// Appending one triangle of three vertices appends its face points.
proof fn lemma_strip_triangles_push(vs: Seq<ChunkVertex>, a: ChunkVertex, b: ChunkVertex, c: ChunkVertex, d: FaceDirection)
    requires
        vs.len() % 3 == 0,
    ensures
        strip_triangles(vs.push(a).push(b).push(c), d) == strip_triangles(vs, d).push(
            (face_point(a, d), face_point(b, d), face_point(c, d)),
        ),
{
    let ws = vs.push(a).push(b).push(c);
    let n = vs.len() as int;
    assert(ws.len() / 3 == n / 3 + 1);
    assert forall|t: int| 0 <= t < ws.len() / 3 implies #[trigger] strip_triangles(ws, d)[t] == strip_triangles(vs, d).push(
        (face_point(a, d), face_point(b, d), face_point(c, d)),
    )[t] by {
        if t < n / 3 {
            assert(ws[3 * t] == vs[3 * t] && ws[3 * t + 1] == vs[3 * t + 1] && ws[3 * t + 2] == vs[3 * t + 2]);
        } else {
            assert(3 * t == n);
        }
    }
    assert(strip_triangles(ws, d) =~= strip_triangles(vs, d).push((face_point(a, d), face_point(b, d), face_point(c, d))));
}

/// Number of cells of width `step` covering `n` units: `ceil(n / step)`.
pub open spec fn cell_count(n: nat, step: nat) -> nat {
    ((n + step - 1) / step as int) as nat
}

/// Number of triangles in a transition strip over a face of `n × n`
/// units split into `k × k` cells: each cell of size `w × h` contributes
/// `2 (w + h - 1)` triangles, `2k(2n - k)` in total.
pub open spec fn strip_triangle_count(n: nat, k: nat) -> int {
    2 * k * (2 * n - k)
}

/// The position with `boundary` on the layer axis and `(u, v)` on the
/// tangential axes.
fn make_pos(layer_axis: usize, u_axis: usize, v_axis: usize, boundary: u8, u: u64, v: u64) -> (p: [u8; 3])
    requires
        (layer_axis, u_axis, v_axis) == (0usize, 2usize, 1usize) || (layer_axis, u_axis, v_axis) == (1usize, 0usize, 2usize)
            || (layer_axis, u_axis, v_axis) == (2usize, 0usize, 1usize),
        u <= 255,
        v <= 255,
    ensures
        p@[layer_axis as int] == boundary,
        p@[u_axis as int] == u,
        p@[v_axis as int] == v,
{
    let mut pos = [0u8; 3];
    pos[layer_axis] = boundary;
    pos[u_axis] = u as u8;
    pos[v_axis] = v as u8;
    pos
}

/// A strip vertex at `pos` for face `direction`.
fn strip_vertex(pos: [u8; 3], direction: FaceDirection, Ghost(chunk_size): Ghost<usize>) -> (v: ChunkVertex)
    requires
        pos@[sweep_axes_spec(direction).0 as int] == boundary_coord(direction, chunk_size),
        pos@[sweep_axes_spec(direction).1 as int] <= chunk_size,
        pos@[sweep_axes_spec(direction).2 as int] <= chunk_size,
        chunk_size <= 32,
    ensures
        strip_vertex_ok(v, direction, chunk_size),
        v.position@ == pos@,
{
    let ghost (l, u, w) = sweep_axes_spec(direction);
    assert(pos@[0] <= 32 && pos@[1] <= 32 && pos@[2] <= 32);
    let v = ChunkVertex::new(pos, direction, 0, 0, [0, 0]);
    assert(v.uv@ =~= seq![0u8, 0u8]);
    v
}

/// Appends one triangle of three fresh vertices to a strip.
fn push_triangle(strip: &mut PackedChunkMesh, a: ChunkVertex, b: ChunkVertex, c: ChunkVertex, Ghost(d): Ghost<FaceDirection>, Ghost(chunk_size): Ghost<usize>)
    requires
        strip_ok(old(strip).vertices@, old(strip).indices@, d, chunk_size),
        old(strip).vertices@.len() + 3 <= u32::MAX,
        strip_vertex_ok(a, d, chunk_size),
        strip_vertex_ok(b, d, chunk_size),
        strip_vertex_ok(c, d, chunk_size),
        a.position@ != b.position@,
        b.position@ != c.position@,
        a.position@ != c.position@,
    ensures
        strip_ok(final(strip).vertices@, final(strip).indices@, d, chunk_size),
        final(strip).vertices@ == old(strip).vertices@.push(a).push(b).push(c),
{
    let base = strip.vertices.len() as u32;
    strip.vertices.push(a);
    strip.vertices.push(b);
    strip.vertices.push(c);
    strip.indices.push(base);
    strip.indices.push(base + 1);
    strip.indices.push(base + 2);
    proof {
        let vs = strip.vertices@;
        let n = old(strip).vertices@.len();
        assert(vs.len() / 3 == n / 3 + 1);
        assert forall|t: int| 0 <= t < vs.len() / 3 implies #[trigger] triangle_nondegenerate(vs, t) by {
            if t < n / 3 {
                assert(triangle_nondegenerate(old(strip).vertices@, t));
                assert(vs[3 * t] == old(strip).vertices@[3 * t]);
                assert(vs[3 * t + 1] == old(strip).vertices@[3 * t + 1]);
                assert(vs[3 * t + 2] == old(strip).vertices@[3 * t + 2]);
            } else {
                assert(3 * t == n);
            }
        }
    }
}

/// Generate a transition mesh strip along a LOD boundary.
///
/// The boundary face of `chunk_size × chunk_size` units is split into cells
/// of the coarser grid (step `2^(neighbor_lod - center_lod)`); each cell is
/// bridged by triangle fans from its two diagonal corners to every
/// high-LOD vertex on its edges. Nothing is emitted unless the neighbor is
/// coarser (`neighbor_lod > center_lod`).
///
/// The triangles are exactly [`face_triangles`]: cell by cell, columns
/// along `u` and cells along `v`, each cell's [`cell_triangles`], whose
/// right and left fans turn counter-clockwise and tile the cell
/// ([`lemma_cell_fans_tile`]); the cells partition the face
/// ([`lemma_cells_partition`]), and no triangle turns clockwise
/// ([`lemma_face_triangles_ccw`]).
#[verifier::rlimit(60)]
pub fn generate_transition_strip(
    direction: FaceDirection,
    center_lod: u8,
    neighbor_lod: u8,
    chunk_size: usize,
) -> (strip: PackedChunkMesh)
    requires
        chunk_size <= 32,
        neighbor_lod > center_lod ==> neighbor_lod - center_lod < 64,
    ensures
        neighbor_lod <= center_lod ==> strip.vertices@.len() == 0 && strip.indices@.len() == 0,
        strip_ok(strip.vertices@, strip.indices@, direction, chunk_size),
        neighbor_lod > center_lod ==> strip.vertices@.len() / 3 == strip_triangle_count(
            chunk_size as nat,
            cell_count(chunk_size as nat, pow2((neighbor_lod - center_lod) as nat)),
        ),
        neighbor_lod > center_lod ==> strip_triangles(strip.vertices@, direction) == face_triangles(
            chunk_size as nat,
            pow2((neighbor_lod - center_lod) as nat),
            cell_count(chunk_size as nat, pow2((neighbor_lod - center_lod) as nat)),
        ),
{
    let mut strip = PackedChunkMesh::new();
    if neighbor_lod <= center_lod {
        return strip;
    }
    let lod_diff = neighbor_lod - center_lod;
    let low_step: u64 = 1u64 << (lod_diff as u64);
    proof {
        lemma_shl_pow2_u64(lod_diff);
    }
    let (layer_axis, u_axis, v_axis) = direction.sweep_axes();
    let boundary: u8 = match direction {
        FaceDirection::PosX | FaceDirection::PosY | FaceDirection::PosZ => chunk_size as u8,
        FaceDirection::NegX | FaceDirection::NegY | FaceDirection::NegZ => 0,
    };
    let n = chunk_size as u64;
    let ghost s = low_step as nat;
    let ghost k = cell_count(n as nat, s);
    let ghost d = direction;
    proof {
        lemma_cell_count(n as nat, s);
    }
    let mut low_u: u64 = 0;
    let ghost mut cu: nat = 0;
    while low_u < n
        invariant
            n == chunk_size, n <= 32, d == direction,
            1 <= low_step <= 0x8000_0000_0000_0000, low_step as nat == s,
            k <= n,
            k == cell_count(n as nat, s),
            n > 0 ==> k >= 1,
            k * s >= n,
            n > 0 ==> (k - 1) * s < n,
            (layer_axis, u_axis, v_axis) == sweep_axes_spec(direction),
            boundary == boundary_coord(direction, chunk_size),
            low_u <= n,
            low_u == (if cu * s <= n { cu * s } else { n as nat }),
            cu > 0 ==> (cu - 1) * s < n,
            cu <= k,
            strip_ok(strip.vertices@, strip.indices@, d, chunk_size),
            strip.vertices@.len() / 3 == 2 * (k * low_u + cu * n - cu * k),
            strip.vertices@.len() <= 3 * 2 * (k * low_u + cu * n),
            strip_triangles(strip.vertices@, d) == face_triangles(n as nat, s, cu),
        decreases n - low_u,
    {
        let next_low_u = if low_u + low_step <= n { low_u + low_step } else { n };
        let w = next_low_u - low_u;
        proof {
            lemma_cells_step(cu, s, n as nat, low_u as nat);
        }
        let mut low_v: u64 = 0;
        let ghost mut cv: nat = 0;
        let ghost row_start = strip.vertices@.len() / 3;
        let ghost col_base = strip_triangles(strip.vertices@, d);
        proof {
            assert(low_u == cell_lo(n as nat, s, cu));
            assert(next_low_u == cell_lo(n as nat, s, cu + 1));
            assert(col_base + column_triangles(n as nat, s, low_u as int, next_low_u as int, 0) =~= col_base);
        }
        while low_v < n
            invariant
                n == chunk_size, n <= 32, d == direction,
                1 <= low_step <= 0x8000_0000_0000_0000, low_step as nat == s,
            k <= n,
                k == cell_count(n as nat, s),
                k * s >= n,
                n > 0 ==> (k - 1) * s < n,
                (layer_axis, u_axis, v_axis) == sweep_axes_spec(direction),
                boundary == boundary_coord(direction, chunk_size),
                low_u < next_low_u <= n,
                cu <= k,
                w == next_low_u - low_u,
                low_v <= n,
                low_v == (if cv * s <= n { cv * s } else { n as nat }),
                cv > 0 ==> (cv - 1) * s < n,
                cv <= k,
                strip_ok(strip.vertices@, strip.indices@, d, chunk_size),
                strip.vertices@.len() / 3 == row_start + 2 * (cv * w + low_v - cv),
                row_start <= 2 * (k * low_u + cu * n),
                col_base == face_triangles(n as nat, s, cu),
                low_u == cell_lo(n as nat, s, cu),
                next_low_u == cell_lo(n as nat, s, cu + 1),
                strip_triangles(strip.vertices@, d) == col_base + column_triangles(n as nat, s, low_u as int, next_low_u as int, cv),
            decreases n - low_v,
        {
            let next_low_v = if low_v + low_step <= n { low_v + low_step } else { n };
            let h = next_low_v - low_v;
            proof {
                lemma_cells_step(cv, s, n as nat, low_v as nat);
            }
            let ghost cell_start = strip.vertices@.len() / 3;
            let ghost cell_base = strip_triangles(strip.vertices@, d);
            let ghost ct = cell_triangles(low_u as int, low_v as int, next_low_u as int, next_low_v as int);
            proof {
                assert(cell_base + ct.take(0) =~= cell_base);
            }
            proof {
                lemma_strip_bound(k, low_u as nat, cu, n as nat, cv, w as nat, low_v as nat);
            }
            let anchor_pos = make_pos(layer_axis, u_axis, v_axis, boundary, low_u, low_v);
            let anchor = strip_vertex(anchor_pos, direction, Ghost(chunk_size));
            // Bottom edge: u from low_u to next_low_u along v = low_v.
            let mut high_u = low_u + 1;
            while high_u < next_low_u
                invariant
                    n == chunk_size, n <= 32, d == direction,
                    (layer_axis, u_axis, v_axis) == sweep_axes_spec(direction),
                    boundary == boundary_coord(direction, chunk_size),
                    low_u < high_u <= next_low_u <= n,
                    low_v < next_low_v <= n,
                    anchor.position@[layer_axis as int] == boundary,
                    anchor.position@[u_axis as int] == low_u,
                    anchor.position@[v_axis as int] == low_v,
                    strip_vertex_ok(anchor, d, chunk_size),
                    strip_ok(strip.vertices@, strip.indices@, d, chunk_size),
                    strip.vertices@.len() / 3 == cell_start + (high_u - low_u - 1),
                    cell_start <= 6208,
                    ct == cell_triangles(low_u as int, low_v as int, next_low_u as int, next_low_v as int),
                    strip_triangles(strip.vertices@, d) == cell_base + ct.take(high_u - low_u - 1),
                decreases next_low_u - high_u,
            {
                let v0 = strip_vertex(make_pos(layer_axis, u_axis, v_axis, boundary, high_u, low_v), direction, Ghost(chunk_size));
                let v1 = strip_vertex(make_pos(layer_axis, u_axis, v_axis, boundary, high_u + 1, low_v), direction, Ghost(chunk_size));
                let ghost before = strip.vertices@;
                push_triangle(&mut strip, anchor, v0, v1, Ghost(d), Ghost(chunk_size));
                proof {
                    let j = high_u - low_u - 1;
                    let tri = (face_point(anchor, d), face_point(v0, d), face_point(v1, d));
                    lemma_strip_triangles_push(before, anchor, v0, v1, d);
                    assert(tri == ((low_u as int, low_v as int), (high_u as int, low_v as int), (high_u + 1, low_v as int)));
                    assert(ct[j] == tri);
                    assert(ct.take(j + 1) =~= ct.take(j).push(tri));
                    assert((cell_base + ct.take(j)).push(tri) =~= cell_base + ct.take(j + 1));
                }
                high_u = high_u + 1;
            }
            // Right edge: v from low_v to next_low_v along u = next_low_u.
            let mut high_v = low_v;
            while high_v < next_low_v
                invariant
                    n == chunk_size, n <= 32, d == direction,
                    (layer_axis, u_axis, v_axis) == sweep_axes_spec(direction),
                    boundary == boundary_coord(direction, chunk_size),
                    low_u < next_low_u <= n,
                    low_v <= high_v <= next_low_v <= n,
                    anchor.position@[u_axis as int] == low_u,
                    anchor.position@[v_axis as int] == low_v,
                    strip_vertex_ok(anchor, d, chunk_size),
                    strip_ok(strip.vertices@, strip.indices@, d, chunk_size),
                    strip.vertices@.len() / 3 == cell_start + (next_low_u - low_u - 1) + (high_v - low_v),
                    cell_start <= 6208,
                    ct == cell_triangles(low_u as int, low_v as int, next_low_u as int, next_low_v as int),
                    strip_triangles(strip.vertices@, d) == cell_base + ct.take((next_low_u - low_u - 1) + (high_v - low_v)),
                decreases next_low_v - high_v,
            {
                let v0 = strip_vertex(make_pos(layer_axis, u_axis, v_axis, boundary, next_low_u, high_v), direction, Ghost(chunk_size));
                let v1 = strip_vertex(make_pos(layer_axis, u_axis, v_axis, boundary, next_low_u, high_v + 1), direction, Ghost(chunk_size));
                let ghost before = strip.vertices@;
                push_triangle(&mut strip, anchor, v0, v1, Ghost(d), Ghost(chunk_size));
                proof {
                    let j = (next_low_u - low_u - 1) + (high_v - low_v);
                    let tri = (face_point(anchor, d), face_point(v0, d), face_point(v1, d));
                    lemma_strip_triangles_push(before, anchor, v0, v1, d);
                    assert(tri == ((low_u as int, low_v as int), (next_low_u as int, high_v as int), (next_low_u as int, high_v + 1)));
                    assert(ct[j] == tri);
                    assert(ct.take(j + 1) =~= ct.take(j).push(tri));
                    assert((cell_base + ct.take(j)).push(tri) =~= cell_base + ct.take(j + 1));
                }
                high_v = high_v + 1;
            }
            // Top edge: u from next_low_u back to low_u along v = next_low_v.
            let top_anchor_pos = make_pos(layer_axis, u_axis, v_axis, boundary, next_low_u, next_low_v);
            let top_anchor = strip_vertex(top_anchor_pos, direction, Ghost(chunk_size));
            let mut hu = next_low_u - 1;
            while hu > low_u
                invariant
                    n == chunk_size, n <= 32, d == direction,
                    (layer_axis, u_axis, v_axis) == sweep_axes_spec(direction),
                    boundary == boundary_coord(direction, chunk_size),
                    low_u <= hu < next_low_u <= n,
                    low_v < next_low_v <= n,
                    top_anchor.position@[u_axis as int] == next_low_u,
                    top_anchor.position@[v_axis as int] == next_low_v,
                    strip_vertex_ok(top_anchor, d, chunk_size),
                    strip_ok(strip.vertices@, strip.indices@, d, chunk_size),
                    strip.vertices@.len() / 3 == cell_start + (next_low_u - low_u - 1) + (next_low_v - low_v) + (next_low_u - 1 - hu),
                    cell_start <= 6208,
                    ct == cell_triangles(low_u as int, low_v as int, next_low_u as int, next_low_v as int),
                    strip_triangles(strip.vertices@, d) == cell_base + ct.take((next_low_u - low_u - 1) + (next_low_v - low_v) + (next_low_u - 1 - hu)),
                decreases hu,
            {
                let v0 = strip_vertex(make_pos(layer_axis, u_axis, v_axis, boundary, hu, next_low_v), direction, Ghost(chunk_size));
                let v1 = strip_vertex(make_pos(layer_axis, u_axis, v_axis, boundary, hu - 1, next_low_v), direction, Ghost(chunk_size));
                let ghost before = strip.vertices@;
                push_triangle(&mut strip, top_anchor, v0, v1, Ghost(d), Ghost(chunk_size));
                proof {
                    let j = (next_low_u - low_u - 1) + (next_low_v - low_v) + (next_low_u - 1 - hu);
                    let tri = (face_point(top_anchor, d), face_point(v0, d), face_point(v1, d));
                    lemma_strip_triangles_push(before, top_anchor, v0, v1, d);
                    assert(tri == ((next_low_u as int, next_low_v as int), (hu as int, next_low_v as int), (hu - 1, next_low_v as int)));
                    assert(ct[j] == tri);
                    assert(ct.take(j + 1) =~= ct.take(j).push(tri));
                    assert((cell_base + ct.take(j)).push(tri) =~= cell_base + ct.take(j + 1));
                }
                hu = hu - 1;
            }
            // Left edge: v from next_low_v back to low_v along u = low_u.
            let mut hv = next_low_v;
            while hv > low_v
                invariant
                    n == chunk_size, n <= 32, d == direction,
                    (layer_axis, u_axis, v_axis) == sweep_axes_spec(direction),
                    boundary == boundary_coord(direction, chunk_size),
                    low_u < next_low_u <= n,
                    low_v <= hv <= next_low_v <= n,
                    top_anchor.position@[u_axis as int] == next_low_u,
                    top_anchor.position@[v_axis as int] == next_low_v,
                    strip_vertex_ok(top_anchor, d, chunk_size),
                    strip_ok(strip.vertices@, strip.indices@, d, chunk_size),
                    strip.vertices@.len() / 3 == cell_start + 2 * (next_low_u - low_u - 1) + (next_low_v - low_v) + (next_low_v - hv),
                    cell_start <= 6208,
                    ct == cell_triangles(low_u as int, low_v as int, next_low_u as int, next_low_v as int),
                    strip_triangles(strip.vertices@, d) == cell_base + ct.take(2 * (next_low_u - low_u - 1) + (next_low_v - low_v) + (next_low_v - hv)),
                decreases hv,
            {
                let v0 = strip_vertex(make_pos(layer_axis, u_axis, v_axis, boundary, low_u, hv), direction, Ghost(chunk_size));
                let v1 = strip_vertex(make_pos(layer_axis, u_axis, v_axis, boundary, low_u, hv - 1), direction, Ghost(chunk_size));
                let ghost before = strip.vertices@;
                push_triangle(&mut strip, top_anchor, v0, v1, Ghost(d), Ghost(chunk_size));
                proof {
                    let j = 2 * (next_low_u - low_u - 1) + (next_low_v - low_v) + (next_low_v - hv);
                    let tri = (face_point(top_anchor, d), face_point(v0, d), face_point(v1, d));
                    lemma_strip_triangles_push(before, top_anchor, v0, v1, d);
                    assert(tri == ((next_low_u as int, next_low_v as int), (low_u as int, hv as int), (low_u as int, hv - 1)));
                    assert(ct[j] == tri);
                    assert(ct.take(j + 1) =~= ct.take(j).push(tri));
                    assert((cell_base + ct.take(j)).push(tri) =~= cell_base + ct.take(j + 1));
                }
                hv = hv - 1;
            }
            proof {
                assert(ct.take(ct.len() as int) =~= ct);
                assert(low_v == cell_lo(n as nat, s, cv));
                assert(next_low_v == cell_lo(n as nat, s, cv + 1));
                assert(column_triangles(n as nat, s, low_u as int, next_low_u as int, cv + 1) == column_triangles(
                    n as nat,
                    s,
                    low_u as int,
                    next_low_u as int,
                    cv,
                ) + ct);
                assert(cell_base + ct =~= col_base + column_triangles(n as nat, s, low_u as int, next_low_u as int, cv + 1));
                assert((cv + 1) * w == cv * w + w) by (nonlinear_arith);
                cv = cv + 1;
            }
            low_v = next_low_v;
        }
        proof {
            lemma_cells_done(cv, s, n as nat);
            assert(face_triangles(n as nat, s, cu + 1) == face_triangles(n as nat, s, cu) + column_triangles(
                n as nat,
                s,
                low_u as int,
                next_low_u as int,
                k,
            ));
            assert(k * (low_u + w) == k * low_u + k * w) by (nonlinear_arith);
            assert((cu + 1) * n == cu * n + n) by (nonlinear_arith);
            assert((cu + 1) * k == cu * k + k) by (nonlinear_arith);
            cu = cu + 1;
        }
        low_u = next_low_u;
    }
    proof {
        lemma_cells_done(cu, s, n as nat);
        assert(2 * (k * n + k * n - k * k) == 2 * k * (2 * n - k)) by (nonlinear_arith);
    }
    strip
}

/// `1 << k` is `2^k` for shifts below 64.
proof fn lemma_shl_pow2_u64(k: u8)
    requires
        k < 64,
    ensures
        (1u64 << (k as u64)) == pow2(k as nat),
        1 <= pow2(k as nat) <= 0x8000_0000_0000_0000,
    decreases k,
{
    if k == 0 {
        assert((1u64 << 0u64) == 1) by (bit_vector);
    } else {
        lemma_shl_pow2_u64((k - 1) as u8);
        let kk = k as u64;
        assert((1u64 << kk) == 2 * (1u64 << ((kk - 1) as u64))) by (bit_vector)
            requires 0 < kk < 64;
        assert((1u64 << kk) <= 0x8000_0000_0000_0000) by (bit_vector)
            requires kk < 64;
    }
}

/// Basic facts about `cell_count`.
proof fn lemma_cell_count(n: nat, s: nat)
    requires
        s >= 1,
    ensures
        cell_count(n, s) * s >= n,
        n > 0 ==> cell_count(n, s) >= 1,
        n > 0 ==> (cell_count(n, s) - 1) * s < n,
        cell_count(n, s) <= n,
{
    let k = cell_count(n, s);
    assert(k * s >= n && (n > 0 ==> k >= 1) && (n > 0 ==> (k - 1) * s < n) && k <= n) by (nonlinear_arith)
        requires s >= 1, k == ((n + s - 1) / s as int) as nat, n >= 0;
}

/// One more cell: the next lower edge is `min((c + 1) s, n)` and fewer than
/// `cell_count` cells were done.
proof fn lemma_cells_step(c: nat, s: nat, n: nat, low: nat)
    requires
        s >= 1,
        low == (if c * s <= n { c * s } else { n }),
        low < n,
    ensures
        (if low + s <= n { low + s } else { n }) == (if (c + 1) * s <= n { (c + 1) * s } else { n }),
        c < cell_count(n, s),
        c * s < n,
{
    lemma_cell_count(n, s);
    assert((c + 1) * s == c * s + s) by (nonlinear_arith);
    let k = cell_count(n, s);
    assert(c < k) by (nonlinear_arith)
        requires c * s < n, k * s >= n, s >= 1;
}

/// When the covered length reaches `n`, exactly `cell_count` cells were done.
proof fn lemma_cells_done(c: nat, s: nat, n: nat)
    requires
        s >= 1,
        n <= (if c * s <= n { c * s } else { n }),
        c > 0 ==> (c - 1) * s < n,
    ensures
        c == cell_count(n, s),
{
    lemma_cell_count(n, s);
    let k = cell_count(n, s);
    if n == 0 {
        assert(c == 0) by (nonlinear_arith)
            requires c > 0 ==> (c - 1) * s < n, n == 0, s >= 1;
        assert(k == 0);
    } else {
        assert(c * s >= n);
        assert(c == k) by (nonlinear_arith)
            requires c * s >= n, c > 0 ==> (c - 1) * s < n, k * s >= n, (k - 1) * s < n, k >= 1, s >= 1, n > 0;
    }
}

/// A bound on the triangles emitted before a cell, for faces of at most 32.
proof fn lemma_strip_bound(k: nat, low_u: nat, cu: nat, n: nat, cv: nat, w: nat, low_v: nat)
    requires
        k <= 32, low_u <= 32, cu <= 32, n <= 32, cv <= 32, w <= 32, low_v <= 32,
    ensures
        2 * (k * low_u + cu * n) + 2 * (cv * w + low_v) <= 6208,
{
    assert(k * low_u <= 1024 && cu * n <= 1024 && cv * w <= 1024) by (nonlinear_arith)
        requires k <= 32, low_u <= 32, cu <= 32, n <= 32, cv <= 32, w <= 32;
}

} // verus!
