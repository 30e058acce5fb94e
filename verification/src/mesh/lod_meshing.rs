//! LOD-aware greedy meshing: meshes a reduced-resolution chunk on its own
//! grid, then scales the vertex positions so the mesh covers the chunk's
//! full extent.

use vstd::prelude::*;
use crate::mesh::chunk_mesh::{ChunkMesh, MeshVertex, QuadInfo};
use crate::mesh::face_direction::{FaceDirection, face_index, face_from_index, face_offset, sweep_axes_spec};
use crate::mesh::greedy::{
    QuadRect, cell, covered, layer_quads_ok, greedy_scan, mesh_extends, layer_xyz, merge_layer, lemma_mesh_extends_concat,
    axes_to_xyz,
};
use crate::mesh::neighborhood::ChunkNeighborhood;
use crate::mesh::transition_seams::ChunkLodContext;
use crate::mesh::visibility::{face_shown, lemma_zero_bits};
use crate::mesh::visible_faces::{VisibleFaces, bit_set};
use crate::voxel::lod_chunk::{LodChunkData, lod_index, lod_coords, lemma_lod_index, lemma_lod_coords};
use crate::voxel::registry::{VoxelTypeRegistry, VoxelTypeDef, Transparency, TypeTraits, is_air_spec, air_traits};
use crate::voxel::types::VoxelTypeId;

verus! {

/// The voxel next to `(x, y, z)` in direction `d` in a grid of side `res`;
/// outside the grid it is air.
pub open spec fn lod_neighbor(c: Seq<VoxelTypeId>, res: int, x: int, y: int, z: int, d: FaceDirection) -> VoxelTypeId {
    let (dx, dy, dz) = face_offset(d);
    let (nx, ny, nz) = (x + dx, y + dy, z + dz);
    if 0 <= nx < res && 0 <= ny < res && 0 <= nz < res {
        c[lod_index(res, nx, ny, nz)]
    } else {
        VoxelTypeId(0)
    }
}

/// Whether the face in direction `d` of voxel `(x, y, z)` of an LOD grid is
/// visible: the voxel is not air and the face is shown
/// ([`face_shown`]) toward its neighbor.
pub open spec fn lod_face_visible(types: Seq<TypeTraits>, c: Seq<VoxelTypeId>, res: int, x: int, y: int, z: int, d: FaceDirection) -> bool {
    let v = c[lod_index(res, x, y, z)];
    !is_air_spec(v) && face_shown(types, v, lod_neighbor(c, res, x, y, z, d))
}

/// Whether `m` is the exact visibility mask of voxel `(x, y, z)` of an LOD
/// grid: bit `j` is set exactly when it names a visible face.
pub open spec fn lod_mask_exact(types: Seq<TypeTraits>, c: Seq<VoxelTypeId>, res: int, x: int, y: int, z: int, m: VisibleFaces) -> bool {
    forall|j: nat| j < 8 ==> #[trigger] bit_set(m.0, j) == (j < 6 && lod_face_visible(types, c, res, x, y, z, face_from_index(j)))
}

/// Whether the face of the non-air voxel at `(x, y, z)` in direction `dir`
/// is shown.
fn lod_face_is_shown(
    chunk: &LodChunkData,
    registry: &VoxelTypeRegistry,
    res: u32,
    x: u32,
    y: u32,
    z: u32,
    voxel: VoxelTypeId,
    dir: FaceDirection,
) -> (r: bool)
    requires
        res == chunk.res(),
        x < res,
        y < res,
        z < res,
        voxel == chunk.voxels()[lod_index(res as int, x as int, y as int, z as int)],
    ensures
        r == face_shown(registry@, voxel, lod_neighbor(chunk.voxels(), res as int, x as int, y as int, z as int, dir)),
{
    let (nx, ny, nz) = dir.offset(x as i32, y as i32, z as i32);
    let r = res as i32;
    let nb = if nx >= 0 && nx < r && ny >= 0 && ny < r && nz >= 0 && nz < r {
        chunk.get(nx as u32, ny as u32, nz as u32)
    } else {
        VoxelTypeId(0)
    };
    if registry.is_air(nb) {
        true
    } else if registry.is_transparent(voxel) {
        nb != voxel
    } else {
        registry.is_transparent(nb)
    }
}

/// The visibility mask of voxel `(x, y, z)` of an LOD chunk.
fn lod_voxel_mask(chunk: &LodChunkData, registry: &VoxelTypeRegistry, res: u32, x: u32, y: u32, z: u32) -> (r: VisibleFaces)
    requires
        res == chunk.res(),
        x < res,
        y < res,
        z < res,
    ensures
        lod_mask_exact(registry@, chunk.voxels(), res as int, x as int, y as int, z as int, r),
{
    proof {
        lemma_zero_bits();
    }
    let voxel = chunk.get(x, y, z);
    let mut faces = VisibleFaces(0);
    if registry.is_air(voxel) {
        return faces;
    }
    let mut k: usize = 0;
    while k < 6
        invariant
            k <= 6,
            res == chunk.res(),
            x < res,
            y < res,
            z < res,
            voxel == chunk.voxels()[lod_index(res as int, x as int, y as int, z as int)],
            !is_air_spec(voxel),
            forall|j: nat| j < 8 ==> #[trigger] bit_set(faces.0, j) == (j < k && lod_face_visible(
                registry@,
                chunk.voxels(),
                res as int,
                x as int,
                y as int,
                z as int,
                face_from_index(j),
            )),
        decreases 6 - k,
    {
        let dir = FaceDirection::ALL[k];
        assert(face_from_index(k as nat) == dir);
        let shown = lod_face_is_shown(chunk, registry, res, x, y, z, voxel, dir);
        let ghost before = faces;
        if shown {
            faces.set_visible(dir);
        }
        assert forall|j: nat| j < 8 implies #[trigger] bit_set(faces.0, j) == (j < k + 1 && lod_face_visible(
            registry@,
            chunk.voxels(),
            res as int,
            x as int,
            y as int,
            z as int,
            face_from_index(j),
        )) by {
            assert(bit_set(before.0, j) == (j < k && lod_face_visible(
                registry@,
                chunk.voxels(),
                res as int,
                x as int,
                y as int,
                z as int,
                face_from_index(j),
            )));
        }
        k = k + 1;
    }
    faces
}

/// Computes the per-voxel visible-face bitmasks of an LOD chunk, on its own
/// grid: faces at the grid's edge look at air.
pub fn compute_visible_faces_lod(chunk: &LodChunkData, registry: &VoxelTypeRegistry) -> (r: Vec<VisibleFaces>)
    ensures
        r@.len() == chunk.res() * chunk.res() * chunk.res(),
        forall|i: int|
            0 <= i < r@.len() ==> lod_mask_exact(
                registry@,
                chunk.voxels(),
                chunk.res(),
                lod_coords(chunk.res(), i).0,
                lod_coords(chunk.res(), i).1,
                lod_coords(chunk.res(), i).2,
                #[trigger] r@[i],
            ),
{
    let res = chunk.resolution();
    proof {
        assert(res * res <= 1024 && res * res * res <= 32768) by (nonlinear_arith)
            requires 1 <= res <= 32;
    }
    let total = res * res * res;
    let mut result: Vec<VisibleFaces> = Vec::new();
    let mut i: u32 = 0;
    while i < total
        invariant
            1 <= res <= 32,
            res * res <= 1024,
            res == chunk.res(),
            total == res * res * res,
            i <= total,
            result@.len() == i,
            forall|j: int|
                0 <= j < i ==> lod_mask_exact(
                    registry@,
                    chunk.voxels(),
                    res as int,
                    lod_coords(res as int, j).0,
                    lod_coords(res as int, j).1,
                    lod_coords(res as int, j).2,
                    #[trigger] result@[j],
                ),
        decreases total - i,
    {
        proof {
            lemma_lod_coords(res as int, i as int);
        }
        let x = i % res;
        let y = (i / res) % res;
        let z = i / (res * res);
        let m = lod_voxel_mask(chunk, registry, res, x, y, z);
        result.push(m);
        i = i + 1;
    }
    result
}

/// The visibility of the faces of layer `layer` of direction `d` of an LOD
/// grid of side `res`, indexed by [`cell`].
pub open spec fn lod_layer_vis(vf: Seq<VisibleFaces>, res: int, d: FaceDirection, layer: int) -> Seq<bool> {
    Seq::new(
        (res * res) as nat,
        |c: int|
            {
                let (x, y, z) = layer_xyz(d, layer, c % res, c / res);
                bit_set(vf[lod_index(res, x, y, z)].0, face_index(d))
            },
    )
}

/// The voxel types behind the faces of layer `layer` of direction `d`.
pub open spec fn lod_layer_types(cv: Seq<VoxelTypeId>, res: int, d: FaceDirection, layer: int) -> Seq<VoxelTypeId> {
    Seq::new(
        (res * res) as nat,
        |c: int|
            {
                let (x, y, z) = layer_xyz(d, layer, c % res, c / res);
                cv[lod_index(res, x, y, z)]
            },
    )
}

/// No ambient occlusion: LOD meshes are unshaded.
pub open spec fn flat_ao(res: int) -> Seq<[u8; 4]> {
    Seq::new((res * res) as nat, |c: int| [0u8, 0u8, 0u8, 0u8])
}

/// Whether `rl` is the greedy meshing of layer `layer` of direction `d` of
/// an LOD grid: the greedy scan's quads ([`greedy_scan`]) of uniform type,
/// covering every visible face once.
pub open spec fn lod_layer_ok(rl: Seq<QuadRect>, vf: Seq<VisibleFaces>, cv: Seq<VoxelTypeId>, res: int, d: FaceDirection, layer: int) -> bool {
    let vis = lod_layer_vis(vf, res, d, layer);
    let tys = lod_layer_types(cv, res, d, layer);
    let aos = flat_ao(res);
    &&& layer_quads_ok(rl, d, layer, res, vis, tys, aos)
    &&& greedy_scan(rl, res, vis, tys, aos)
    &&& forall|a: int, b: int| 0 <= a < res && 0 <= b < res && #[trigger] vis[cell(res, a, b)] ==> covered(rl, a, b)
}

/// The quads of all parts, in order.
pub open spec fn concat_parts(parts: Seq<Seq<QuadRect>>) -> Seq<QuadRect>
    decreases parts.len(),
{
    if parts.len() == 0 {
        Seq::empty()
    } else {
        concat_parts(parts.drop_last()) + parts.last()
    }
}

/// Part `l` of direction `k` of per-layer parts of an LOD grid of side `res`.
pub open spec fn part_at(parts: Seq<Seq<QuadRect>>, res: int, k: int, l: int) -> Seq<QuadRect> {
    parts[k * res + l]
}

/// Whether `m` is the greedy meshing of an LOD grid of side `res` whose
/// visibility masks are `vf` and voxels `cv`: layer by layer (directions in
/// [`face_index`] order, layers in increasing order), each layer's quads
/// are its greedy meshing ([`lod_layer_ok`]), without ambient occlusion.
pub open spec fn lod_greedy_mesh(m: ChunkMesh, vf: Seq<VisibleFaces>, cv: Seq<VoxelTypeId>, res: int) -> bool {
    exists|parts: Seq<Seq<QuadRect>>|
        #![trigger concat_parts(parts)]
        parts.len() == 6 * res && (forall|k: int, l: int|
            0 <= k < 6 && 0 <= l < res ==> lod_layer_ok(
                #[trigger] part_at(parts, res, k, l),
                vf,
                cv,
                res,
                face_from_index(k as nat),
                l,
            )) && mesh_extends(Seq::empty(), Seq::empty(), Seq::empty(), m, concat_parts(parts))
}

/// The faces of layer `layer` of `direction` of an LOD chunk: visibility,
/// voxel types and (zero) AO, indexed by [`cell`].
fn build_layer_lod(
    chunk: &LodChunkData,
    visible_faces: &[VisibleFaces],
    res: usize,
    direction: FaceDirection,
    layer: usize,
) -> (r: (Vec<bool>, Vec<VoxelTypeId>, Vec<[u8; 4]>))
    requires
        res == chunk.res(),
        layer < res,
        visible_faces@.len() >= res * res * res,
    ensures
        r.0@ == lod_layer_vis(visible_faces@, res as int, direction, layer as int),
        r.1@ == lod_layer_types(chunk.voxels(), res as int, direction, layer as int),
        r.2@ == flat_ao(res as int),
{
    let ghost sres = res as int;
    proof {
        assert(1 <= res <= 32 && res * res <= 1024) by (nonlinear_arith)
            requires 1 <= res <= 32;
    }
    let n = res * res;
    let mut vis: Vec<bool> = Vec::new();
    let mut tys: Vec<VoxelTypeId> = Vec::new();
    let mut aos: Vec<[u8; 4]> = Vec::new();
    let mut c: usize = 0;
    while c < n
        invariant
            1 <= res <= 32,
            sres == res,
            res == chunk.res(),
            n == res * res,
            layer < res,
            visible_faces@.len() >= res * res * res,
            c <= n,
            vis@ == lod_layer_vis(visible_faces@, sres, direction, layer as int).take(c as int),
            tys@ == lod_layer_types(chunk.voxels(), sres, direction, layer as int).take(c as int),
            aos@ == flat_ao(sres).take(c as int),
        decreases n - c,
    {
        let u = c % res;
        let v = c / res;
        proof {
            assert(v < res) by (nonlinear_arith)
                requires c < n, n == res * res, v == c / res, res >= 1;
        }
        let (x, y, z) = axes_to_xyz(direction, layer, u, v);
        let ghost p = layer_xyz(direction, layer as int, u as int, v as int);
        assert(x < res && y < res && z < res);
        proof {
            lemma_lod_index(sres, x as int, y as int, z as int);
            assert(y * res <= 1024 && z * res <= 1024 && z * res * res <= 32768) by (nonlinear_arith)
                requires y < res, z < res, res <= 32;
        }
        let idx = x + y * res + z * res * res;
        let visible = visible_faces[idx].is_visible(direction);
        let t = chunk.get(x as u32, y as u32, z as u32);
        let ghost vis0 = vis@;
        let ghost tys0 = tys@;
        let ghost aos0 = aos@;
        vis.push(visible);
        tys.push(t);
        aos.push([0u8, 0u8, 0u8, 0u8]);
        proof {
            assert(vis@ =~= lod_layer_vis(visible_faces@, sres, direction, layer as int).take(c + 1));
            assert(tys@ =~= lod_layer_types(chunk.voxels(), sres, direction, layer as int).take(c + 1));
            assert(aos@ =~= flat_ao(sres).take(c + 1));
        }
        c = c + 1;
    }
    proof {
        assert(lod_layer_vis(visible_faces@, sres, direction, layer as int).take(n as int) =~= lod_layer_vis(
            visible_faces@,
            sres,
            direction,
            layer as int,
        ));
        assert(lod_layer_types(chunk.voxels(), sres, direction, layer as int).take(n as int) =~= lod_layer_types(
            chunk.voxels(),
            sres,
            direction,
            layer as int,
        ));
        assert(flat_ao(sres).take(n as int) =~= flat_ao(sres));
    }
    (vis, tys, aos)
}

/// Greedy meshing of an LOD chunk on its own grid of side `resolution`:
/// every layer of every direction is merged as [`merge_layer`] does, with
/// no ambient occlusion.
fn greedy_mesh_lod(
    chunk: &LodChunkData,
    visible_faces: &[VisibleFaces],
    resolution: usize,
    _neighbors: &ChunkNeighborhood,
    _registry: &VoxelTypeRegistry,
) -> (r: ChunkMesh)
    requires
        resolution == chunk.res(),
        visible_faces@.len() >= resolution * resolution * resolution,
    ensures
        lod_greedy_mesh(r, visible_faces@, chunk.voxels(), resolution as int),
{
    let size = resolution;
    let ghost res = size as int;
    proof {
        assert(1 <= size <= 32 && size * size <= 1024) by (nonlinear_arith)
            requires 1 <= size <= 32;
    }
    let mut mesh = ChunkMesh::new();
    let ghost mut parts: Seq<Seq<QuadRect>> = Seq::empty();
    proof {
        assert(mesh.vertices@.subrange(0, 0) =~= Seq::<MeshVertex>::empty());
        assert(mesh.indices@.subrange(0, 0) =~= Seq::<u32>::empty());
        assert(concat_parts(parts) =~= Seq::<QuadRect>::empty());
        assert(mesh.quads@ =~= Seq::<QuadInfo>::empty() + concat_parts(parts).map_values(
            |r: QuadRect| QuadInfo { direction: r.direction },
        ));
    }
    let mut k: usize = 0;
    while k < 6
        invariant
            k <= 6,
            res == size,
            1 <= size <= 32,
            size * size <= 1024,
            size == chunk.res(),
            visible_faces@.len() >= size * size * size,
            parts.len() == k * size,
            mesh.vertices@.len() <= 4 * 1024 * parts.len(),
            forall|kk: int, l: int|
                0 <= kk < k && 0 <= l < res ==> lod_layer_ok(
                    #[trigger] part_at(parts, res, kk, l),
                    visible_faces@,
                    chunk.voxels(),
                    res,
                    face_from_index(kk as nat),
                    l,
                ),
            mesh_extends(Seq::empty(), Seq::empty(), Seq::empty(), mesh, concat_parts(parts)),
        decreases 6 - k,
    {
        let direction = FaceDirection::ALL[k];
        assert(face_from_index(k as nat) == direction);
        let mut layer: usize = 0;
        while layer < size
            invariant
                k < 6,
                face_from_index(k as nat) == direction,
                res == size,
                1 <= size <= 32,
                size * size <= 1024,
                size == chunk.res(),
                visible_faces@.len() >= size * size * size,
                layer <= size,
                parts.len() == k * size + layer,
                mesh.vertices@.len() <= 4 * 1024 * parts.len(),
                forall|kk: int, l: int|
                    0 <= l < res && (0 <= kk < k || (kk == k && l < layer)) ==> lod_layer_ok(
                        #[trigger] part_at(parts, res, kk, l),
                        visible_faces@,
                        chunk.voxels(),
                        res,
                        face_from_index(kk as nat),
                        l,
                    ),
                mesh_extends(Seq::empty(), Seq::empty(), Seq::empty(), mesh, concat_parts(parts)),
            decreases size - layer,
        {
            let (vis, tys, aos) = build_layer_lod(chunk, visible_faces, size, direction, layer);
            proof {
                assert(parts.len() <= 6 * 32) by (nonlinear_arith)
                    requires parts.len() == k * size + layer, k < 6, layer < size, size <= 32;
                assert(4 * 1024 * parts.len() <= 4 * 1024 * 192) by (nonlinear_arith)
                    requires parts.len() <= 192;
                assert forall|c: int, j: int| 0 <= c < size * size && 0 <= j < 4 implies #[trigger] aos@[c]@[j] <= 3 by {
                    assert(aos@[c] == [0u8, 0u8, 0u8, 0u8]);
                }
            }
            let ghost m1 = mesh;
            let rl = merge_layer(&mut mesh, direction, layer, size, &vis, &tys, &aos);
            proof {
                lemma_mesh_extends_concat(Seq::empty(), Seq::empty(), Seq::empty(), m1, mesh, concat_parts(parts), rl@);
                assert(mesh.vertices@.len() == m1.vertices@.len() + 4 * rl@.len());
                assert(rl@.len() <= size * size);
                assert(4 * 1024 * (parts.len() + 1) == 4 * 1024 * parts.len() + 4096) by (nonlinear_arith);
                let old_parts = parts;
                parts = parts.push(rl@);
                assert(parts.drop_last() =~= old_parts);
                assert(concat_parts(parts) == concat_parts(old_parts) + rl@);
                assert(part_at(parts, res, k as int, layer as int) == rl@);
                assert forall|kk: int, l: int|
                    0 <= l < res && (0 <= kk < k || (kk == k && l < layer + 1)) implies lod_layer_ok(
                        #[trigger] part_at(parts, res, kk, l),
                        visible_faces@,
                        chunk.voxels(),
                        res,
                        face_from_index(kk as nat),
                        l,
                    ) by {
                    if kk == k && l == layer {
                    } else {
                        assert(kk * res + l < k * res + layer) by (nonlinear_arith)
                            requires 0 <= l < res, (0 <= kk < k || (kk == k && l < layer));
                        assert(kk * res + l >= 0) by (nonlinear_arith)
                            requires 0 <= l, 0 <= kk, res >= 1;
                        assert(part_at(parts, res, kk, l) == part_at(old_parts, res, kk, l));
                    }
                }
            }
            layer = layer + 1;
        }
        assert(k * size + size == (k + 1) * size) by (nonlinear_arith);
        k = k + 1;
    }
    proof {
        assert(parts.len() == 6 * res);
    }
    mesh
}

/// The width in base voxels of one voxel at LOD `lod`: `2^lod`.
pub open spec fn lod_factor(lod: nat) -> nat {
    if lod == 0 {
        1
    } else if lod == 1 {
        2
    } else if lod == 2 {
        4
    } else if lod == 3 {
        8
    } else if lod == 4 {
        16
    } else {
        32
    }
}

/// [`lod_factor`] computed.
fn factor_of(lod: u8) -> (r: usize)
    requires
        lod <= 5,
    ensures
        r == lod_factor(lod as nat),
{
    if lod == 0 {
        1
    } else if lod == 1 {
        2
    } else if lod == 2 {
        4
    } else if lod == 3 {
        8
    } else if lod == 4 {
        16
    } else {
        32
    }
}

/// Coordinate `p` scaled by `f` (capped at `usize::MAX`).
pub open spec fn scaled_coord(p: usize, f: usize) -> usize {
    if p * f <= usize::MAX {
        (p * f) as usize
    } else {
        usize::MAX
    }
}

/// Vertex `v` with its position scaled by `f`; everything else kept.
pub open spec fn scaled_vertex(v: MeshVertex, f: usize) -> MeshVertex {
    MeshVertex {
        position: [scaled_coord(v.position@[0], f), scaled_coord(v.position@[1], f), scaled_coord(v.position@[2], f)],
        normal: v.normal,
        uv: v.uv,
        voxel_type: v.voxel_type,
        ao: v.ao,
    }
}

/// Whether `r` is mesh `m` with every vertex position scaled by `f`.
pub open spec fn mesh_scaled(m: ChunkMesh, r: ChunkMesh, f: usize) -> bool {
    &&& r.vertices@.len() == m.vertices@.len()
    &&& forall|i: int| 0 <= i < m.vertices@.len() ==> #[trigger] r.vertices@[i] == scaled_vertex(m.vertices@[i], f)
    &&& r.indices@ == m.indices@
    &&& r.quads@ == m.quads@
}

/// Whether `vf` holds the exact visibility masks of an LOD grid.
pub open spec fn lod_visibility(vf: Seq<VisibleFaces>, types: Seq<TypeTraits>, cv: Seq<VoxelTypeId>, res: int) -> bool {
    &&& vf.len() == res * res * res
    &&& forall|i: int|
        0 <= i < vf.len() ==> lod_mask_exact(
            types,
            cv,
            res,
            lod_coords(res, i).0,
            lod_coords(res, i).1,
            lod_coords(res, i).2,
            #[trigger] vf[i],
        )
}

/// Scales every vertex position of `mesh` by `f`.
fn scale_positions(mesh: &mut ChunkMesh, f: usize)
    ensures
        mesh_scaled(*old(mesh), *final(mesh), f),
{
    let mut out: Vec<MeshVertex> = Vec::new();
    let mut i: usize = 0;
    while i < mesh.vertices.len()
        invariant
            i <= mesh.vertices@.len(),
            mesh == old(mesh),
            out@.len() == i,
            forall|j: int| 0 <= j < i ==> #[trigger] out@[j] == scaled_vertex(mesh.vertices@[j], f),
        decreases mesh.vertices@.len() - i,
    {
        let v = &mesh.vertices[i];
        let p0 = match v.position[0].checked_mul(f) {
            Some(q) => q,
            None => usize::MAX,
        };
        let p1 = match v.position[1].checked_mul(f) {
            Some(q) => q,
            None => usize::MAX,
        };
        let p2 = match v.position[2].checked_mul(f) {
            Some(q) => q,
            None => usize::MAX,
        };
        let w = MeshVertex { position: [p0, p1, p2], normal: v.normal, uv: v.uv, voxel_type: v.voxel_type, ao: v.ao };
        proof {
            assert(w == scaled_vertex(mesh.vertices@[i as int], f));
        }
        out.push(w);
        i = i + 1;
    }
    mesh.vertices = out;
}

/// Generates the mesh of an LOD chunk: the greedy meshing of its own
/// reduced grid ([`lod_greedy_mesh`], from its exact visibility masks),
/// with every vertex position then scaled by `2^lod` so the mesh covers the
/// chunk's full extent. The LOD context is not read.
pub fn mesh_lod_chunk(
    chunk: &LodChunkData,
    neighbors: &ChunkNeighborhood,
    registry: &VoxelTypeRegistry,
    lod_context: &ChunkLodContext,
) -> (r: ChunkMesh)
    ensures
        exists|m: ChunkMesh, vf: Seq<VisibleFaces>|
            #![trigger lod_greedy_mesh(m, vf, chunk.voxels(), chunk.res())]
            lod_visibility(vf, registry@, chunk.voxels(), chunk.res()) && lod_greedy_mesh(
                m,
                vf,
                chunk.voxels(),
                chunk.res(),
            ) && mesh_scaled(m, r, lod_factor(chunk.spec_lod() as nat) as usize),
{
    let resolution = chunk.resolution() as usize;
    let visible = compute_visible_faces_lod(chunk, registry);
    let mut mesh = greedy_mesh_lod(chunk, &visible, resolution, neighbors, registry);
    let ghost m0 = mesh;
    let f = factor_of(chunk.lod());
    scale_positions(&mut mesh, f);
    proof {
        assert(lod_visibility(visible@, registry@, chunk.voxels(), chunk.res()));
        assert(lod_greedy_mesh(m0, visible@, chunk.voxels(), chunk.res()));
    }
    mesh
}

/// A registry holding air and one opaque, solid type, `stone` (id 1, material
/// 1).
pub fn default_registry() -> (r: VoxelTypeRegistry)
    ensures
        r@ == seq![
            air_traits(),
            TypeTraits { solid: true, transparency: Transparency::Opaque, light_emission: 0 },
        ],
        r.labels() == seq![(Seq::<char>::empty(), 0u16), ("stone"@, 1u16)],
{
    let mut reg = VoxelTypeRegistry::new();
    let stone = VoxelTypeDef {
        name: "stone".to_owned(),
        solid: true,
        transparency: Transparency::Opaque,
        material_index: 1,
        light_emission: 0,
    };
    let _ = reg.register(stone);
    proof {
        assert(reg@ =~= seq![
            air_traits(),
            TypeTraits { solid: true, transparency: Transparency::Opaque, light_emission: 0 },
        ]);
    }
    reg
}

} // verus!
