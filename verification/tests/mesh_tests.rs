use nebula::mesh::ambient_occlusion::{compute_face_ao, should_flip_ao_diagonal, vertex_ao};
use nebula::mesh::chunk_mesh::ChunkMesh;
use nebula::mesh::face_direction::{CornerDirection, EdgeDirection, FaceDirection};
use nebula::mesh::greedy::greedy_mesh;
use nebula::mesh::invalidation::{ChunkMeshState, MeshInvalidator};
use nebula::mesh::lod_meshing::{compute_visible_faces_lod, default_registry, mesh_lod_chunk};
use nebula::mesh::lod_stitching::{apply_lod_stitching, generate_transition_strip, snap_edge_vertices, LodContext};
use nebula::mesh::neighborhood::{extract_boundary_slice, ChunkNeighborhood};
use nebula::mesh::packed::{ChunkVertex, PackedChunkMesh};
use nebula::mesh::transition_seams::{
    apply_seam_fix, constrain_edge_vertices, generate_skirt, ChunkLodContext, NeighborLodRelation,
};
use nebula::mesh::visibility::{compute_visible_faces, count_total_faces, count_visible_faces};
use nebula::mesh::visible_faces::VisibleFaces;
use nebula::voxel::address::ChunkAddress;
use nebula::voxel::chunk::{ChunkData, CHUNK_SIZE};
use nebula::voxel::lod_chunk::LodChunkData;
use nebula::voxel::registry::{Transparency, VoxelTypeDef, VoxelTypeRegistry};
use nebula::voxel::types::VoxelTypeId;

const NONE_FACES: VisibleFaces = VisibleFaces(0);
const ALL_FACES: VisibleFaces = VisibleFaces(0b0011_1111);

#[test]
fn none_and_all_face_sets() {
    assert_eq!(VisibleFaces::none(), NONE_FACES);
    assert_eq!(VisibleFaces::all(), ALL_FACES);
    assert_eq!(VisibleFaces::all().count(), 6);
}

fn def(name: &str, solid: bool, transparency: Transparency, material_index: u16) -> VoxelTypeDef {
    VoxelTypeDef { name: name.to_string(), solid, transparency, material_index, light_emission: 0 }
}

fn stone_registry() -> VoxelTypeRegistry {
    let mut reg = VoxelTypeRegistry::new();
    reg.register(def("stone", true, Transparency::Opaque, 1)).expect("register stone");
    reg
}

fn stone_dirt_registry() -> VoxelTypeRegistry {
    let mut reg = stone_registry();
    reg.register(def("dirt", true, Transparency::Opaque, 2)).expect("register dirt");
    reg
}

const STONE: VoxelTypeId = VoxelTypeId(1);
const DIRT: VoxelTypeId = VoxelTypeId(2);

// ---- ambient occlusion ----

#[test]
fn test_exposed_vertex_has_ao_zero() {
    assert_eq!(vertex_ao(false, false, false), 0);
}

#[test]
fn test_corner_vertex_surrounded_by_three_solids_has_ao_three() {
    assert_eq!(vertex_ao(true, true, true), 3);
}

#[test]
fn test_both_sides_solid_gives_ao_three_regardless_of_corner() {
    assert_eq!(vertex_ao(true, true, false), 3);
    assert_eq!(vertex_ao(true, true, true), 3);
}

#[test]
fn test_one_side_solid_ao_one() {
    assert_eq!(vertex_ao(true, false, false), 1);
    assert_eq!(vertex_ao(false, true, false), 1);
}

#[test]
fn test_one_side_and_corner_ao_two() {
    assert_eq!(vertex_ao(true, false, true), 2);
    assert_eq!(vertex_ao(false, true, true), 2);
}

#[test]
fn test_corner_only_ao_one() {
    assert_eq!(vertex_ao(false, false, true), 1);
}

#[test]
fn test_ao_values_are_symmetric() {
    for s1 in [false, true] {
        for s2 in [false, true] {
            for c in [false, true] {
                assert_eq!(vertex_ao(s1, s2, c), vertex_ao(s2, s1, c));
            }
        }
    }
}

#[test]
fn test_ao_values_in_valid_range() {
    for s1 in [false, true] {
        for s2 in [false, true] {
            for c in [false, true] {
                assert!(vertex_ao(s1, s2, c) <= 3);
            }
        }
    }
}

#[test]
fn test_uniform_ao_no_flip() {
    assert!(!should_flip_ao_diagonal([0, 0, 0, 0]));
    assert!(!should_flip_ao_diagonal([2, 2, 2, 2]));
}

#[test]
fn test_anisotropic_ao_triggers_flip() {
    assert!(should_flip_ao_diagonal([3, 0, 3, 0]));
    assert!(!should_flip_ao_diagonal([0, 3, 0, 3]));
}

#[test]
fn test_face_ao_all_air_is_zero() {
    let neighborhood = ChunkNeighborhood::from_center_only(ChunkData::new_air());
    let registry = stone_registry();
    let ao = compute_face_ao(&neighborhood, &registry, (5, 5, 5), FaceDirection::PosY);
    assert_eq!(ao, [0, 0, 0, 0]);
}

#[test]
fn test_face_ao_wall_edge_higher_than_open() {
    let mut chunk = ChunkData::new_air();
    chunk.set(5, 0, 5, STONE);
    chunk.set(5, 1, 6, STONE);
    let neighborhood = ChunkNeighborhood::from_center_only(chunk);
    let registry = stone_registry();
    let ao = compute_face_ao(&neighborhood, &registry, (5, 0, 5), FaceDirection::PosY);
    let max_ao = ao.iter().copied().max().unwrap_or(0);
    let min_ao = ao.iter().copied().min().unwrap_or(0);
    assert!(max_ao > min_ao, "got {ao:?}");
}

#[test]
fn test_face_ao_surrounded_corner() {
    let mut chunk = ChunkData::new_air();
    chunk.set(5, 5, 5, STONE);
    chunk.set(4, 6, 5, STONE);
    chunk.set(5, 6, 4, STONE);
    chunk.set(4, 6, 4, STONE);
    let neighborhood = ChunkNeighborhood::from_center_only(chunk);
    let registry = stone_registry();
    let ao = compute_face_ao(&neighborhood, &registry, (5, 5, 5), FaceDirection::PosY);
    assert_eq!(ao[0], 3);
}

// ---- face directions ----

#[test]
fn test_all_directions_unique() {
    for (i, a) in FaceDirection::ALL.iter().enumerate() {
        for (j, b) in FaceDirection::ALL.iter().enumerate() {
            if i != j {
                assert_ne!(a, b);
            }
        }
    }
}

#[test]
fn test_offset_pos_x() {
    assert_eq!(FaceDirection::PosX.offset(5, 10, 15), (6, 10, 15));
}

#[test]
fn test_offset_neg_x() {
    assert_eq!(FaceDirection::NegX.offset(5, 10, 15), (4, 10, 15));
}

#[test]
fn test_offset_negative_result() {
    assert_eq!(FaceDirection::NegX.offset(0, 0, 0), (-1, 0, 0));
}

#[test]
fn opposite_and_index_roundtrip() {
    for (i, d) in FaceDirection::ALL.iter().enumerate() {
        assert_eq!(d.index(), i);
        assert_eq!(d.opposite().opposite(), *d);
        assert_ne!(d.opposite(), *d);
        assert_eq!(FaceDirection::from_u8(i as u8), Some(*d));
    }
    assert_eq!(FaceDirection::PosY.sweep_axes(), (1, 0, 2));
}

// ---- visible faces ----

#[test]
fn test_none_has_zero_count() {
    assert_eq!(NONE_FACES.count(), 0);
}

#[test]
fn test_all_has_six_count() {
    assert_eq!(ALL_FACES.count(), 6);
}

#[test]
fn test_set_and_query_individual_face() {
    let mut vf = NONE_FACES;
    vf.set_visible(FaceDirection::PosZ);
    assert!(vf.is_visible(FaceDirection::PosZ));
    assert!(!vf.is_visible(FaceDirection::NegZ));
    assert_eq!(vf.count(), 1);
}

#[test]
fn test_set_all_directions_individually() {
    let mut vf = NONE_FACES;
    for dir in FaceDirection::ALL {
        vf.set_visible(dir);
    }
    assert_eq!(vf, ALL_FACES);
}

// ---- packed meshes ----

#[test]
fn test_vertex_size_is_12_bytes() {
    assert_eq!(std::mem::size_of::<ChunkVertex>(), 12);
}

#[test]
fn test_normal_encodes_six_directions_in_one_byte() {
    for dir in FaceDirection::ALL {
        let v = ChunkVertex::new([0, 0, 0], dir, 0, 0, [0, 0]);
        assert_eq!(v.normal, dir as u8);
        assert_eq!(v.face_direction(), Some(dir));
    }
    assert!(FaceDirection::from_u8(6).is_none());
}

#[test]
fn test_mesh_indices_are_valid() {
    let mut mesh = PackedChunkMesh::new();
    mesh.push_quad(
        [
            ChunkVertex::new([0, 0, 0], FaceDirection::PosY, 0, 1, [0, 0]),
            ChunkVertex::new([1, 0, 0], FaceDirection::PosY, 0, 1, [1, 0]),
            ChunkVertex::new([1, 0, 1], FaceDirection::PosY, 0, 1, [1, 1]),
            ChunkVertex::new([0, 0, 1], FaceDirection::PosY, 0, 1, [0, 1]),
        ],
        false,
    );
    let vertex_count = mesh.vertices.len() as u32;
    for &idx in &mesh.indices {
        assert!(idx < vertex_count);
    }
    assert_eq!(mesh.vertices.len(), 4);
    assert_eq!(mesh.indices.len(), 6);
}

#[test]
fn test_flipped_quad_indices_are_valid() {
    let mut mesh = PackedChunkMesh::new();
    mesh.push_quad(
        [
            ChunkVertex::new([0, 0, 0], FaceDirection::PosY, 0, 1, [0, 0]),
            ChunkVertex::new([1, 0, 0], FaceDirection::PosY, 1, 1, [1, 0]),
            ChunkVertex::new([1, 0, 1], FaceDirection::PosY, 0, 1, [1, 1]),
            ChunkVertex::new([0, 0, 1], FaceDirection::PosY, 1, 1, [0, 1]),
        ],
        true,
    );
    let vertex_count = mesh.vertices.len() as u32;
    for &idx in &mesh.indices {
        assert!(idx < vertex_count);
    }
    assert_eq!(mesh.indices, vec![1, 2, 3, 0, 1, 3]);
}

#[test]
fn test_empty_mesh_stats() {
    let mesh = PackedChunkMesh::new();
    assert!(mesh.is_empty());
    assert_eq!(mesh.triangle_count(), 0);
    assert_eq!(mesh.vertex_buffer_bytes(), 0);
    assert_eq!(mesh.index_buffer_bytes(), 0);
}

#[test]
fn index_bytes_are_four_per_index() {
    let mut mesh = PackedChunkMesh::new();
    mesh.push_quad([ChunkVertex::new([0, 0, 0], FaceDirection::PosX, 0, 1, [0, 0]); 4], false);
    assert_eq!(mesh.index_bytes().len(), 6 * 4);
    assert_eq!(mesh.vertex_buffer_bytes(), 4 * 12);
    assert_eq!(mesh.triangle_count(), 2);
}

#[test]
fn index_bytes_hold_each_index_in_one_byte_order() {
    let mut mesh = PackedChunkMesh::new();
    mesh.push_quad([ChunkVertex::new([0, 0, 0], FaceDirection::PosX, 0, 1, [0, 0]); 4], true);
    let le: Vec<u8> = [1u32, 2, 3, 0, 1, 3].iter().flat_map(|i| i.to_le_bytes()).collect();
    let be: Vec<u8> = [1u32, 2, 3, 0, 1, 3].iter().flat_map(|i| i.to_be_bytes()).collect();
    let bytes = mesh.index_bytes();
    assert!(bytes == le.as_slice() || bytes == be.as_slice());
}

// ---- LOD stitching ----

#[test]
fn test_same_lod_neighbors_no_stitching() {
    let ctx = LodContext { center_lod: 0, neighbor_lods: [Some(0); 6] };
    for dir in FaceDirection::ALL {
        assert!(!ctx.has_transition(dir));
    }
}

#[test]
fn test_lod_transition_produces_geometry() {
    let strip = generate_transition_strip(FaceDirection::PosX, 0, 1, 32);
    assert!(!strip.is_empty());
    assert!(strip.triangle_count() > 0);
}

#[test]
fn test_no_cracks_after_stitching() {
    let chunk_size = 32;
    let lod_diff = 1u8;
    let step = 1usize << lod_diff;
    let mut mesh = PackedChunkMesh::new();
    for z in 0..=chunk_size as u8 {
        for y in 0..=chunk_size as u8 {
            mesh.vertices.push(ChunkVertex::new([chunk_size as u8, y, z], FaceDirection::PosX, 0, 1, [y, z]));
        }
    }
    snap_edge_vertices(&mut mesh, FaceDirection::PosX, lod_diff, chunk_size);
    for vertex in &mesh.vertices {
        assert_eq!(vertex.position[1] as usize % step, 0);
        assert_eq!(vertex.position[2] as usize % step, 0);
    }
}

#[test]
fn test_transition_mesh_is_watertight() {
    let strip = generate_transition_strip(FaceDirection::PosX, 0, 1, 32);
    let vertex_count = strip.vertices.len() as u32;
    for &idx in &strip.indices {
        assert!(idx < vertex_count);
    }
    for tri in strip.indices.chunks(3) {
        let v0 = strip.vertices[tri[0] as usize].position;
        let v1 = strip.vertices[tri[1] as usize].position;
        let v2 = strip.vertices[tri[2] as usize].position;
        assert!(!(v0 == v1 || v1 == v2 || v0 == v2));
    }
}

#[test]
fn test_lod_context_reports_transitions() {
    let ctx = LodContext { center_lod: 0, neighbor_lods: [Some(0), Some(1), Some(0), Some(2), None, Some(0)] };
    assert!(!ctx.has_transition(FaceDirection::PosX));
    assert!(ctx.has_transition(FaceDirection::NegX));
    assert!(!ctx.has_transition(FaceDirection::PosY));
    assert!(ctx.has_transition(FaceDirection::NegY));
    assert!(!ctx.has_transition(FaceDirection::PosZ));
    assert!(!ctx.has_transition(FaceDirection::NegZ));
    assert_eq!(ctx.lod_difference(FaceDirection::NegX), 1);
    assert_eq!(ctx.lod_difference(FaceDirection::NegY), 2);
}

#[test]
fn test_apply_lod_stitching_multi_face() {
    let chunk_size = 32usize;
    let mut mesh = PackedChunkMesh::new();
    for i in 0..=chunk_size as u8 {
        mesh.vertices.push(ChunkVertex::new([chunk_size as u8, i, 0], FaceDirection::PosX, 0, 1, [i, 0]));
    }
    let ctx = LodContext { center_lod: 0, neighbor_lods: [Some(1), Some(0), Some(0), Some(0), Some(0), Some(0)] };
    apply_lod_stitching(&mut mesh, &ctx, chunk_size);
    for vertex in &mesh.vertices {
        if vertex.position[0] == chunk_size as u8 {
            assert_eq!(vertex.position[1] as usize % 2, 0);
        }
    }
}

#[test]
fn test_uniform_lod_context() {
    let ctx = LodContext::uniform(2);
    for dir in FaceDirection::ALL {
        assert!(!ctx.has_transition(dir));
        assert_eq!(ctx.lod_difference(dir), 0);
    }
}

#[test]
fn test_transition_strip_lod_difference_2() {
    let strip = generate_transition_strip(FaceDirection::NegY, 0, 2, 32);
    assert!(!strip.is_empty());
    assert!(strip.triangle_count() > 0);
    let vertex_count = strip.vertices.len() as u32;
    for &idx in &strip.indices {
        assert!(idx < vertex_count);
    }
}

#[test]
fn transition_strip_triangle_count_formula() {
    // k = ceil(32 / 2) = 16 cells: 2k(2n - k) = 32 * 48 = 1536 triangles.
    let strip = generate_transition_strip(FaceDirection::PosX, 0, 1, 32);
    assert_eq!(strip.triangle_count(), 1536);
    // Same or coarser center produces nothing.
    assert!(generate_transition_strip(FaceDirection::PosX, 1, 1, 32).is_empty());
}

// ---- transition seams ----

#[test]
fn test_same_lod_neighbors_no_seam() {
    let ctx = ChunkLodContext::uniform(0);
    for dir in FaceDirection::ALL {
        assert_eq!(ctx.needs_constraining(dir), None);
        assert!(!ctx.has_lod_difference(dir));
    }
}

#[test]
fn test_lod_difference_of_1_handled() {
    let chunk_size = 32usize;
    let mut mesh = PackedChunkMesh::new();
    for y in 0..=chunk_size as u8 {
        for z in 0..=chunk_size as u8 {
            mesh.vertices.push(ChunkVertex::new([chunk_size as u8, y, z], FaceDirection::PosX, 0, 1, [y, z]));
        }
    }
    constrain_edge_vertices(&mut mesh, FaceDirection::PosX, 1, chunk_size);
    for vertex in &mesh.vertices {
        assert_eq!(vertex.position[1] as usize % 2, 0);
        assert_eq!(vertex.position[2] as usize % 2, 0);
    }
}

#[test]
fn test_skirt_geometry_covers_gaps() {
    let mut mesh = PackedChunkMesh::new();
    let vert_count_before = mesh.vertices.len();
    let tris = generate_skirt(&mut mesh, FaceDirection::PosX, 2, 32);
    assert!(mesh.vertices.len() > vert_count_before);
    assert!(tris > 0);
    let vc = mesh.vertices.len() as u32;
    for &idx in &mesh.indices {
        assert!(idx < vc);
    }
}

#[test]
fn test_apply_seam_fix_integration() {
    let chunk_size = 32usize;
    let mut mesh = PackedChunkMesh::new();
    for y in 0..=chunk_size as u8 {
        mesh.vertices.push(ChunkVertex::new([chunk_size as u8, y, 0], FaceDirection::PosX, 0, 1, [y, 0]));
    }
    let ctx = ChunkLodContext::from_neighbor_lods(0, [Some(1), None, None, None, None, None]);
    let skirt_tris = apply_seam_fix(&mut mesh, &ctx, chunk_size, 2);
    assert!(skirt_tris > 0);
    for v in &mesh.vertices[..chunk_size + 1] {
        if v.position[0] == chunk_size as u8 {
            assert_eq!(v.position[1] as usize % 2, 0);
        }
    }
}

#[test]
fn test_chunk_lod_context_classification() {
    let ctx = ChunkLodContext::from_neighbor_lods(1, [Some(0), Some(1), Some(2), None, Some(3), Some(1)]);
    assert_eq!(ctx.neighbors[0], NeighborLodRelation::LowerThanNeighbor);
    assert_eq!(ctx.neighbors[1], NeighborLodRelation::Same);
    assert_eq!(ctx.neighbors[2], NeighborLodRelation::HigherThanNeighbor { lod_diff: 1 });
    assert_eq!(ctx.neighbors[3], NeighborLodRelation::Same);
    assert_eq!(ctx.neighbors[4], NeighborLodRelation::HigherThanNeighbor { lod_diff: 2 });
    assert_eq!(ctx.neighbors[5], NeighborLodRelation::Same);
}

#[test]
fn test_skirt_zero_depth_noop() {
    let mut mesh = PackedChunkMesh::new();
    let tris = generate_skirt(&mut mesh, FaceDirection::PosX, 0, 32);
    assert_eq!(tris, 0);
    assert!(mesh.vertices.is_empty());
}

#[test]
fn test_visual_continuity_across_boundary() {
    let chunk_size = 32usize;
    let mut mesh = PackedChunkMesh::new();
    for y in 0..=chunk_size as u8 {
        mesh.vertices.push(ChunkVertex::new([chunk_size as u8, y, 16], FaceDirection::PosX, 0, 1, [y, 16]));
    }
    constrain_edge_vertices(&mut mesh, FaceDirection::PosX, 1, chunk_size);
    for pair in mesh.vertices.windows(2) {
        let dy = (pair[0].position[1] as i16 - pair[1].position[1] as i16).unsigned_abs();
        assert!(dy <= 2);
    }
}

#[test]
fn skirt_adds_eight_vertices_per_step() {
    let mut mesh = PackedChunkMesh::new();
    let tris = generate_skirt(&mut mesh, FaceDirection::NegY, 3, 32);
    assert_eq!(tris, 4 * 32);
    assert_eq!(mesh.vertices.len(), 8 * 32);
    assert_eq!(mesh.indices.len(), 12 * 32);
    // The lowered edge of a -Y skirt sits `depth` above the boundary.
    assert_eq!(mesh.vertices[2].position[1], 3);
}

// ---- invalidation ----

#[test]
fn test_voxel_change_invalidates_own_mesh() {
    let pos = ChunkAddress::new(0, 0, 0, 0);
    let dirty = MeshInvalidator::invalidate(pos, (16, 16, 16), 32);
    assert!(dirty.contains(&pos));
}

#[test]
fn test_boundary_voxel_change_invalidates_neighbor_mesh() {
    let pos = ChunkAddress::new(0, 0, 0, 0);
    let dirty = MeshInvalidator::invalidate(pos, (0, 16, 16), 32);
    assert!(dirty.contains(&pos.offset(-1, 0, 0)));
    let dirty = MeshInvalidator::invalidate(pos, (31, 16, 16), 32);
    assert!(dirty.contains(&pos.offset(1, 0, 0)));
    let dirty = MeshInvalidator::invalidate(pos, (16, 0, 16), 32);
    assert!(dirty.contains(&pos.offset(0, -1, 0)));
}

#[test]
fn test_interior_change_does_not_invalidate_neighbors() {
    let pos = ChunkAddress::new(0, 0, 0, 0);
    let dirty = MeshInvalidator::invalidate(pos, (16, 16, 16), 32);
    assert_eq!(dirty.len(), 1);
    assert_eq!(dirty[0], pos);
}

#[test]
fn test_version_mismatch_triggers_remesh() {
    let mut state = ChunkMeshState { meshed_version: 1, remesh_pending: false };
    assert!(state.is_stale(2));
    assert!(state.needs_remesh(2));
    state.meshed_version = 2;
    assert!(!state.is_stale(2));
    assert!(!state.needs_remesh(2));
}

#[test]
fn test_clean_chunk_not_remeshed() {
    let state = ChunkMeshState { meshed_version: 5, remesh_pending: false };
    assert!(!state.is_stale(5));
    assert!(!state.needs_remesh(5));
}

#[test]
fn test_corner_edit_invalidates_three_face_neighbors() {
    let pos = ChunkAddress::new(0, 0, 0, 0);
    let dirty = MeshInvalidator::invalidate(pos, (0, 0, 0), 32);
    assert!(dirty.len() >= 4);
    assert!(dirty.contains(&pos));
    assert!(dirty.contains(&pos.offset(-1, 0, 0)));
    assert!(dirty.contains(&pos.offset(0, -1, 0)));
    assert!(dirty.contains(&pos.offset(0, 0, -1)));
}

#[test]
fn test_pending_remesh_suppresses_resubmit() {
    let state = ChunkMeshState { meshed_version: 1, remesh_pending: true };
    assert!(state.is_stale(2));
    assert!(!state.needs_remesh(2));
}

#[test]
fn invalidation_order_is_fixed() {
    let pos = ChunkAddress::new(3, 4, 5, 2);
    let dirty = MeshInvalidator::invalidate(pos, (31, 0, 31), 32);
    assert_eq!(dirty, vec![pos, pos.offset(1, 0, 0), pos.offset(0, -1, 0), pos.offset(0, 0, 1)]);
}

// ---- chunk meshes ----

#[test]
fn test_empty_mesh() {
    let mesh = ChunkMesh::new();
    assert_eq!(mesh.vertices.len(), 0);
    assert_eq!(mesh.indices.len(), 0);
    assert_eq!(mesh.quad_count(), 0);
}

#[test]
fn test_push_single_quad() {
    let mut mesh = ChunkMesh::new();
    mesh.push_quad(FaceDirection::PosY, 0, 0, 0, 1, 1, VoxelTypeId(1));
    assert_eq!(mesh.vertices.len(), 4);
    assert_eq!(mesh.indices.len(), 6);
    assert_eq!(mesh.quad_count(), 1);
}

#[test]
fn test_count_quads_by_direction() {
    let mut mesh = ChunkMesh::new();
    mesh.push_quad(FaceDirection::PosY, 0, 0, 0, 1, 1, VoxelTypeId(1));
    mesh.push_quad(FaceDirection::PosY, 0, 1, 0, 1, 1, VoxelTypeId(1));
    mesh.push_quad(FaceDirection::NegY, 0, 0, 0, 1, 1, VoxelTypeId(1));
    assert_eq!(mesh.count_quads_for_direction(FaceDirection::PosY), 2);
    assert_eq!(mesh.count_quads_for_direction(FaceDirection::NegY), 1);
    assert_eq!(mesh.count_quads_for_direction(FaceDirection::PosX), 0);
}

#[test]
fn push_quad_positions_and_winding() {
    let mut mesh = ChunkMesh::new();
    mesh.push_quad_ao(FaceDirection::PosY, 3, 1, 2, 4, 5, VoxelTypeId(7), [3, 0, 3, 0]);
    // +Y: layer axis y sits at layer + 1; u = x, v = z.
    assert_eq!(mesh.vertices[0].position, [1, 4, 2]);
    assert_eq!(mesh.vertices[2].position, [5, 4, 7]);
    assert_eq!(mesh.vertices[1].uv, [4, 0]);
    assert_eq!(mesh.vertices[3].ao, 0);
    assert_eq!(mesh.vertices[0].normal, [0, 1, 0]);
    // Flipped diagonal for anisotropic AO.
    assert_eq!(mesh.indices, vec![1, 2, 3, 0, 1, 3]);
    let mut neg = ChunkMesh::new();
    neg.push_quad(FaceDirection::NegX, 0, 0, 0, 1, 1, VoxelTypeId(1));
    assert_eq!(neg.indices, vec![0, 2, 1, 0, 3, 2]);
}

// ---- visibility ----

fn vis_registry() -> (VoxelTypeRegistry, VoxelTypeId, VoxelTypeId, VoxelTypeId) {
    let mut reg = VoxelTypeRegistry::new();
    let stone = reg.register(def("stone", true, Transparency::Opaque, 1)).expect("register stone");
    let glass = reg.register(def("glass", true, Transparency::SemiTransparent, 2)).expect("register glass");
    let water = reg.register(def("water", false, Transparency::SemiTransparent, 3)).expect("register water");
    (reg, stone, glass, water)
}

fn idx(x: usize, y: usize, z: usize) -> usize {
    x + y * CHUNK_SIZE + z * CHUNK_SIZE * CHUNK_SIZE
}

#[test]
fn test_single_voxel_in_empty_chunk_has_six_visible_faces() {
    let (reg, stone, _, _) = vis_registry();
    let mut chunk = ChunkData::new_air();
    chunk.set(16, 16, 16, stone);
    let faces = compute_visible_faces(&chunk, &ChunkNeighborhood::all_air(), &reg);
    let vf = faces[idx(16, 16, 16)];
    assert_eq!(vf.count(), 6);
    assert_eq!(vf, ALL_FACES);
}

#[test]
fn test_two_adjacent_solid_voxels_share_hidden_face() {
    let (reg, stone, _, _) = vis_registry();
    let mut chunk = ChunkData::new_air();
    chunk.set(10, 10, 10, stone);
    chunk.set(11, 10, 10, stone);
    let faces = compute_visible_faces(&chunk, &ChunkNeighborhood::all_air(), &reg);
    assert!(!faces[idx(10, 10, 10)].is_visible(FaceDirection::PosX));
    assert!(!faces[idx(11, 10, 10)].is_visible(FaceDirection::NegX));
    assert_eq!(faces[idx(10, 10, 10)].count(), 5);
    assert_eq!(faces[idx(11, 10, 10)].count(), 5);
}

#[test]
fn test_transparent_voxel_does_not_hide_neighbor_faces() {
    let (reg, stone, glass, _) = vis_registry();
    let mut chunk = ChunkData::new_air();
    chunk.set(10, 10, 10, stone);
    chunk.set(11, 10, 10, glass);
    let faces = compute_visible_faces(&chunk, &ChunkNeighborhood::all_air(), &reg);
    assert!(faces[idx(10, 10, 10)].is_visible(FaceDirection::PosX));
    assert_eq!(faces[idx(10, 10, 10)].count(), 6);
}

#[test]
fn test_same_transparent_type_hides_shared_face() {
    let (reg, _, glass, _) = vis_registry();
    let mut chunk = ChunkData::new_air();
    chunk.set(10, 10, 10, glass);
    chunk.set(11, 10, 10, glass);
    let faces = compute_visible_faces(&chunk, &ChunkNeighborhood::all_air(), &reg);
    assert!(!faces[idx(10, 10, 10)].is_visible(FaceDirection::PosX));
    assert!(!faces[idx(11, 10, 10)].is_visible(FaceDirection::NegX));
}

#[test]
fn test_different_transparent_types_show_shared_face() {
    let (reg, _, glass, water) = vis_registry();
    let mut chunk = ChunkData::new_air();
    chunk.set(10, 10, 10, glass);
    chunk.set(11, 10, 10, water);
    let faces = compute_visible_faces(&chunk, &ChunkNeighborhood::all_air(), &reg);
    assert!(faces[idx(10, 10, 10)].is_visible(FaceDirection::PosX));
    assert!(faces[idx(11, 10, 10)].is_visible(FaceDirection::NegX));
}

#[test]
fn test_boundary_voxel_queries_adjacent_chunk() {
    let (reg, stone, _, _) = vis_registry();
    let mut chunk = ChunkData::new_air();
    chunk.set(0, 10, 10, stone);
    let mut neg_x_chunk = ChunkData::new_air();
    neg_x_chunk.set(31, 10, 10, stone);
    let neighbors = ChunkNeighborhood::with_neg_x(neg_x_chunk);
    let faces = compute_visible_faces(&chunk, &neighbors, &reg);
    let vf = faces[idx(0, 10, 10)];
    assert!(!vf.is_visible(FaceDirection::NegX));
    assert_eq!(vf.count(), 5);
}

#[test]
fn test_empty_chunk_produces_zero_faces() {
    let (reg, _, _, _) = vis_registry();
    let faces = compute_visible_faces(&ChunkData::new_air(), &ChunkNeighborhood::all_air(), &reg);
    for vf in &faces {
        assert_eq!(vf.count(), 0);
    }
    assert!(faces.iter().all(|vf| *vf == NONE_FACES));
}

#[test]
fn test_count_visible_faces_helper() {
    let (reg, stone, _, _) = vis_registry();
    let mut chunk = ChunkData::new_air();
    chunk.set(16, 16, 16, stone);
    let faces = compute_visible_faces(&chunk, &ChunkNeighborhood::all_air(), &reg);
    assert_eq!(count_visible_faces(&faces), 6);
}

#[test]
fn test_count_total_faces_helper() {
    let (reg, stone, _, _) = vis_registry();
    let mut chunk = ChunkData::new_air();
    chunk.set(0, 0, 0, stone);
    chunk.set(1, 0, 0, stone);
    assert_eq!(count_total_faces(&chunk, &reg), 12);
}

// ---- neighborhoods ----

#[test]
fn test_interior_voxel_does_not_need_neighbors() {
    let neighborhood = ChunkNeighborhood::from_center_only(ChunkData::new(VoxelTypeId(1)));
    assert_eq!(neighborhood.get(16, 16, 16), VoxelTypeId(1));
}

#[test]
fn test_boundary_voxel_queries_correct_neighbor() {
    let mut neg_x_neighbor = ChunkData::new_air();
    neg_x_neighbor.set(31, 10, 10, VoxelTypeId(1));
    let mut neighborhood = ChunkNeighborhood::from_center_only(ChunkData::new_air());
    neighborhood.set_face_neighbor(FaceDirection::NegX, &neg_x_neighbor);
    assert_eq!(neighborhood.get(-1, 10, 10), VoxelTypeId(1));
}

#[test]
fn test_missing_neighbor_treats_boundary_as_air() {
    let neighborhood = ChunkNeighborhood::from_center_only(ChunkData::new(VoxelTypeId(1)));
    assert_eq!(neighborhood.get(32, 10, 10), VoxelTypeId(0));
}

#[test]
fn test_neighborhood_covers_all_26_directions() {
    let mut neighborhood = ChunkNeighborhood::from_center_only(ChunkData::new_air());
    let stone_chunk = ChunkData::new(VoxelTypeId(1));
    for dir in FaceDirection::ALL {
        neighborhood.set_face_neighbor(dir, &stone_chunk);
    }
    for edge in EdgeDirection::ALL {
        neighborhood.set_edge_neighbor(edge, &stone_chunk);
    }
    for corner in CornerDirection::ALL {
        neighborhood.set_corner_neighbor(corner, VoxelTypeId(1));
    }
    assert_eq!(neighborhood.get(32, 16, 16), VoxelTypeId(1));
    assert_eq!(neighborhood.get(-1, 16, 16), VoxelTypeId(1));
    assert_eq!(neighborhood.get(16, 32, 16), VoxelTypeId(1));
    assert_eq!(neighborhood.get(16, -1, 16), VoxelTypeId(1));
    assert_eq!(neighborhood.get(16, 16, 32), VoxelTypeId(1));
    assert_eq!(neighborhood.get(16, 16, -1), VoxelTypeId(1));
    assert_eq!(neighborhood.get(-1, -1, -1), VoxelTypeId(1));
    assert_eq!(neighborhood.get(32, -1, -1), VoxelTypeId(1));
    assert_eq!(neighborhood.get(-1, 32, -1), VoxelTypeId(1));
    assert_eq!(neighborhood.get(32, 32, -1), VoxelTypeId(1));
    assert_eq!(neighborhood.get(-1, -1, 32), VoxelTypeId(1));
    assert_eq!(neighborhood.get(32, -1, 32), VoxelTypeId(1));
    assert_eq!(neighborhood.get(-1, 32, 32), VoxelTypeId(1));
    assert_eq!(neighborhood.get(32, 32, 32), VoxelTypeId(1));
}

#[test]
fn test_boundary_slice_is_minimal() {
    let slice = extract_boundary_slice(&ChunkData::new(VoxelTypeId(1)), FaceDirection::PosX, 32);
    assert_eq!(slice.len(), 32 * 32);
}

#[test]
fn test_all_air_returns_air() {
    let n = ChunkNeighborhood::all_air();
    assert_eq!(n.get(-1, 0, 0), VoxelTypeId(0));
    assert_eq!(n.get(32, 0, 0), VoxelTypeId(0));
    assert_eq!(n.get(0, -1, 0), VoxelTypeId(0));
}

#[test]
fn test_legacy_with_neg_x() {
    let mut chunk = ChunkData::new_air();
    chunk.set(31, 10, 10, VoxelTypeId(5));
    let n = ChunkNeighborhood::with_neg_x(chunk);
    assert_eq!(n.get(-1, 10, 10), VoxelTypeId(5));
    assert_eq!(n.get(-1, 0, 0), VoxelTypeId(0));
}

#[test]
fn test_legacy_set_pos_y_neighbor() {
    let mut n = ChunkNeighborhood::all_air();
    let mut chunk = ChunkData::new_air();
    chunk.set(5, 0, 5, VoxelTypeId(9));
    n.set(2, chunk);
    assert_eq!(n.get(5, 32, 5), VoxelTypeId(9));
}

#[test]
fn test_edge_neighbor_lookup() {
    let mut neighborhood = ChunkNeighborhood::from_center_only(ChunkData::new_air());
    let mut edge_chunk = ChunkData::new_air();
    edge_chunk.set(0, 0, 15, VoxelTypeId(7));
    neighborhood.set_edge_neighbor(EdgeDirection::PosXPosY, &edge_chunk);
    assert_eq!(neighborhood.get(32, 32, 15), VoxelTypeId(7));
    assert_eq!(neighborhood.get(32, 32, 0), VoxelTypeId(0));
}

#[test]
fn test_corner_neighbor_from_chunk() {
    let mut neighborhood = ChunkNeighborhood::from_center_only(ChunkData::new_air());
    let mut corner_chunk = ChunkData::new_air();
    corner_chunk.set(0, 0, 0, VoxelTypeId(42));
    neighborhood.set_corner_neighbor_from_chunk(CornerDirection::PosXPosYPosZ, &corner_chunk);
    assert_eq!(neighborhood.get(32, 32, 32), VoxelTypeId(42));
}

// ---- greedy meshing ----

#[test]
fn test_flat_surface_single_type_produces_one_quad() {
    let mut chunk = ChunkData::new_air();
    for z in 0..CHUNK_SIZE {
        for x in 0..CHUNK_SIZE {
            chunk.set(x, 0, z, STONE);
        }
    }
    let neighbors = ChunkNeighborhood::all_air();
    let reg = stone_dirt_registry();
    let visible = compute_visible_faces(&chunk, &neighbors, &reg);
    let mesh = greedy_mesh(&chunk, &visible, &neighbors, &reg);
    assert_eq!(mesh.count_quads_for_direction(FaceDirection::PosY), 1);
}

#[test]
fn test_checkerboard_produces_many_quads() {
    let mut chunk = ChunkData::new_air();
    for z in 0..CHUNK_SIZE {
        for x in 0..CHUNK_SIZE {
            chunk.set(x, 0, z, if (x + z) % 2 == 0 { STONE } else { DIRT });
        }
    }
    let neighbors = ChunkNeighborhood::all_air();
    let reg = stone_dirt_registry();
    let visible = compute_visible_faces(&chunk, &neighbors, &reg);
    let mesh = greedy_mesh(&chunk, &visible, &neighbors, &reg);
    assert_eq!(mesh.count_quads_for_direction(FaceDirection::PosY), CHUNK_SIZE * CHUNK_SIZE);
}

#[test]
fn test_l_shaped_surface_produces_multiple_quads() {
    let mut chunk = ChunkData::new_air();
    for x in 0..8 {
        chunk.set(x, 0, 0, STONE);
    }
    for z in 1..8 {
        chunk.set(0, 0, z, STONE);
    }
    let neighbors = ChunkNeighborhood::all_air();
    let reg = stone_dirt_registry();
    let visible = compute_visible_faces(&chunk, &neighbors, &reg);
    let mesh = greedy_mesh(&chunk, &visible, &neighbors, &reg);
    assert!(mesh.count_quads_for_direction(FaceDirection::PosY) >= 2);
}

#[test]
fn test_different_types_not_merged() {
    let mut chunk = ChunkData::new_air();
    for x in 0..16 {
        chunk.set(x, 0, 0, STONE);
    }
    for x in 16..CHUNK_SIZE {
        chunk.set(x, 0, 0, DIRT);
    }
    let neighbors = ChunkNeighborhood::all_air();
    let reg = stone_dirt_registry();
    let visible = compute_visible_faces(&chunk, &neighbors, &reg);
    let mesh = greedy_mesh(&chunk, &visible, &neighbors, &reg);
    assert!(mesh.count_quads_for_direction(FaceDirection::PosY) >= 2);
}

#[test]
fn test_empty_chunk_produces_zero_quads() {
    let chunk = ChunkData::new_air();
    let neighbors = ChunkNeighborhood::all_air();
    let reg = stone_dirt_registry();
    let visible = compute_visible_faces(&chunk, &neighbors, &reg);
    let mesh = greedy_mesh(&chunk, &visible, &neighbors, &reg);
    assert_eq!(mesh.vertices.len(), 0);
    assert_eq!(mesh.indices.len(), 0);
}

#[test]
fn test_solid_chunk_produces_six_face_quads() {
    let chunk = ChunkData::new(STONE);
    let neighbors = ChunkNeighborhood::all_air();
    let reg = stone_dirt_registry();
    let visible = compute_visible_faces(&chunk, &neighbors, &reg);
    let mesh = greedy_mesh(&chunk, &visible, &neighbors, &reg);
    for dir in FaceDirection::ALL {
        assert_eq!(mesh.count_quads_for_direction(dir), 1);
    }
    assert_eq!(mesh.quad_count(), 6);
}

#[test]
fn greedy_quad_covers_whole_face() {
    let chunk = ChunkData::new(STONE);
    let neighbors = ChunkNeighborhood::all_air();
    let reg = stone_dirt_registry();
    let visible = compute_visible_faces(&chunk, &neighbors, &reg);
    let mesh = greedy_mesh(&chunk, &visible, &neighbors, &reg);
    // First quad: +X face at layer 31, spanning the full 32 x 32 face.
    assert_eq!(mesh.vertices[0].position, [32, 0, 0]);
    assert_eq!(mesh.vertices[2].position, [32, 32, 32]);
    assert_eq!(mesh.vertices[2].uv, [32, 32]);
}

#[test]
fn transition_strip_fans_one_coarse_cell() {
    // One coarse cell of side 2 on the +X face: (u, v) = (z, y), x = 2.
    let strip = generate_transition_strip(FaceDirection::PosX, 0, 1, 2);
    let uv = |i: usize| {
        let p = strip.vertices[i].position;
        assert_eq!(p[0], 2);
        (p[2], p[1])
    };
    let tris: Vec<[(u8, u8); 3]> = (0..strip.vertices.len() / 3).map(|t| [uv(3 * t), uv(3 * t + 1), uv(3 * t + 2)]).collect();
    assert_eq!(
        tris,
        vec![
            [(0, 0), (1, 0), (2, 0)],
            [(0, 0), (2, 0), (2, 1)],
            [(0, 0), (2, 1), (2, 2)],
            [(2, 2), (1, 2), (0, 2)],
            [(2, 2), (0, 2), (0, 1)],
            [(2, 2), (0, 1), (0, 0)],
        ]
    );
}

#[test]
fn vertex_bytes_follow_the_packed_layout() {
    let mut mesh = PackedChunkMesh::new();
    mesh.vertices.push(ChunkVertex::new([1, 2, 3], FaceDirection::NegY, 2, 0x0102, [4, 5]));
    let bytes = mesh.vertex_bytes();
    assert_eq!(bytes.len(), 12);
    assert_eq!(&bytes[0..3], &[1, 2, 3]);
    assert_eq!(bytes[3], FaceDirection::NegY.index() as u8);
    assert_eq!(bytes[4], 2);
    assert_eq!(&bytes[6..8], &[0x02, 0x01]);
    assert_eq!(&bytes[8..10], &[4, 5]);
    assert_eq!(&bytes[10..12], &[0, 0]);
}

#[test]
fn greedy_l_shape_merges_row_first_then_column() {
    // On the top faces (u = x, v = z) the scan starts at (0, 0), takes the
    // whole row of 8 faces, which cannot grow along z; then (0, 1) starts a
    // 1 x 7 column.
    let mut chunk = ChunkData::new_air();
    for x in 0..8 {
        chunk.set(x, 0, 0, STONE);
    }
    for z in 1..8 {
        chunk.set(0, 0, z, STONE);
    }
    let neighbors = ChunkNeighborhood::all_air();
    let reg = stone_dirt_registry();
    let visible = compute_visible_faces(&chunk, &neighbors, &reg);
    let mesh = greedy_mesh(&chunk, &visible, &neighbors, &reg);
    assert_eq!(mesh.count_quads_for_direction(FaceDirection::PosY), 2);
    assert_eq!(mesh.count_quads_for_direction(FaceDirection::NegY), 2);
    let top: Vec<usize> = (0..mesh.quads.len()).filter(|&q| mesh.quads[q].direction == FaceDirection::PosY).collect();
    let span = |q: usize| {
        let vs = &mesh.vertices[4 * q..4 * q + 4];
        let xs: Vec<usize> = vs.iter().map(|v| v.position[0]).collect();
        let zs: Vec<usize> = vs.iter().map(|v| v.position[2]).collect();
        (xs.iter().max().unwrap() - xs.iter().min().unwrap(), zs.iter().max().unwrap() - zs.iter().min().unwrap())
    };
    assert_eq!(span(top[0]), (8, 1));
    assert_eq!(span(top[1]), (1, 7));
}

// ---- LOD meshing ----

fn make_checkerboard_lod_chunk(lod: u8) -> LodChunkData {
    let mut chunk = LodChunkData::new(lod);
    let res = chunk.resolution();
    for z in 0..res {
        for x in 0..res {
            if (x + z) % 2 == 0 {
                chunk.set(x, 0, z, VoxelTypeId(1));
            }
        }
    }
    chunk
}

fn make_solid_lod_chunk(lod: u8) -> LodChunkData {
    let mut chunk = LodChunkData::new(lod);
    let res = chunk.resolution();
    for z in 0..res {
        for y in 0..res / 2 {
            for x in 0..res {
                chunk.set(x, y, z, VoxelTypeId(1));
            }
        }
    }
    chunk
}

fn mesh_lod_chunk_simple(lod: u8) -> ChunkMesh {
    let chunk = make_checkerboard_lod_chunk(lod);
    mesh_lod_chunk(&chunk, &ChunkNeighborhood::all_air(), &default_registry(), &ChunkLodContext::uniform(lod))
}

fn triangle_count(mesh: &ChunkMesh) -> usize {
    mesh.indices.len() / 3
}

fn has_degenerate_triangles(mesh: &ChunkMesh) -> bool {
    mesh.indices.chunks(3).any(|t| {
        let p = |i: u32| mesh.vertices[i as usize].position;
        p(t[0]) == p(t[1]) || p(t[1]) == p(t[2]) || p(t[0]) == p(t[2])
    })
}

/// Triangles of the same face direction all turn the same way relative to
/// the face normal, and none is flat.
fn has_consistent_winding(mesh: &ChunkMesh) -> bool {
    let mut seen: Vec<([i8; 3], i64)> = Vec::new();
    for t in mesh.indices.chunks(3) {
        let p = |i: u32| {
            let q = mesh.vertices[i as usize].position;
            [q[0] as i64, q[1] as i64, q[2] as i64]
        };
        let (a, b, c) = (p(t[0]), p(t[1]), p(t[2]));
        let e1 = [b[0] - a[0], b[1] - a[1], b[2] - a[2]];
        let e2 = [c[0] - a[0], c[1] - a[1], c[2] - a[2]];
        let cross = [e1[1] * e2[2] - e1[2] * e2[1], e1[2] * e2[0] - e1[0] * e2[2], e1[0] * e2[1] - e1[1] * e2[0]];
        let n = mesh.vertices[t[0] as usize].normal;
        let sign = (cross[0] * n[0] as i64 + cross[1] * n[1] as i64 + cross[2] * n[2] as i64).signum();
        if sign == 0 {
            return false;
        }
        match seen.iter().find(|(m, _)| *m == n) {
            Some((_, s)) if *s != sign => return false,
            Some(_) => {}
            None => seen.push((n, sign)),
        }
    }
    true
}

#[test]
fn test_lod_0_mesh_has_most_triangles() {
    let mesh_0 = mesh_lod_chunk_simple(0);
    let mesh_1 = mesh_lod_chunk_simple(1);
    let mesh_2 = mesh_lod_chunk_simple(2);
    assert!(
        triangle_count(&mesh_0) > triangle_count(&mesh_1),
        "LOD 0 ({}) should have more triangles than LOD 1 ({})",
        triangle_count(&mesh_0),
        triangle_count(&mesh_1)
    );
    assert!(
        triangle_count(&mesh_1) > triangle_count(&mesh_2),
        "LOD 1 ({}) should have more triangles than LOD 2 ({})",
        triangle_count(&mesh_1),
        triangle_count(&mesh_2)
    );
}

#[test]
fn test_lod_n_triangle_ratio() {
    let mesh_0 = mesh_lod_chunk_simple(0);
    let mesh_2 = mesh_lod_chunk_simple(2);
    let ratio = triangle_count(&mesh_0) as f64 / triangle_count(&mesh_2) as f64;
    assert!(ratio > 8.0 && ratio < 32.0, "expected ~16x ratio, got {ratio:.1}x");
}

#[test]
fn test_mesh_valid_at_all_lod_levels() {
    for lod in 0..=4 {
        let mesh = mesh_lod_chunk_simple(lod);
        assert!(triangle_count(&mesh) > 0, "LOD {lod} mesh should have some triangles");
        assert!(!has_degenerate_triangles(&mesh), "LOD {lod} mesh has degenerate triangles");
        assert!(has_consistent_winding(&mesh), "LOD {lod} mesh has inconsistent winding order");
    }
}

#[test]
fn test_meshing_time_decreases_with_lod() {
    let iterations = 10;
    let start_0 = std::time::Instant::now();
    for _ in 0..iterations {
        let _ = mesh_lod_chunk_simple(0);
    }
    let time_0 = start_0.elapsed();
    let start_2 = std::time::Instant::now();
    for _ in 0..iterations {
        let _ = mesh_lod_chunk_simple(2);
    }
    let time_2 = start_2.elapsed();
    assert!(time_0 > time_2, "LOD 0 meshing ({time_0:?}) should take longer than LOD 2 ({time_2:?})");
}

#[test]
fn test_mesh_represents_low_res_data() {
    for lod in 0..=3 {
        let chunk = make_solid_lod_chunk(lod);
        let mesh = mesh_lod_chunk(&chunk, &ChunkNeighborhood::all_air(), &default_registry(), &ChunkLodContext::uniform(lod));
        assert!(
            triangle_count(&mesh) >= 6 * 2,
            "LOD {lod} mesh should represent all visible faces, got {} triangles",
            triangle_count(&mesh)
        );
    }
}

#[test]
fn lod_solid_block_meshes_to_six_scaled_quads() {
    // At LOD 3 (4^3 voxels of 8 units) a full chunk is one box: six quads
    // spanning 0..=32 after scaling.
    let mut chunk = LodChunkData::new(3);
    for z in 0..4 {
        for y in 0..4 {
            for x in 0..4 {
                chunk.set(x, y, z, VoxelTypeId(1));
            }
        }
    }
    let reg = default_registry();
    let visible = compute_visible_faces_lod(&chunk, &reg);
    assert_eq!(visible.len(), 64);
    assert_eq!(visible[0], VisibleFaces(0b0010_1010));
    let mesh = mesh_lod_chunk(&chunk, &ChunkNeighborhood::all_air(), &reg, &ChunkLodContext::uniform(3));
    assert_eq!(mesh.quad_count(), 6);
    assert!(mesh.vertices.iter().all(|v| v.position.iter().all(|&c| c == 0 || c == 32)));
}
