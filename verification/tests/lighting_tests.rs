use nebula::lighting::cross_chunk::{border_changed, propagate_cross_chunk, BorderLightFace, ChunkBorderLights, Face};
use nebula::lighting::voxel_light::{
    propagate_block_light, propagate_sunlight, remove_block_light, ChunkLightMap, VoxelLight,
};
use nebula::voxel::chunk::ChunkData;
use nebula::voxel::registry::{Transparency, VoxelTypeDef, VoxelTypeRegistry};
use nebula::voxel::types::VoxelTypeId;

const S: u32 = 32;

/// Air (0), stone (1), glass (2).
fn test_registry() -> VoxelTypeRegistry {
    let mut reg = VoxelTypeRegistry::new();
    reg.register(VoxelTypeDef {
        name: "stone".to_string(),
        solid: true,
        transparency: Transparency::Opaque,
        material_index: 1,
        light_emission: 0,
    })
    .unwrap();
    reg.register(VoxelTypeDef {
        name: "glass".to_string(),
        solid: true,
        transparency: Transparency::SemiTransparent,
        material_index: 2,
        light_emission: 0,
    })
    .unwrap();
    reg
}

fn make_empty_chunk() -> (ChunkLightMap, ChunkData) {
    (ChunkLightMap::new_dark(), ChunkData::new_air())
}

fn make_adjacent_pair() -> (ChunkLightMap, ChunkData, ChunkLightMap, ChunkData) {
    (ChunkLightMap::new_dark(), ChunkData::new_air(), ChunkLightMap::new_dark(), ChunkData::new_air())
}

#[test]
fn test_sunlight_fills_open_area_to_max() {
    let reg = test_registry();
    let (mut light, voxels) = make_empty_chunk();
    propagate_sunlight(&mut light, &voxels, &reg);
    for y in 0..32 {
        assert_eq!(light.get(16, y, 16).sunlight(), 15, "open area at y={y} should have max sunlight");
    }
}

#[test]
fn test_block_light_decays_with_distance() {
    let reg = test_registry();
    let (mut light, voxels) = make_empty_chunk();
    propagate_block_light(&mut light, &voxels, &reg, &[(16, 16, 16, 15)]);
    assert_eq!(light.get(17, 16, 16).block_light(), 14);
    assert_eq!(light.get(21, 16, 16).block_light(), 10);
    assert_eq!(light.get(31, 16, 16).block_light(), 0);
}

#[test]
fn test_opaque_block_creates_shadow() {
    let reg = test_registry();
    let (mut light, mut voxels) = make_empty_chunk();
    voxels.set(18, 16, 16, VoxelTypeId(1));
    propagate_block_light(&mut light, &voxels, &reg, &[(16, 16, 16, 15)]);
    let behind_wall = light.get(19, 16, 16).block_light();
    let without_wall_equivalent = 15 - 3;
    assert!(
        behind_wall < without_wall_equivalent,
        "block behind wall should have less light ({behind_wall}) than open path ({without_wall_equivalent})"
    );
}

#[test]
fn test_transparent_block_transmits_light() {
    let reg = test_registry();
    let (mut light, mut voxels) = make_empty_chunk();
    voxels.set(17, 16, 16, VoxelTypeId(2));
    propagate_block_light(&mut light, &voxels, &reg, &[(16, 16, 16, 15)]);
    let through_glass = light.get(18, 16, 16).block_light();
    assert!(through_glass > 0, "light should pass through transparent block");
}

#[test]
fn test_light_level_in_valid_range() {
    let reg = test_registry();
    let (mut light, voxels) = make_empty_chunk();
    propagate_block_light(&mut light, &voxels, &reg, &[(16, 16, 16, 15)]);
    for x in 0..32 {
        for y in 0..32 {
            for z in 0..32 {
                let bl = light.get(x, y, z).block_light();
                let sl = light.get(x, y, z).sunlight();
                assert!(bl <= VoxelLight::MAX_LEVEL, "block light {bl} exceeds max");
                assert!(sl <= VoxelLight::MAX_LEVEL, "sunlight {sl} exceeds max");
            }
        }
    }
}

#[test]
fn test_propagation_handles_chunk_boundaries() {
    let reg = test_registry();
    let (mut light, voxels) = make_empty_chunk();
    propagate_block_light(&mut light, &voxels, &reg, &[(0, 0, 0, 15)]);
    assert_eq!(light.get(0, 0, 0).block_light(), 15);
    assert_eq!(light.get(1, 0, 0).block_light(), 14);
}

#[test]
fn test_remove_block_light_clears_and_relights() {
    let reg = test_registry();
    let (mut light, voxels) = make_empty_chunk();
    propagate_block_light(&mut light, &voxels, &reg, &[(16, 16, 16, 15)]);
    assert_eq!(light.get(17, 16, 16).block_light(), 14);

    remove_block_light(&mut light, &voxels, &reg, 16, 16, 16);
    assert_eq!(light.get(16, 16, 16).block_light(), 0);
    assert_eq!(light.get(17, 16, 16).block_light(), 0);
}

#[test]
fn test_sunlight_blocked_by_floor() {
    let reg = test_registry();
    let (mut light, mut voxels) = make_empty_chunk();
    for x in 0..32u32 {
        for z in 0..32u32 {
            voxels.set(x as usize, 16, z as usize, VoxelTypeId(1));
        }
    }
    propagate_sunlight(&mut light, &voxels, &reg);
    assert_eq!(light.get(16, 17, 16).sunlight(), 15);
    assert_eq!(light.get(16, 15, 16).sunlight(), 0);
}

#[test]
fn test_light_crosses_chunk_boundary() {
    let reg = test_registry();
    let (mut light_a, voxels_a, mut light_b, voxels_b) = make_adjacent_pair();
    propagate_block_light(&mut light_a, &voxels_a, &reg, &[(31, 16, 16, 15)]);

    let border = light_a.extract_border(Face::PosX);
    propagate_cross_chunk(&mut light_b, &voxels_b, &reg, Face::NegX, &border);

    let bl = light_b.get(0, 16, 16).block_light();
    assert!(bl > 0, "light should cross into chunk B, got {bl}");
    assert!(bl <= 14, "light should decay when crossing boundary, got {bl}");
}

#[test]
fn test_border_cache_matches_neighbor_edge() {
    let reg = test_registry();
    let (mut light_a, voxels_a, _, _) = make_adjacent_pair();
    propagate_block_light(&mut light_a, &voxels_a, &reg, &[(30, 16, 16, 10)]);
    let border = light_a.extract_border(Face::PosX);

    let expected = light_a.get(31, 16, 16);
    let actual = border[(16 * S + 16) as usize];
    assert_eq!(actual, expected, "border cache must match chunk edge voxel");
}

#[test]
fn test_removing_light_depropagates_across_boundary() {
    let reg = test_registry();
    let (mut light_a, voxels_a, mut light_b, voxels_b) = make_adjacent_pair();
    propagate_block_light(&mut light_a, &voxels_a, &reg, &[(31, 16, 16, 15)]);
    let border = light_a.extract_border(Face::PosX);
    propagate_cross_chunk(&mut light_b, &voxels_b, &reg, Face::NegX, &border);
    assert!(light_b.get(0, 16, 16).block_light() > 0);

    remove_block_light(&mut light_a, &voxels_a, &reg, 31, 16, 16);
    let new_border = light_a.extract_border(Face::PosX);
    assert!(border_changed(&border, &new_border));

    let mut light_b_clean = ChunkLightMap::new_dark();
    propagate_cross_chunk(&mut light_b_clean, &voxels_b, &reg, Face::NegX, &new_border);
    assert_eq!(
        light_b_clean.get(0, 16, 16).block_light(),
        0,
        "light should be removed after source deletion"
    );
}

#[test]
fn test_two_lights_from_different_chunks_combine() {
    let reg = test_registry();
    let (mut light_a, voxels_a, mut light_b, voxels_b) = make_adjacent_pair();
    propagate_block_light(&mut light_a, &voxels_a, &reg, &[(31, 16, 16, 10)]);
    propagate_block_light(&mut light_b, &voxels_b, &reg, &[(5, 16, 16, 10)]);

    let border_a = light_a.extract_border(Face::PosX);
    propagate_cross_chunk(&mut light_b, &voxels_b, &reg, Face::NegX, &border_a);

    let bl = light_b.get(0, 16, 16).block_light();
    let from_b_alone = 10u8.saturating_sub(5);
    assert!(
        bl >= from_b_alone,
        "combined light ({bl}) should be >= single source contribution ({from_b_alone})"
    );
}

#[test]
fn test_propagation_settles_in_bounded_steps() {
    let reg = test_registry();
    let (mut light_a, voxels_a, mut light_b, voxels_b) = make_adjacent_pair();
    propagate_block_light(&mut light_a, &voxels_a, &reg, &[(31, 16, 16, 15)]);
    let border = light_a.extract_border(Face::PosX);
    propagate_cross_chunk(&mut light_b, &voxels_b, &reg, Face::NegX, &border);

    assert_eq!(
        light_b.get(31, 16, 16).block_light(),
        0,
        "light should not reach the far end of a neighboring chunk from level 15"
    );
}

#[test]
fn test_border_changed_detects_difference() {
    let a: BorderLightFace = Box::new([VoxelLight(0); 1024]);
    let mut b: BorderLightFace = Box::new([VoxelLight(0); 1024]);
    assert!(!border_changed(&a, &b));
    b[500] = VoxelLight(5);
    assert!(border_changed(&a, &b));
}

#[test]
fn test_extract_border_all_faces() {
    let reg = test_registry();
    let mut light = ChunkLightMap::new_dark();
    let voxels = ChunkData::new_air();
    propagate_block_light(&mut light, &voxels, &reg, &[(16, 16, 16, 15)]);

    for face in [Face::PosX, Face::NegX, Face::PosY, Face::NegY, Face::PosZ, Face::NegZ] {
        let border = light.extract_border(face);
        let has_light = border.iter().any(|v| v.block_light() > 0);
        let _ = has_light;
    }
}

// ---- further cases ----

#[test]
fn voxel_light_nibbles_pack_and_unpack() {
    let mut l = VoxelLight::default();
    l.set_sunlight(12);
    l.set_block_light(5);
    assert_eq!(l.0, 0xC5);
    assert_eq!(l.sunlight(), 12);
    assert_eq!(l.block_light(), 5);
    l.set_sunlight(0);
    assert_eq!(l.0, 0x05);
    l.set_block_light(15);
    assert_eq!(l.0, 0x0F);
}

#[test]
fn block_light_leaves_sunlight_alone() {
    let reg = test_registry();
    let (mut light, voxels) = make_empty_chunk();
    let mut l = light.get(3, 3, 3);
    l.set_sunlight(9);
    light.set(3, 3, 3, l);
    propagate_block_light(&mut light, &voxels, &reg, &[(3, 3, 3, 7)]);
    assert_eq!(light.get(3, 3, 3).sunlight(), 9);
    assert_eq!(light.get(3, 3, 3).block_light(), 7);
    assert_eq!(light.get(4, 3, 3).sunlight(), 0);
    assert_eq!(light.get(4, 3, 3).block_light(), 6);
}

#[test]
fn glass_costs_two_levels() {
    let reg = test_registry();
    let (mut light, mut voxels) = make_empty_chunk();
    voxels.set(17, 16, 16, VoxelTypeId(2));
    propagate_block_light(&mut light, &voxels, &reg, &[(16, 16, 16, 15)]);
    // Straight through the glass costs 2; around it (3 air steps) costs 3.
    assert_eq!(light.get(17, 16, 16).block_light(), 13);
    assert_eq!(light.get(18, 16, 16).block_light(), 12);
}

#[test]
fn later_source_overrides_earlier_one_at_the_same_voxel() {
    let reg = test_registry();
    let (mut light, voxels) = make_empty_chunk();
    propagate_block_light(&mut light, &voxels, &reg, &[(8, 8, 8, 15), (8, 8, 8, 3)]);
    assert_eq!(light.get(8, 8, 8).block_light(), 3);
    assert_eq!(light.get(9, 8, 8).block_light(), 2);
}

#[test]
fn removing_dark_voxel_changes_nothing() {
    let reg = test_registry();
    let (mut light, voxels) = make_empty_chunk();
    propagate_block_light(&mut light, &voxels, &reg, &[(4, 4, 4, 6)]);
    let before: Vec<u8> = (0..32u32).map(|x| light.get(x, 4, 4).0).collect();
    remove_block_light(&mut light, &voxels, &reg, 20, 20, 20);
    let after: Vec<u8> = (0..32u32).map(|x| light.get(x, 4, 4).0).collect();
    assert_eq!(before, after);
}

#[test]
fn removing_one_of_two_sources_keeps_the_other() {
    let reg = test_registry();
    let (mut light, voxels) = make_empty_chunk();
    propagate_block_light(&mut light, &voxels, &reg, &[(4, 16, 16, 15), (28, 16, 16, 15)]);
    remove_block_light(&mut light, &voxels, &reg, 4, 16, 16);
    assert_eq!(light.get(28, 16, 16).block_light(), 15);
    assert_eq!(light.get(27, 16, 16).block_light(), 14);
    assert_eq!(light.get(16, 16, 16).block_light(), 3);
}

#[test]
fn sunlight_enters_bottom_face_without_loss() {
    let reg = test_registry();
    let (mut light_b, voxels_b) = make_empty_chunk();
    let mut border: BorderLightFace = Box::new([VoxelLight(0); 1024]);
    border[5 * 32 + 7] = VoxelLight(0xF0);
    propagate_cross_chunk(&mut light_b, &voxels_b, &reg, Face::NegY, &border);
    assert_eq!(light_b.get(5, 0, 7).sunlight(), 15);
    assert_eq!(light_b.get(6, 0, 7).sunlight(), 14);
}

#[test]
fn face_opposites_pair_up() {
    for face in [Face::PosX, Face::NegX, Face::PosY, Face::NegY, Face::PosZ, Face::NegZ] {
        assert_ne!(face.opposite(), face);
        assert_eq!(face.opposite().opposite(), face);
    }
    assert_eq!(Face::PosX.opposite(), Face::NegX);
    assert_eq!(Face::NegY.opposite(), Face::PosY);
}

#[test]
fn new_border_cache_is_dark() {
    let cache = ChunkBorderLights::new_dark();
    for face in cache.faces.iter() {
        assert!(face.iter().all(|v| v.0 == 0));
    }
}
