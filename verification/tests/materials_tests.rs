use nebula::lod::selector::resolution_for_lod;
use nebula::lod::face_quadtree_lod::LodAction;
use nebula::lod::planet_lod::PlanetRenderMode;
use nebula::materials::atlas::{AtlasBuilder, AtlasConfig, AtlasError, AtlasImage, VoxelTextures};
use nebula::materials::material::{MaterialError, MaterialId};
use nebula::net::chunk_streaming::{ChunkId, ClientChunkCache};

fn test_config() -> AtlasConfig {
    AtlasConfig { atlas_size: 256, tile_size: 16 }
}

#[test]
fn test_atlas_texture_has_power_of_2_dimensions() {
    let config = AtlasConfig { atlas_size: 4096, tile_size: 32 };
    assert!(config.atlas_size.is_power_of_two());
    assert!(config.tile_size.is_power_of_two());

    let config2 = AtlasConfig { atlas_size: 2048, tile_size: 16 };
    assert!(config2.atlas_size.is_power_of_two());
    assert!(config2.tile_size.is_power_of_two());
}

#[test]
fn test_all_voxel_textures_fit_in_atlas() {
    let config = test_config();
    let max_tiles = config.max_tiles();
    assert_eq!(max_tiles, 256);

    let mut builder = AtlasBuilder::new(config);
    for i in 0..256 {
        let name = format!("tile_{i}");
        let img = AtlasImage::from_pixel(16, 16, [128, 128, 128, 255]);
        let result = builder.add_texture_from_image(&name, &img);
        assert!(result.is_ok(), "Tile {i} should fit in atlas");
    }

    let overflow_img = AtlasImage::from_pixel(16, 16, [0, 0, 0, 255]);
    let result = builder.add_texture_from_image("overflow", &overflow_img);
    assert!(matches!(result, Err(AtlasError::AtlasFull { .. })));
}

#[test]
fn test_atlas_can_be_uploaded_to_gpu() {
    let config = AtlasConfig { atlas_size: 256, tile_size: 16 };
    let atlas = AtlasBuilder::new(config).build();

    assert!(!atlas.mip_chain.is_empty());
    assert_eq!(atlas.mip_chain[0].width(), 256);
    assert_eq!(atlas.mip_chain[0].height(), 256);
    let expected_bytes = 256 * 256 * 4;
    assert_eq!(atlas.mip_chain[0].as_raw().len(), expected_bytes);
}

#[test]
fn test_mipmap_chain_is_complete() {
    let config = AtlasConfig { atlas_size: 256, tile_size: 16 };
    let atlas = AtlasBuilder::new(config).build();

    let expected_levels = (256f32).log2() as usize + 1;
    assert_eq!(atlas.mip_chain.len(), expected_levels);

    for i in 1..atlas.mip_chain.len() {
        let prev = &atlas.mip_chain[i - 1];
        let curr = &atlas.mip_chain[i];
        assert_eq!(curr.width(), prev.width() / 2);
        assert_eq!(curr.height(), prev.height() / 2);
    }

    let last = atlas.mip_chain.last().unwrap();
    assert_eq!(last.width(), 1);
    assert_eq!(last.height(), 1);
}

#[test]
fn test_duplicate_texture_is_deduplicated() {
    let config = test_config();
    let mut builder = AtlasBuilder::new(config);
    let img = AtlasImage::from_pixel(16, 16, [255, 0, 0, 255]);

    let idx_a = builder.add_texture_from_image("red_tile", &img).unwrap();
    let idx_b = builder.add_texture_from_image("red_tile", &img).unwrap();

    assert_eq!(idx_a, idx_b);
}

#[test]
fn test_config_validation() {
    let valid = AtlasConfig { atlas_size: 256, tile_size: 16 };
    assert!(valid.validate().is_ok());

    let bad_atlas = AtlasConfig { atlas_size: 300, tile_size: 16 };
    assert!(bad_atlas.validate().is_err());

    let bad_tile = AtlasConfig { atlas_size: 256, tile_size: 17 };
    assert!(bad_tile.validate().is_err());
}

#[test]
fn test_material_id_is_unique() {
    let id_a = MaterialId(0);
    let id_b = MaterialId(1);
    assert_ne!(id_a, id_b);

    let id_c = MaterialId(42);
    let id_d = MaterialId(42);
    assert_eq!(id_c, id_d);
}

#[test]
fn test_lod_action_variants() {
    let keep = LodAction::Keep;
    let split = LodAction::Split;
    let merge = LodAction::Merge;
    assert_eq!(keep, LodAction::Keep);
    assert_eq!(split, LodAction::Split);
    assert_eq!(merge, LodAction::Merge);
}

// ---- further cases ----

fn invalid_message(config: AtlasConfig) -> String {
    match config.validate() {
        Err(AtlasError::InvalidConfig(m)) => m,
        other => panic!("expected an invalid config, got {other:?}"),
    }
}

#[test]
fn config_validation_messages() {
    assert_eq!(invalid_message(AtlasConfig { atlas_size: 300, tile_size: 16 }), "atlas_size 300 is not a power of 2");
    assert_eq!(invalid_message(AtlasConfig { atlas_size: 256, tile_size: 17 }), "tile_size 17 is not a power of 2");
    assert_eq!(
        invalid_message(AtlasConfig { atlas_size: 256, tile_size: 512 }),
        "tile_size 512 does not evenly divide atlas_size 256"
    );
    assert_eq!(invalid_message(AtlasConfig { atlas_size: 0, tile_size: 16 }), "atlas_size 0 is not a power of 2");
}

#[test]
fn tiles_per_row_and_capacity() {
    let config = AtlasConfig { atlas_size: 4096, tile_size: 32 };
    assert_eq!(config.tiles_per_row(), 128);
    assert_eq!(config.max_tiles(), 16384);
}

#[test]
fn tiles_take_slots_in_order_and_resize() {
    let mut builder = AtlasBuilder::new(AtlasConfig { atlas_size: 64, tile_size: 16 });
    let big = AtlasImage::from_pixel(40, 40, [1, 2, 3, 255]);
    assert_eq!(builder.add_texture_from_image("a", &big).unwrap(), 0);
    assert_eq!(builder.add_texture_from_image("b", &big).unwrap(), 1);
    assert_eq!(builder.add_texture_from_image("a", &big).unwrap(), 0);
    assert_eq!(builder.used_slots(), 2);
    assert_eq!(builder.tile_map(), &vec!["a".to_string(), "b".to_string()]);
    let atlas = builder.build();
    assert_eq!(atlas.tile_index("b"), Some(1));
    assert_eq!(atlas.tile_index("c"), None);
    assert_eq!(atlas.tile_count(), 2);
    assert_eq!(atlas.mip_level_count(), 7);
    assert_eq!(atlas.config, AtlasConfig { atlas_size: 64, tile_size: 16 });
}

#[test]
fn full_atlas_reports_capacity() {
    let mut builder = AtlasBuilder::new(AtlasConfig { atlas_size: 32, tile_size: 16 });
    let img = AtlasImage::from_pixel(16, 16, [0, 0, 0, 0]);
    for i in 0..4 {
        assert_eq!(builder.add_texture_from_image(&format!("t{i}"), &img).unwrap(), i);
    }
    match builder.add_texture_from_image("t4", &img) {
        Err(AtlasError::AtlasFull { max }) => assert_eq!(max, 4),
        other => panic!("expected a full atlas, got {other:?}"),
    }
}

#[test]
fn raw_images_need_enough_bytes() {
    assert!(AtlasImage::from_raw(2, 2, vec![0; 16]).is_some());
    assert!(AtlasImage::from_raw(2, 2, vec![0; 15]).is_none());
    let img = AtlasImage::from_raw(2, 3, vec![7; 24]).unwrap();
    assert_eq!((img.width(), img.height()), (2, 3));
}

#[test]
fn material_error_message() {
    assert_eq!(MaterialError::EmptyName.message(), "material name must not be empty");
}

#[test]
fn voxel_textures_hold_names() {
    let t = VoxelTextures::TopSideBottom { top: "grass_top".into(), side: "grass_side".into(), bottom: "dirt".into() };
    match t.clone() {
        VoxelTextures::TopSideBottom { top, .. } => assert_eq!(top, "grass_top"),
        VoxelTextures::Uniform { .. } => panic!("wrong variant"),
    }
}

#[test]
fn planet_render_modes_differ() {
    assert_ne!(PlanetRenderMode::VoxelTerrain, PlanetRenderMode::Impostor);
}

fn cid(x: i32) -> ChunkId {
    ChunkId { face: 0, lod: 0, x, y: 0, z: 0 }
}

#[test]
fn chunk_cache_evicts_one_chunk_at_capacity() {
    let mut cache = ClientChunkCache::new(2);
    cache.insert(cid(1), vec![1]);
    cache.insert(cid(2), vec![2]);
    assert!(cache.contains(&cid(1)) && cache.contains(&cid(2)));
    cache.insert(cid(3), vec![3]);
    assert_eq!(cache.chunks.len(), 2);
    assert!(cache.contains(&cid(3)));
    assert_eq!(cache.get(&cid(3)), Some(&vec![3]));
    assert!(cache.contains(&cid(1)) != cache.contains(&cid(2)));
}

#[test]
fn chunk_cache_replaces_present_chunk_without_evicting() {
    let mut cache = ClientChunkCache::new(2);
    cache.insert(cid(1), vec![1]);
    cache.insert(cid(2), vec![2]);
    cache.insert(cid(1), vec![9]);
    assert_eq!(cache.chunks.len(), 2);
    assert_eq!(cache.get(&cid(1)), Some(&vec![9]));
    assert_eq!(cache.get(&cid(2)), Some(&vec![2]));
    assert_eq!(cache.get(&cid(5)), None);
}

#[test]
fn test_resolution_for_lod() {
    assert_eq!(resolution_for_lod(0), 32);
    assert_eq!(resolution_for_lod(1), 16);
    assert_eq!(resolution_for_lod(2), 8);
    assert_eq!(resolution_for_lod(3), 4);
    assert_eq!(resolution_for_lod(4), 2);
}

#[test]
fn resolution_reaches_zero_past_lod_five() {
    assert_eq!(resolution_for_lod(5), 1);
    assert_eq!(resolution_for_lod(6), 0);
    assert_eq!(resolution_for_lod(31), 0);
}

// ---- animated materials ----

fn animator_with(anims: Vec<(MaterialId, Vec<u32>, bool)>) -> nebula::materials::animator::MaterialAnimator {
    nebula::materials::animator::MaterialAnimator::new(&anims)
}

#[test]
fn animator_loops_through_frames() {
    let water = MaterialId(1);
    let mut a = animator_with(vec![(water, vec![10, 11, 12, 13], false)]);
    assert_eq!(a.current_frame_index(water), Some(0));
    assert_eq!(a.current_tile(water), Some(10));
    a.advance(water, 1);
    assert_eq!(a.current_tile(water), Some(11));
    a.advance(water, 2);
    assert_eq!(a.current_frame_index(water), Some(3));
    assert_eq!(a.current_tile(water), Some(13));
    a.advance(water, 1);
    assert_eq!(a.current_frame_index(water), Some(0));
    // 5 steps of a 4-frame loop land on frame 1
    a.advance(water, 5);
    assert_eq!(a.current_frame_index(water), Some(1));
}

#[test]
fn animator_ping_pongs_between_ends() {
    let lava = MaterialId(2);
    let mut a = animator_with(vec![(lava, vec![20, 21, 22], true)]);
    let mut seen = vec![a.current_frame_index(lava).unwrap()];
    for _ in 0..8 {
        a.advance(lava, 1);
        seen.push(a.current_frame_index(lava).unwrap());
    }
    assert_eq!(seen, vec![0, 1, 2, 1, 0, 1, 2, 1, 0]);
    let mut single = animator_with(vec![(lava, vec![7], true)]);
    single.advance(lava, 5);
    assert_eq!(single.current_tile(lava), Some(7));
}

#[test]
fn animator_leaves_other_materials_alone() {
    let water = MaterialId(1);
    let stone = MaterialId(5);
    let lava = MaterialId(3);
    let mut a = animator_with(vec![(water, vec![10, 11], false), (lava, vec![1, 2, 3], false)]);
    assert_eq!(a.slot_count(), 4);
    a.advance(water, 1);
    a.advance(stone, 3);
    assert_eq!(a.current_frame_index(water), Some(1));
    assert_eq!(a.current_frame_index(lava), Some(0));
    assert_eq!(a.current_frame_index(stone), None);
    assert_eq!(a.current_tile(stone), None);
    assert_eq!(a.current_tile(MaterialId(2)), None);
    // a later entry for the same id replaces the earlier one
    let b = animator_with(vec![(water, vec![1], false), (water, vec![9, 8], true)]);
    assert_eq!(b.current_tile(water), Some(9));
    assert_eq!(b.slot_count(), 2);
}

// ---- chunk work queue ----

#[test]
fn priority_queue_pops_highest_first() {
    let mut q = nebula::lod::priority_queue::LodPriorityQueue::new();
    assert!(q.is_empty());
    assert_eq!(q.pop(), None);
    q.push(10, 5);
    q.push(20, 50);
    q.push(30, 7);
    assert_eq!(q.len(), 3);
    assert_eq!(q.pop(), Some(20));
    assert_eq!(q.pop(), Some(30));
    assert_eq!(q.pop(), Some(10));
    assert_eq!(q.pop(), None);
    assert!(q.is_empty());
}

#[test]
fn priority_queue_updates_replace_older_entries() {
    let mut q = nebula::lod::priority_queue::LodPriorityQueue::new();
    q.push(1, 100);
    q.push(2, 50);
    // the camera moved: chunk 1 is now less important than chunk 2
    q.push(1, 10);
    assert_eq!(q.len(), 2);
    assert_eq!(q.pop(), Some(2));
    assert_eq!(q.pop(), Some(1));
    // the stale entry of chunk 1 is skipped
    assert_eq!(q.pop(), None);
    q.push(3, 1);
    q.clear();
    assert!(q.is_empty());
    assert_eq!(q.pop(), None);
}

#[test]
fn atlas_builder_finds_placed_tiles_by_name() {
    let mut b = AtlasBuilder::new(AtlasConfig { atlas_size: 64, tile_size: 16 });
    let img = AtlasImage::from_pixel(16, 16, [1, 2, 3, 255]);
    assert_eq!(b.tile_index("grass"), None);
    assert_eq!(b.add_texture_from_image("stone", &img).unwrap(), 0);
    assert_eq!(b.add_texture_from_image("grass", &img).unwrap(), 1);
    assert_eq!(b.tile_index("grass"), Some(1));
    assert_eq!(b.tile_index("stone"), Some(0));
}

fn encode_png(w: u32, h: u32) -> Vec<u8> {
    let img = image::RgbaImage::from_pixel(w, h, image::Rgba([10, 20, 30, 255]));
    let mut out = std::io::Cursor::new(Vec::new());
    img.write_to(&mut out, image::ImageFormat::Png).unwrap();
    out.into_inner()
}

#[test]
fn add_texture_from_bytes_decodes_and_places_tiles() {
    let mut builder = AtlasBuilder::new(AtlasConfig { atlas_size: 64, tile_size: 16 });
    // A 40 x 24 PNG is decoded and resized to the 16 x 16 tile.
    assert_eq!(builder.add_texture_from_bytes("stone", &encode_png(40, 24)).unwrap(), 0);
    assert_eq!(builder.add_texture_from_bytes("dirt", &encode_png(16, 16)).unwrap(), 1);
    // A name added before keeps its tile; the bytes are not decoded.
    assert_eq!(builder.add_texture_from_bytes("stone", b"not an image").unwrap(), 0);
    // Bytes that do not decode are an image load error and take no slot.
    assert!(matches!(builder.add_texture_from_bytes("bad", b"not an image"), Err(AtlasError::ImageLoad(_))));
    assert_eq!(builder.used_slots(), 2);
    assert_eq!(builder.tile_index("bad"), None);
}

#[test]
fn tiles_land_in_their_slots_row_by_row() {
    let config = AtlasConfig { atlas_size: 32, tile_size: 16 };
    let mut builder = AtlasBuilder::new(config);
    let red = AtlasImage::from_pixel(16, 16, [255, 0, 0, 255]);
    let green = AtlasImage::from_pixel(16, 16, [0, 255, 0, 255]);
    let blue = AtlasImage::from_pixel(16, 16, [0, 0, 255, 255]);
    assert_eq!(builder.add_texture_from_image("red", &red).unwrap(), 0);
    assert_eq!(builder.add_texture_from_image("green", &green).unwrap(), 1);
    assert_eq!(builder.add_texture_from_image("blue", &blue).unwrap(), 2);
    let atlas = builder.build();
    let raw = atlas.mip_chain[0].as_raw();
    let px = |x: usize, y: usize| &raw[4 * (y * 32 + x)..4 * (y * 32 + x) + 4];
    assert_eq!(px(0, 0), &[255, 0, 0, 255]);
    assert_eq!(px(15, 15), &[255, 0, 0, 255]);
    assert_eq!(px(16, 0), &[0, 255, 0, 255]);
    assert_eq!(px(31, 15), &[0, 255, 0, 255]);
    assert_eq!(px(0, 16), &[0, 0, 255, 255]);
    assert_eq!(px(31, 31), &[0, 0, 0, 0]);
}

#[test]
fn second_mip_level_is_the_first_resampled() {
    let config = AtlasConfig { atlas_size: 32, tile_size: 16 };
    let mut builder = AtlasBuilder::new(config);
    let red = AtlasImage::from_pixel(16, 16, [255, 0, 0, 255]);
    let green = AtlasImage::from_pixel(16, 16, [0, 255, 0, 255]);
    let blue = AtlasImage::from_pixel(16, 16, [0, 0, 255, 255]);
    builder.add_texture_from_image("red", &red).unwrap();
    builder.add_texture_from_image("green", &green).unwrap();
    builder.add_texture_from_image("blue", &blue).unwrap();
    let atlas = builder.build();
    let level1 = &atlas.mip_chain[1];
    assert_eq!((level1.width(), level1.height()), (16, 16));
    let raw = level1.as_raw();
    let px = |x: usize, y: usize| &raw[4 * (y * 16 + x)..4 * (y * 16 + x) + 4];
    assert_eq!(px(4, 4), &[255, 0, 0, 255]);
    assert_eq!(px(12, 4), &[0, 255, 0, 255]);
    assert_eq!(px(4, 12), &[0, 0, 255, 255]);
    assert_eq!(px(12, 12), &[0, 0, 0, 0]);
}

// The original queue tests name chunks by cube-face addresses and give `f64`
// scores; here each chunk is an integer key and each score an integer that
// orders as the score does.

#[test]
fn test_queue_returns_highest_priority_first() {
    let mut queue = nebula::lod::priority_queue::LodPriorityQueue::new();
    let (low, mid, high) = (1u64, 2u64, 3u64);
    queue.push(low, 10);
    queue.push(mid, 50);
    queue.push(high, 100);
    assert_eq!(queue.pop(), Some(high));
    assert_eq!(queue.pop(), Some(mid));
    assert_eq!(queue.pop(), Some(low));
}

#[test]
fn test_empty_queue_returns_none() {
    let mut queue = nebula::lod::priority_queue::LodPriorityQueue::new();
    assert_eq!(queue.pop(), None);
    assert!(queue.is_empty());
}

#[test]
fn test_priority_updates_when_camera_moves() {
    let mut queue = nebula::lod::priority_queue::LodPriorityQueue::new();
    let (addr_a, addr_b) = (1u64, 2u64);
    queue.push(addr_a, 100);
    queue.push(addr_b, 50);
    queue.push(addr_a, 30);
    queue.push(addr_b, 90);
    assert_eq!(queue.pop(), Some(addr_b));
    assert_eq!(queue.pop(), Some(addr_a));
}

#[test]
fn test_queue_length() {
    let mut queue = nebula::lod::priority_queue::LodPriorityQueue::new();
    assert_eq!(queue.len(), 0);
    queue.push(1, 10);
    assert_eq!(queue.len(), 1);
    queue.push(2, 20);
    assert_eq!(queue.len(), 2);
    queue.pop();
    assert_eq!(queue.len(), 1);
}

// The original animator tests advance by elapsed seconds at a frame rate;
// the library advances by whole frames, so each tick below is the number of
// frames that its seconds make at the animation's rate.

#[test]
fn test_animated_material_advances_frames() {
    let water_id = MaterialId(1);
    let mut animator = animator_with(vec![(water_id, vec![10, 11, 12, 13], false)]);
    assert_eq!(animator.current_frame_index(water_id), Some(0));
    assert_eq!(animator.current_tile(water_id), Some(10));
    animator.advance(water_id, 1); // 0.25 s at 4 fps
    assert_eq!(animator.current_frame_index(water_id), Some(1));
    assert_eq!(animator.current_tile(water_id), Some(11));
    animator.advance(water_id, 1);
    assert_eq!(animator.current_frame_index(water_id), Some(2));
    assert_eq!(animator.current_tile(water_id), Some(12));
}

#[test]
fn test_frame_wraps_around_at_end() {
    let water_id = MaterialId(1);
    let mut animator = animator_with(vec![(water_id, vec![10, 11, 12, 13], false)]);
    animator.advance(water_id, 3); // 0.75 s at 4 fps
    assert_eq!(animator.current_frame_index(water_id), Some(3));
    assert_eq!(animator.current_tile(water_id), Some(13));
    animator.advance(water_id, 1);
    assert_eq!(animator.current_frame_index(water_id), Some(0));
    assert_eq!(animator.current_tile(water_id), Some(10));
}

#[test]
fn test_animation_speed_is_configurable() {
    let slow_id = MaterialId(1);
    let fast_id = MaterialId(2);
    let mut animator =
        animator_with(vec![(slow_id, vec![0, 1, 2, 3], false), (fast_id, vec![0, 1, 2, 3], false)]);
    animator.advance(slow_id, 0); // 0.5 s at 1 fps
    animator.advance(fast_id, 5); // 0.5 s at 10 fps
    assert_eq!(animator.current_frame_index(slow_id), Some(0));
    assert_eq!(animator.current_frame_index(fast_id), Some(1));
}

#[test]
fn test_non_animated_materials_unaffected() {
    let water_id = MaterialId(1);
    let stone_id = MaterialId(5);
    let mut animator = animator_with(vec![(water_id, vec![10, 11, 12, 13], false)]);
    animator.advance(water_id, 4); // 1 s at 4 fps
    assert!(animator.current_frame_index(water_id).is_some());
    assert_eq!(animator.current_frame_index(stone_id), None);
    assert_eq!(animator.current_tile(stone_id), None);
}

#[test]
fn test_frame_index_correct_at_each_tick() {
    let water_id = MaterialId(1);
    let mut animator = animator_with(vec![(water_id, vec![100, 101, 102], false)]);
    // (frames advanced, expected frame, expected tile); a third of a second at 3 fps is one frame
    let expected_sequence = [(0u64, 0usize, 100u32), (1, 1, 101), (1, 2, 102), (1, 0, 100), (1, 1, 101)];
    for (i, &(frames, expected_frame, expected_tile)) in expected_sequence.iter().enumerate() {
        if frames > 0 {
            animator.advance(water_id, frames);
        }
        assert_eq!(animator.current_frame_index(water_id), Some(expected_frame), "Frame index mismatch at step {i}");
        assert_eq!(animator.current_tile(water_id), Some(expected_tile), "Tile index mismatch at step {i}");
    }
}

#[test]
fn test_ping_pong_reverses_at_end() {
    let lava_id = MaterialId(2);
    let mut animator = animator_with(vec![(lava_id, vec![20, 21, 22], true)]);
    // each 0.5 s at 2 fps is one frame
    animator.advance(lava_id, 1);
    assert_eq!(animator.current_frame_index(lava_id), Some(1));
    animator.advance(lava_id, 1);
    assert_eq!(animator.current_frame_index(lava_id), Some(2));
    animator.advance(lava_id, 1);
    assert_eq!(animator.current_frame_index(lava_id), Some(1));
    animator.advance(lava_id, 1);
    assert_eq!(animator.current_frame_index(lava_id), Some(0));
    animator.advance(lava_id, 1);
    assert_eq!(animator.current_frame_index(lava_id), Some(1));
}
