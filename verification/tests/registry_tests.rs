use nebula::materials::atlas::{AtlasConfig, AtlasError, AtlasImage};
use nebula::materials::material::MaterialId;
use nebula::materials::registry::{
    placeholder_color, Face, MaterialRegistry, MaterialRegistryBuilder, MaterialTiles, RegistryError,
};

/// The sample manifest's atlas, with stone and dirt textures of 16 × 16
/// pixels placed as tiles and the two materials registered.
fn create_test_registry() -> MaterialRegistry {
    let mut b = MaterialRegistryBuilder::new(AtlasConfig { atlas_size: 256, tile_size: 16 }).unwrap();
    let stone_img = AtlasImage::from_pixel(16, 16, [128, 128, 128, 255]);
    let dirt_img = AtlasImage::from_pixel(16, 16, [139, 90, 43, 255]);
    let stone = b.add_texture_image("stone.png", &stone_img).unwrap();
    b.add_material("stone", MaterialTiles { top: stone, side: stone, bottom: stone }).unwrap();
    let dirt = b.add_texture_image("dirt.png", &dirt_img).unwrap();
    b.add_material("dirt", MaterialTiles { top: dirt, side: dirt, bottom: dirt }).unwrap();
    b.build()
}

#[test]
fn test_registry_loads_from_ron() {
    let registry = create_test_registry();
    // Fallback (ID 0) + stone (ID 1) + dirt (ID 2) = 3 materials
    assert_eq!(registry.len(), 3);
}

#[test]
fn test_all_material_ids_are_sequential() {
    let registry = create_test_registry();
    assert_eq!(registry.name(MaterialId(0)), "fallback");
    assert_eq!(registry.name(MaterialId(999)), "fallback");
    assert_eq!(registry.lookup_by_name("fallback"), Some(MaterialId(0)));
    assert_eq!(registry.lookup_by_name("stone"), Some(MaterialId(1)));
    assert_eq!(registry.lookup_by_name("dirt"), Some(MaterialId(2)));
}

#[test]
fn test_missing_material_returns_fallback() {
    let registry = create_test_registry();
    for face in [Face::Top, Face::Bottom, Face::North, Face::South, Face::East, Face::West] {
        assert_eq!(registry.face_tile(MaterialId(9999), face), registry.face_tile(MaterialId(0), face));
    }
    assert_eq!(registry.face_tile(MaterialId(0), Face::Top), 0);
}

#[test]
fn test_lookup_by_name() {
    let registry = create_test_registry();
    assert_eq!(registry.lookup_by_name("stone"), Some(MaterialId(1)));
    assert_eq!(registry.lookup_by_name("dirt"), Some(MaterialId(2)));
    assert_eq!(registry.lookup_by_name("nonexistent"), None);
}

#[test]
fn test_fallback_is_always_id_zero() {
    let registry = create_test_registry();
    assert_eq!(registry.name(MaterialId(0)), "fallback");
    assert_eq!(registry.name(MaterialId(999)), "fallback");
    assert_eq!(registry.lookup_by_name("fallback"), Some(MaterialId(0)));
    assert_eq!(registry.atlas().tile_index("__fallback__"), Some(0));
}

#[test]
fn test_is_empty() {
    let registry = create_test_registry();
    assert!(!registry.is_empty());
    let only_fallback = MaterialRegistryBuilder::new(AtlasConfig { atlas_size: 256, tile_size: 16 }).unwrap().build();
    assert!(only_fallback.is_empty());
    assert_eq!(only_fallback.len(), 1);
}

#[test]
fn test_duplicate_name_rejected() {
    let mut b = MaterialRegistryBuilder::new(AtlasConfig { atlas_size: 256, tile_size: 16 }).unwrap();
    let t = MaterialTiles { top: 0, side: 0, bottom: 0 };
    assert_eq!(b.add_material("stone", t).unwrap(), MaterialId(1));
    match b.add_material("stone", t) {
        Err(RegistryError::DuplicateName(n)) => assert_eq!(n, "stone"),
        other => panic!("expected DuplicateName, got {other:?}"),
    }
    // the fallback's name is taken too
    assert!(matches!(b.add_material("fallback", t), Err(RegistryError::DuplicateName(_))));
}

#[test]
fn registry_faces_use_their_group_tiles() {
    let mut b = MaterialRegistryBuilder::new(AtlasConfig { atlas_size: 64, tile_size: 16 }).unwrap();
    let top = b.add_placeholder("grass_top.png").unwrap();
    let side = b.add_placeholder("grass_side.png").unwrap();
    let bottom = b.add_placeholder("dirt.png").unwrap();
    assert_eq!((top, side, bottom), (1, 2, 3));
    // a tile name placed before keeps its index
    assert_eq!(b.add_placeholder("dirt.png").unwrap(), 3);
    assert_eq!(b.tile_index("grass_side.png"), Some(2));
    assert_eq!(b.tile_index("nope.png"), None);
    let id = b.add_material("grass", MaterialTiles { top, side, bottom }).unwrap();
    let r = b.build();
    assert_eq!(r.face_tile(id, Face::Top), 1);
    assert_eq!(r.face_tile(id, Face::East), 2);
    assert_eq!(r.face_tile(id, Face::South), 2);
    assert_eq!(r.face_tile(id, Face::Bottom), 3);
}

#[test]
fn registry_atlas_fills_up() {
    // a 32 × 32 atlas of 16-pixel tiles holds four tiles, the fallback's one
    let mut b = MaterialRegistryBuilder::new(AtlasConfig { atlas_size: 32, tile_size: 16 }).unwrap();
    for name in ["a", "b", "c"] {
        b.add_placeholder(name).unwrap();
    }
    match b.add_placeholder("d") {
        Err(RegistryError::Atlas(AtlasError::AtlasFull { max })) => assert_eq!(max, 4),
        other => panic!("expected AtlasFull, got {other:?}"),
    }
}

#[test]
fn registry_rejects_invalid_atlas_config() {
    match MaterialRegistryBuilder::new(AtlasConfig { atlas_size: 100, tile_size: 16 }) {
        Err(RegistryError::Atlas(AtlasError::InvalidConfig(m))) => assert_eq!(m, "atlas_size 100 is not a power of 2"),
        Err(other) => panic!("expected InvalidConfig, got {other:?}"),
        Ok(_) => panic!("expected an error"),
    }
}

#[test]
fn placeholder_colour_comes_from_the_name_hash() {
    // "a" hashes to 97: red and green 0, blue 97
    assert_eq!(placeholder_color("a"), [0, 0, 97, 255]);
    // "ab" = 97 * 31 + 98 = 3105 = 0x0c21
    assert_eq!(placeholder_color("ab"), [0, 0x0c, 0x21, 255]);
    assert_eq!(placeholder_color(""), [0, 0, 0, 255]);
}
