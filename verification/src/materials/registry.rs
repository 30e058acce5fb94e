//! Material registry: material ids assigned in order, lookup by name, and
//! the atlas tiles of each material's faces. Material id 0 is always the
//! fallback material with a magenta checkerboard tile.

use vstd::prelude::*;
use vstd::string::StringSliceAdditionalSpecFns;
use crate::materials::atlas::{
    config_error_message, config_valid, decoded_dims, decoded_fits, decoded_image, image_pixel, in_image, placed_or_kept, raw_pixel, over, tile_drawn, tile_of, slot_origin, find_name, has_name, image_dims, index_of_name, name_seq, resize_fits, rgba8_fits,
    AtlasBuilder, AtlasConfig, AtlasError, AtlasImage, TextureAtlas,
};
use crate::materials::material::{MaterialError, MaterialId};

verus! {

/// The error type of `ron` deserialization.
#[verifier::external_type_specification]
#[verifier::external_body]
pub struct ExSpannedError(ron::error::SpannedError);

/// Errors returned during registry construction.
#[derive(Debug)]
pub enum RegistryError {
    /// I/O error reading the manifest file.
    Io(std::io::Error),
    /// RON deserialization error.
    Ron(ron::error::SpannedError),
    /// Atlas construction error.
    Atlas(AtlasError),
    /// Material validation error.
    Material(MaterialError),
    /// Duplicate material name.
    DuplicateName(String),
    /// Texture file not found.
    TextureNotFound(String),
}

/// Face direction for tile lookups.
#[derive(Clone, Copy, Debug, PartialEq, Eq, Structural)]
pub enum Face {
    /// +Y face.
    Top,
    /// -Y face.
    Bottom,
    /// +Z face.
    North,
    /// -Z face.
    South,
    /// +X face.
    East,
    /// -X face.
    West,
}

/// The atlas tiles of one material: one for the top face, one for the four
/// side faces and one for the bottom face.
#[derive(Clone, Copy, Debug, PartialEq, Eq, Structural)]
pub struct MaterialTiles {
    /// Tile of the top face.
    pub top: u32,
    /// Tile of the four side faces.
    pub side: u32,
    /// Tile of the bottom face.
    pub bottom: u32,
}

/// The tile a face of a material with tiles `t` shows.
pub open spec fn face_tile_spec(t: MaterialTiles, face: Face) -> u32 {
    match face {
        Face::Top => t.top,
        Face::Bottom => t.bottom,
        _ => t.side,
    }
}

/// The placeholder hash of a texture name's bytes: starting from 0, each
/// byte is added to 31 times the hash so far, modulo 2^32.
pub open spec fn name_hash(b: Seq<u8>) -> u32
    decreases b.len(),
{
    if b.len() == 0 {
        0
    } else {
        ((name_hash(b.drop_last()) as int * 31 + b.last() as int) % 0x1_0000_0000) as u32
    }
}

/// The colour of the placeholder tile of a name with hash `h`: red, green
/// and blue from the hash's third, second and lowest byte, fully opaque.
pub open spec fn placeholder_rgba(h: u32) -> [u8; 4] {
    [((h / 0x1_0000) % 0x100) as u8, ((h / 0x100) % 0x100) as u8, (h % 0x100) as u8, 255]
}

/// One step of the hash with wrapping arithmetic.
proof fn lemma_hash_step(h: u32, b: u8)
    ensures
        h.wrapping_mul(31).wrapping_add(b as u32) == ((h as int * 31 + b as int) % 0x1_0000_0000) as u32,
{
    let m = (h as int * 31) % 0x1_0000_0000;
    assert(0 <= m < 0x1_0000_0000) by (nonlinear_arith)
        requires m == (h as int * 31) % 0x1_0000_0000;
    assert(h.wrapping_mul(31) == m);
    vstd::arithmetic::div_mod::lemma_add_mod_noop(h as int * 31, b as int, 0x1_0000_0000);
    vstd::arithmetic::div_mod::lemma_small_mod(b as nat, 0x1_0000_0000);
    let s = m + (b as int);
    if s >= 0x1_0000_0000 {
        assert(s % 0x1_0000_0000 == s - 0x1_0000_0000) by (nonlinear_arith)
            requires 0x1_0000_0000 <= s, s < 0x2_0000_0000;
    } else {
        vstd::arithmetic::div_mod::lemma_small_mod(s as nat, 0x1_0000_0000);
    }
}

/// The placeholder colour of a texture name (see [`placeholder_rgba`]).
pub fn placeholder_color(name: &str) -> (r: [u8; 4])
    ensures
        r == placeholder_rgba(name_hash(name.spec_bytes())),
{
    let bytes = name.as_bytes();
    let mut hash: u32 = 0;
    let mut i: usize = 0;
    while i < bytes.len()
        invariant
            i <= bytes@.len(),
            bytes@ == name.spec_bytes(),
            hash == name_hash(bytes@.take(i as int)),
        decreases bytes@.len() - i,
    {
        proof {
            lemma_hash_step(hash, bytes@[i as int]);
            assert(bytes@.take(i + 1).drop_last() =~= bytes@.take(i as int));
        }
        hash = hash.wrapping_mul(31).wrapping_add(bytes[i] as u32);
        i = i + 1;
    }
    proof {
        assert(bytes@.take(bytes@.len() as int) =~= bytes@);
    }
    let r = ((hash >> 16) & 0xFF) as u8;
    let g = ((hash >> 8) & 0xFF) as u8;
    let b = (hash & 0xFF) as u8;
    assert(((hash >> 16) & 0xFF) == (hash / 0x1_0000) % 0x100) by (bit_vector);
    assert(((hash >> 8) & 0xFF) == (hash / 0x100) % 0x100) by (bit_vector);
    assert((hash & 0xFF) == hash % 0x100) by (bit_vector);
    [r, g, b, 255]
}


/// The side of a checkerboard cell in an image `size` pixels wide: a
/// quarter of the size, at least one pixel.
pub open spec fn checker_cell(size: nat) -> nat {
    if size / 4 >= 1 {
        size / 4
    } else {
        1
    }
}

/// The RGBA bytes of a `size × size` checkerboard of colours `a` and `b`,
/// row by row: pixel `(x, y)` is `a` when its cell column plus cell row is
/// even, else `b`.
pub open spec fn checker_bytes(size: nat, a: [u8; 4], b: [u8; 4]) -> Seq<u8> {
    Seq::new(
        size * size * 4,
        |i: int|
            {
                let p = i / 4;
                let c = checker_cell(size);
                let x = p % (size as int);
                let y = p / (size as int);
                if (x / (c as int) + y / (c as int)) % 2 == 0 {
                    a[i % 4]
                } else {
                    b[i % 4]
                }
            },
    )
}

/// The bytes of a checkerboard image (see [`checker_bytes`]).
fn checkerboard_bytes(size: u32, a: [u8; 4], b: [u8; 4]) -> (r: Vec<u8>)
    requires
        0 < size,
        size as int * size as int * 4 <= isize::MAX,
    ensures
        r@ == checker_bytes(size as nat, a, b),
{
    let n: u64 = size as u64 * size as u64 * 4;
    let cell: u64 = if size as u64 / 4 >= 1 { size as u64 / 4 } else { 1 };
    let mut r: Vec<u8> = Vec::new();
    let mut i: u64 = 0;
    while i < n
        invariant
            n == size as int * size as int * 4,
            n <= isize::MAX,
            size > 0,
            cell == checker_cell(size as nat),
            i <= n,
            r@ == checker_bytes(size as nat, a, b).take(i as int),
        decreases n - i,
    {
        let p = i / 4;
        let x = p % size as u64;
        let y = p / size as u64;
        let byte = if (x / cell + y / cell) % 2 == 0 { a[(i % 4) as usize] } else { b[(i % 4) as usize] };
        r.push(byte);
        proof {
            assert(r@ =~= checker_bytes(size as nat, a, b).take(i + 1));
        }
        i = i + 1;
    }
    proof {
        assert(checker_bytes(size as nat, a, b).take(n as int) =~= checker_bytes(size as nat, a, b));
    }
    r
}

/// A `size × size` checkerboard image of colours `a` and `b`, cells a
/// quarter of the size wide.
fn checkerboard(size: u32, a: [u8; 4], b: [u8; 4]) -> (r: AtlasImage)
    requires
        0 < size,
        size as int * size as int * 4 <= isize::MAX,
    ensures
        image_dims(r) == (size, size),
        forall|x: int, y: int|
            #[trigger] in_image(r, x, y) ==> image_pixel(r, x, y) == raw_pixel(checker_bytes(size as nat, a, b), size as int, x, y),
{
    let bytes = checkerboard_bytes(size, a, b);
    match AtlasImage::from_raw(size, size, bytes) {
        Some(img) => img,
        None => {
            proof {
                assert(false);
            }
            AtlasImage::from_pixel(size, size, a)
        },
    }
}

/// Pixel `(x, y)` of the 32 × 32 magenta and black checkerboard of the
/// fallback material.
pub open spec fn fallback_pixel(x: int, y: int) -> Seq<u8> {
    raw_pixel(checker_bytes(32, [255u8, 0u8, 255u8, 255u8], [0u8, 0u8, 0u8, 255u8]), 32, x, y)
}

/// Whether atlas image `img` of configuration `c` holds just the fallback
/// tile: the checkerboard as a tile of the configured size (exactly the
/// checkerboard where that size is 32) drawn over a blank image in slot 0.
pub open spec fn fallback_atlas(img: AtlasImage, c: AtlasConfig) -> bool {
    &&& image_dims(img) == (c.atlas_size, c.atlas_size)
    &&& exists|tile: AtlasImage|
        #![trigger image_dims(tile), fallback_tile_drawn(img, c, tile)]
        image_dims(tile) == (c.tile_size, c.tile_size) && (c.tile_size == 32 ==> forall|x: int, y: int|
            #[trigger] in_image(tile, x, y) ==> image_pixel(tile, x, y) == fallback_pixel(x, y))
            && fallback_tile_drawn(img, c, tile)
}

/// Whether every pixel of `img` is `tile`'s drawn over blank in slot 0, or
/// blank outside it.
pub open spec fn fallback_tile_drawn(img: AtlasImage, c: AtlasConfig, tile: AtlasImage) -> bool {
    forall|px: int, py: int|
        #[trigger] in_image(img, px, py) ==> image_pixel(img, px, py) == if px < c.tile_size && py < c.tile_size {
            over(seq![0u8, 0u8, 0u8, 0u8], image_pixel(tile, px, py))
        } else {
            seq![0u8, 0u8, 0u8, 0u8]
        }
}

/// The name of the fallback material, id 0.
pub open spec fn fallback_name() -> Seq<char> {
    seq!['f', 'a', 'l', 'l', 'b', 'a', 'c', 'k']
}

/// The atlas tile name of the fallback checkerboard.
pub open spec fn fallback_tile_name() -> Seq<char> {
    seq!['_', '_', 'f', 'a', 'l', 'l', 'b', 'a', 'c', 'k', '_', '_']
}

/// The atlas configurations a registry is built for: valid, with a tile
/// count that fits a `u32` and an atlas whose mip chain can be allocated.
pub open spec fn registry_config_ok(c: AtlasConfig) -> bool {
    &&& config_valid(c)
    &&& c.tile_size > 0
    &&& (c.atlas_size / c.tile_size) * (c.atlas_size / c.tile_size) <= u32::MAX
    &&& c.atlas_size * c.atlas_size * 8 <= isize::MAX
}

/// Material names by id, the fallback first, no name twice.
pub open spec fn names_ok(names: Seq<Seq<char>>) -> bool {
    &&& names.len() >= 1
    &&& names[0] == fallback_name()
    &&& forall|i: int, j: int| 0 <= i < j < names.len() ==> #[trigger] names[i] != #[trigger] names[j]
}

/// Builds a [`MaterialRegistry`]: registers materials in order, each with
/// the atlas tiles of its faces, while the atlas fills up.
pub struct MaterialRegistryBuilder {
    atlas: AtlasBuilder,
    names: Vec<String>,
    tiles: Vec<MaterialTiles>,
}

impl MaterialRegistryBuilder {
    /// The material names, by id.
    pub closed spec fn material_names(&self) -> Seq<Seq<char>> {
        name_seq(self.names@)
    }

    /// The tiles of each material, by id.
    pub closed spec fn material_tiles(&self) -> Seq<MaterialTiles> {
        self.tiles@
    }

    /// The names of the atlas tiles placed so far, by tile index.
    pub closed spec fn tile_names(&self) -> Seq<Seq<char>> {
        self.atlas.names()
    }

    /// The atlas image as filled so far.
    pub closed spec fn atlas_image(&self) -> AtlasImage {
        self.atlas.image()
    }

    /// The atlas configuration.
    pub closed spec fn config(&self) -> AtlasConfig {
        self.atlas.spec_config()
    }

    /// The builder's invariant.
    pub closed spec fn wf(&self) -> bool {
        &&& self.atlas.well_formed()
        &&& registry_config_ok(self.atlas.spec_config())
        &&& names_ok(name_seq(self.names@))
        &&& self.names@.len() == self.tiles@.len()
    }

    /// A builder for an atlas of configuration `config`, holding the
    /// fallback material (id 0, a magenta and black checkerboard tile named
    /// `__fallback__`); fails when the configuration is not valid.
    pub fn new(config: AtlasConfig) -> (r: Result<Self, RegistryError>)
        requires
            config_valid(config) ==> registry_config_ok(config),
        ensures
            !config_valid(config) ==> (r matches Err(RegistryError::Atlas(AtlasError::InvalidConfig(m))) && m@
                == config_error_message(config)),
            config_valid(config) ==> (r matches Ok(b) && b.wf() && b.config() == config && b.material_names() == seq![
                fallback_name(),
            ] && b.material_tiles() == seq![MaterialTiles { top: 0, side: 0, bottom: 0 }] && b.tile_names() == seq![
                fallback_tile_name(),
            ] && fallback_atlas(b.atlas_image(), config)),
    {
        match config.validate() {
            Err(e) => return Err(RegistryError::Atlas(e)),
            Ok(()) => {},
        }
        assert(config.tile_size <= config.atlas_size);
        assert(config.atlas_size as int * config.atlas_size as int * 4 <= isize::MAX);
        assert(config.tile_size as int * config.tile_size as int * 4 <= isize::MAX) by (nonlinear_arith)
            requires
                0 < config.tile_size <= config.atlas_size,
                config.atlas_size as int * config.atlas_size as int * 4 <= isize::MAX;
        assert(32 * config.tile_size as int * 16 <= isize::MAX) by (nonlinear_arith)
            requires
                0 < config.tile_size <= config.atlas_size,
                config.atlas_size as int * config.atlas_size as int * 8 <= isize::MAX;
        let mut atlas = AtlasBuilder::new(config);
        let ghost blank = atlas.image();
        let img = checkerboard(32, [255, 0, 255, 255], [0, 0, 0, 255]);
        let tile = match atlas.add_texture_from_image("__fallback__", &img) {
            Ok(t) => t,
            Err(e) => {
                proof {
                    reveal_strlit("__fallback__");
                    assert(config.atlas_size / config.tile_size >= 1) by (nonlinear_arith)
                        requires 0 < config.tile_size <= config.atlas_size;
                    assert((config.atlas_size / config.tile_size) * (config.atlas_size / config.tile_size) >= 1)
                        by (nonlinear_arith)
                        requires config.atlas_size / config.tile_size >= 1;
                    assert(!has_name(Seq::<Seq<char>>::empty(), "__fallback__"@));
                }
                return Err(RegistryError::Atlas(e));
            },
        };
        let mut names: Vec<String> = Vec::new();
        names.push("fallback".to_owned());
        let mut tiles: Vec<MaterialTiles> = Vec::new();
        tiles.push(MaterialTiles { top: tile, side: tile, bottom: tile });
        proof {
            reveal_strlit("fallback");
            reveal_strlit("__fallback__");
            assert(config.atlas_size / config.tile_size >= 1) by (nonlinear_arith)
                requires 0 < config.tile_size <= config.atlas_size;
            assert((config.atlas_size / config.tile_size) * (config.atlas_size / config.tile_size) >= 1)
                by (nonlinear_arith)
                requires config.atlas_size / config.tile_size >= 1;
            assert(!has_name(Seq::<Seq<char>>::empty(), "__fallback__"@));
            assert("fallback"@ =~= fallback_name());
            assert("__fallback__"@ =~= fallback_tile_name());
            assert(name_seq(names@) =~= seq![fallback_name()]);
            assert(atlas.names() =~= seq![fallback_tile_name()]);
            let t = choose|t: AtlasImage|
                #[trigger] tile_drawn(blank, atlas.image(), config, 0, t) && tile_of(img, config.tile_size, t);
            assert(slot_origin(config, 0) == (0int, 0int)) by (nonlinear_arith)
                requires config.tile_size > 0, config.atlas_size / config.tile_size >= 1;
            assert forall|px: int, py: int| #[trigger] in_image(atlas.image(), px, py) implies image_pixel(
                atlas.image(),
                px,
                py,
            ) == (if px < config.tile_size && py < config.tile_size {
                over(seq![0u8, 0u8, 0u8, 0u8], image_pixel(t, px, py))
            } else {
                seq![0u8, 0u8, 0u8, 0u8]
            }) by {
                assert(in_image(blank, px, py));
                assert(image_pixel(blank, px, py) == seq![0u8, 0u8, 0u8, 0u8]);
            }
            assert(fallback_tile_drawn(atlas.image(), config, t));
            if config.tile_size == 32 {
                assert forall|x: int, y: int| #[trigger] in_image(t, x, y) implies image_pixel(t, x, y) == fallback_pixel(x, y) by {
                    assert(in_image(img, x, y));
                }
            }
            assert(fallback_atlas(atlas.image(), config));
        }
        Ok(MaterialRegistryBuilder { atlas, names, tiles })
    }

    /// The atlas configuration.
    pub fn atlas_config(&self) -> (r: AtlasConfig)
        ensures
            r == self.config(),
    {
        *self.atlas.config()
    }

    /// Whether a material named `name` is registered.
    pub fn contains(&self, name: &str) -> (r: bool)
        ensures
            r == has_name(self.material_names(), name@),
    {
        let owned = name.to_owned();
        match find_name(&self.names, &owned) {
            Some(i) => {
                assert(self.material_names()[i as int] == name@);
                true
            },
            None => {
                assert forall|j: int| 0 <= j < self.material_names().len() implies self.material_names()[j] != name@ by {
                    assert(self.names@[j]@ != owned@);
                }
                false
            },
        }
    }

    /// The index of the atlas tile named `name`, if one was placed.
    pub fn tile_index(&self, name: &str) -> (r: Option<u32>)
        requires
            self.wf(),
        ensures
            has_name(self.tile_names(), name@) ==> r == Some(index_of_name(self.tile_names(), name@) as u32),
            !has_name(self.tile_names(), name@) ==> r is None,
    {
        self.atlas.tile_index(name)
    }

    /// Places the image `img` as the atlas tile named `key` (a name placed
    /// before keeps its tile) and returns its index; fails when the atlas is
    /// full.
    pub fn add_texture_image(&mut self, key: &str, img: &AtlasImage) -> (r: Result<u32, RegistryError>)
        requires
            old(self).wf(),
            resize_fits(
                image_dims(*img).0 as int,
                image_dims(*img).1 as int,
                old(self).config().tile_size as int,
                old(self).config().tile_size as int,
            ),
        ensures
            final(self).wf(),
            final(self).config() == old(self).config(),
            final(self).material_names() == old(self).material_names(),
            final(self).material_tiles() == old(self).material_tiles(),
            tile_added(old(self).tile_names(), final(self).tile_names(), old(self).config(), key@, r),
            placed_or_kept(
                old(self).tile_names(),
                final(self).tile_names(),
                old(self).atlas_image(),
                final(self).atlas_image(),
                old(self).config(),
                *img,
            ),
    {
        let r = self.atlas.add_texture_from_image(key, img);
        match r {
            Ok(t) => Ok(t),
            Err(e) => Err(RegistryError::Atlas(e)),
        }
    }

    /// Decodes the image file held in `bytes` and places it as the atlas
    /// tile named `key`, resized to the tile size (a name placed before
    /// keeps its tile, and nothing is decoded); fails when the bytes do not
    /// decode, when the image is too large to resize, or when the atlas is
    /// full.
    pub fn add_texture_bytes(&mut self, key: &str, bytes: &[u8]) -> (r: Result<u32, RegistryError>)
        requires
            old(self).wf(),
        ensures
            final(self).wf(),
            final(self).config() == old(self).config(),
            final(self).material_names() == old(self).material_names(),
            final(self).material_tiles() == old(self).material_tiles(),
            has_name(old(self).tile_names(), key@) || decoded_fits(bytes@, old(self).config().tile_size) ==> tile_added(
                old(self).tile_names(),
                final(self).tile_names(),
                old(self).config(),
                key@,
                r,
            ),
            !has_name(old(self).tile_names(), key@) && decoded_dims(bytes@) is None ==> (r matches Err(
                RegistryError::Atlas(AtlasError::ImageLoad(_)),
            )) && final(self).tile_names() == old(self).tile_names(),
            !has_name(old(self).tile_names(), key@) && decoded_dims(bytes@) is Some && !decoded_fits(
                bytes@,
                old(self).config().tile_size,
            ) ==> (r matches Err(RegistryError::Atlas(AtlasError::InvalidConfig(_))))
                && final(self).tile_names() == old(self).tile_names(),
            decoded_image(bytes@) is None ==> final(self).atlas_image() == old(self).atlas_image(),
            decoded_image(bytes@) is Some ==> placed_or_kept(
                old(self).tile_names(),
                final(self).tile_names(),
                old(self).atlas_image(),
                final(self).atlas_image(),
                old(self).config(),
                decoded_image(bytes@)->Some_0,
            ),
    {
        let r = self.atlas.add_texture_from_bytes(key, bytes);
        match r {
            Ok(t) => Ok(t),
            Err(e) => Err(RegistryError::Atlas(e)),
        }
    }

    /// Places a one-colour 32 × 32 placeholder tile named `name`, coloured
    /// by [`placeholder_color`]`(name)`, and returns its index (a name
    /// placed before keeps its tile); fails when the atlas is full.
    pub fn add_placeholder(&mut self, name: &str) -> (r: Result<u32, RegistryError>)
        requires
            old(self).wf(),
        ensures
            final(self).wf(),
            final(self).config() == old(self).config(),
            final(self).material_names() == old(self).material_names(),
            final(self).material_tiles() == old(self).material_tiles(),
            tile_added(old(self).tile_names(), final(self).tile_names(), old(self).config(), name@, r),
            exists|src: AtlasImage|
                #![trigger placed_or_kept(
                    old(self).tile_names(),
                    final(self).tile_names(),
                    old(self).atlas_image(),
                    final(self).atlas_image(),
                    old(self).config(),
                    src,
                )]
                image_dims(src) == (32u32, 32u32) && (forall|x: int, y: int|
                    #[trigger] in_image(src, x, y) ==> image_pixel(src, x, y) == placeholder_rgba(
                        name_hash(name.spec_bytes()),
                    )@) && placed_or_kept(
                    old(self).tile_names(),
                    final(self).tile_names(),
                    old(self).atlas_image(),
                    final(self).atlas_image(),
                    old(self).config(),
                    src,
                ),
    {
        let c = self.atlas.config();
        let tile = c.tile_size;
        let size = c.atlas_size;
        assert(tile as int * tile as int * 4 <= isize::MAX) by (nonlinear_arith)
            requires
                0 < tile <= size,
                size as int * size as int * 8 <= isize::MAX;
        assert(32 * tile as int * 16 <= isize::MAX) by (nonlinear_arith)
            requires
                0 < tile <= size,
                size as int * size as int * 8 <= isize::MAX;
        let rgba = placeholder_color(name);
        let img = AtlasImage::from_pixel(32, 32, rgba);
        self.add_texture_image(name, &img)
    }

    /// Registers material `name` with the tiles `tiles` under the next id
    /// (the number of materials so far, as a `u16`); fails, changing
    /// nothing, when a material of that name is registered already.
    pub fn add_material(&mut self, name: &str, tiles: MaterialTiles) -> (r: Result<MaterialId, RegistryError>)
        requires
            old(self).wf(),
        ensures
            final(self).wf(),
            final(self).config() == old(self).config(),
            final(self).tile_names() == old(self).tile_names(),
            has_name(old(self).material_names(), name@) ==> (r matches Err(RegistryError::DuplicateName(n)) && n@
                == name@) && final(self).material_names() == old(self).material_names() && final(self).material_tiles()
                == old(self).material_tiles(),
            !has_name(old(self).material_names(), name@) ==> r == Ok::<MaterialId, RegistryError>(
                MaterialId(old(self).material_names().len() as u16),
            ) && final(self).material_names() == old(self).material_names().push(name@) && final(self).material_tiles()
                == old(self).material_tiles().push(tiles),
    {
        if self.contains(name) {
            return Err(RegistryError::DuplicateName(name.to_owned()));
        }
        let id = MaterialId(self.names.len() as u16);
        let ghost before = self.material_names();
        self.names.push(name.to_owned());
        self.tiles.push(tiles);
        proof {
            assert(self.material_names() =~= before.push(name@));
            assert forall|i: int, j: int|
                0 <= i < j < self.material_names().len() implies #[trigger] self.material_names()[i]
                != #[trigger] self.material_names()[j] by {
                if j == before.len() {
                    assert(self.material_names()[i] == before[i]);
                }
            }
        }
        Ok(id)
    }

    /// The finished registry: the materials as registered and the built
    /// atlas.
    pub fn build(self) -> (r: MaterialRegistry)
        requires
            self.wf(),
        ensures
            r.wf(),
            r.names() == self.material_names(),
            r.tiles() == self.material_tiles(),
            r.built_atlas().config == self.config(),
            name_seq(r.built_atlas().tile_map@) == self.tile_names(),
    {
        let MaterialRegistryBuilder { atlas, names, tiles } = self;
        let built = atlas.build();
        MaterialRegistry { names, tiles, atlas: built }
    }
}

/// How placing the tile named `name` changed the atlas tile names from
/// `before` to `after` and what it returned: a name placed before keeps its
/// index; a new name goes in the next slot; when no slot is left the atlas
/// is full.
pub open spec fn tile_added(
    before: Seq<Seq<char>>,
    after: Seq<Seq<char>>,
    c: AtlasConfig,
    name: Seq<char>,
    r: Result<u32, RegistryError>,
) -> bool {
    let max = (c.atlas_size / c.tile_size) * (c.atlas_size / c.tile_size);
    if has_name(before, name) {
        r == Ok::<u32, RegistryError>(index_of_name(before, name) as u32) && after == before
    } else if before.len() >= max {
        (r matches Err(RegistryError::Atlas(AtlasError::AtlasFull { max: m })) && m == max) && after == before
    } else {
        r == Ok::<u32, RegistryError>(before.len() as u32) && after == before.push(name)
    }
}

/// Unified registry mapping [`MaterialId`] to names and atlas tiles.
///
/// `MaterialId(0)` is always the fallback (magenta checkerboard). The
/// registry is immutable after construction.
pub struct MaterialRegistry {
    names: Vec<String>,
    tiles: Vec<MaterialTiles>,
    atlas: TextureAtlas,
}

impl MaterialRegistry {
    /// The material names, by id.
    pub closed spec fn names(&self) -> Seq<Seq<char>> {
        name_seq(self.names@)
    }

    /// The tiles of each material, by id.
    pub closed spec fn tiles(&self) -> Seq<MaterialTiles> {
        self.tiles@
    }

    /// The built texture atlas.
    pub closed spec fn built_atlas(&self) -> TextureAtlas {
        self.atlas
    }

    /// The fallback first, no name twice, one tile set per material.
    pub closed spec fn wf(&self) -> bool {
        &&& names_ok(name_seq(self.names@))
        &&& self.names@.len() == self.tiles@.len()
    }

    /// The name of material `id`; an id out of range gives the fallback's.
    pub fn name(&self, id: MaterialId) -> (r: &str)
        requires
            self.wf(),
        ensures
            r@ == if (id.0 as int) < self.names().len() {
                self.names()[id.0 as int]
            } else {
                self.names()[0]
            },
    {
        let i = if (id.0 as usize) < self.names.len() {
            id.0 as usize
        } else {
            0
        };
        self.names[i].as_str()
    }

    /// The tile the face `face` of material `id` shows; an id out of range
    /// gives the fallback's.
    pub fn face_tile(&self, id: MaterialId, face: Face) -> (r: u32)
        requires
            self.wf(),
        ensures
            r == face_tile_spec(
                if (id.0 as int) < self.tiles().len() {
                    self.tiles()[id.0 as int]
                } else {
                    self.tiles()[0]
                },
                face,
            ),
    {
        let t = if (id.0 as usize) < self.tiles.len() {
            self.tiles[id.0 as usize]
        } else {
            self.tiles[0]
        };
        match face {
            Face::Top => t.top,
            Face::Bottom => t.bottom,
            _ => t.side,
        }
    }

    /// The id of the material named `name`: its position among the
    /// registered names, as a `u16`.
    pub fn lookup_by_name(&self, name: &str) -> (r: Option<MaterialId>)
        ensures
            has_name(self.names(), name@) ==> r == Some(MaterialId(index_of_name(self.names(), name@) as u16)),
            !has_name(self.names(), name@) ==> r is None,
    {
        let owned = name.to_owned();
        let ghost names = self.names();
        match find_name(&self.names, &owned) {
            Some(i) => {
                proof {
                    assert(names[i as int] == name@);
                    let k = index_of_name(names, name@);
                    if k != i {
                        if k < i {
                            assert(names[k] == name@);
                        } else {
                            assert(names[i as int] == name@);
                        }
                    }
                }
                Some(MaterialId(i as u16))
            },
            None => {
                proof {
                    assert forall|j: int| 0 <= j < names.len() implies names[j] != name@ by {
                        assert(self.names@[j]@ != owned@);
                    }
                }
                None
            },
        }
    }

    /// The underlying texture atlas, for GPU upload.
    pub fn atlas(&self) -> (r: &TextureAtlas)
        ensures
            *r == self.built_atlas(),
    {
        &self.atlas
    }

    /// Number of registered materials (including the fallback at ID 0).
    pub fn len(&self) -> (r: usize)
        ensures
            r == self.names().len(),
    {
        self.names.len()
    }

    /// Whether the registry holds no user materials (only the fallback).
    pub fn is_empty(&self) -> (r: bool)
        ensures
            r == (self.names().len() <= 1),
    {
        self.names.len() <= 1
    }
}

/// In a registry, looking up the name of the material with id `i` finds
/// id `i`: ids are handed out in order, one per name, the fallback's being
/// 0.
pub proof fn lemma_registry_ids_sequential(names: Seq<Seq<char>>, i: int)
    requires
        names_ok(names),
        0 <= i < names.len(),
    ensures
        has_name(names, names[i]),
        index_of_name(names, names[i]) == i,
        index_of_name(names, fallback_name()) == 0,
{
    assert(has_name(names, names[i]));
    let k = index_of_name(names, names[i]);
    if k != i {
        if k < i {
            assert(names[k] != names[i]);
        } else {
            assert(names[i] != names[k]);
        }
    }
    assert(has_name(names, names[0]));
}

/// Each face of a material shows the tile given for it: the top face the
/// top tile, the bottom face the bottom tile, and the four side faces
/// (north, south, east and west) all the one side tile.
pub proof fn lemma_face_tiles(t: MaterialTiles, f: Face)
    ensures
        face_tile_spec(t, Face::Top) == t.top,
        face_tile_spec(t, Face::Bottom) == t.bottom,
        face_tile_spec(t, Face::North) == t.side,
        face_tile_spec(t, Face::South) == t.side,
        face_tile_spec(t, Face::East) == t.side,
        face_tile_spec(t, Face::West) == t.side,
        f != Face::Top && f != Face::Bottom ==> face_tile_spec(t, f) == face_tile_spec(t, Face::North),
{
}

} // verus!
