//! Voxel texture atlas: packs square tile textures into one grid texture and
//! builds its mipmap chain.

use vstd::prelude::*;
use vstd::arithmetic::power2::pow2;
use crate::math::units::{push_decimal, nat_to_decimal};

verus! {

/// The error type of the `image` crate.
#[verifier::external_type_specification]
#[verifier::external_body]
pub struct ExImageError(image::ImageError);

/// Whether `n` is a power of two, `2^k` for some `k`.
pub open spec fn is_pow2(n: int) -> bool {
    exists|k: nat| k < 32 && n == pow2(k)
}

/// The powers of two that fit in a `u32` are exactly the numbers with a
/// single bit set.
proof fn lemma_single_bit_is_pow2(n: u32)
    ensures
        (n != 0 && n & ((n - 1) as u32) == 0) == is_pow2(n as int),
{
    vstd::arithmetic::power2::lemma2_to64();
    let b = n != 0 && n & ((n - 1) as u32) == 0;
    if b {
        assert(n == 1 || n == 2 || n == 4 || n == 8 || n == 16 || n == 32 || n == 64 || n == 128 || n == 256
            || n == 512 || n == 1024 || n == 2048 || n == 4096 || n == 8192 || n == 16384 || n == 32768
            || n == 65536 || n == 131072 || n == 262144 || n == 524288 || n == 1048576 || n == 2097152
            || n == 4194304 || n == 8388608 || n == 16777216 || n == 33554432 || n == 67108864
            || n == 134217728 || n == 268435456 || n == 536870912 || n == 1073741824 || n == 2147483648) by (bit_vector)
            requires
                n != 0 && n & ((n - 1) as u32) == 0,
        ;
        if n == 1 { assert(n == pow2(0)); }
        else if n == 2 { assert(n == pow2(1)); }
        else if n == 4 { assert(n == pow2(2)); }
        else if n == 8 { assert(n == pow2(3)); }
        else if n == 16 { assert(n == pow2(4)); }
        else if n == 32 { assert(n == pow2(5)); }
        else if n == 64 { assert(n == pow2(6)); }
        else if n == 128 { assert(n == pow2(7)); }
        else if n == 256 { assert(n == pow2(8)); }
        else if n == 512 { assert(n == pow2(9)); }
        else if n == 1024 { assert(n == pow2(10)); }
        else if n == 2048 { assert(n == pow2(11)); }
        else if n == 4096 { assert(n == pow2(12)); }
        else if n == 8192 { assert(n == pow2(13)); }
        else if n == 16384 { assert(n == pow2(14)); }
        else if n == 32768 { assert(n == pow2(15)); }
        else if n == 65536 { assert(n == pow2(16)); }
        else if n == 131072 { assert(n == pow2(17)); }
        else if n == 262144 { assert(n == pow2(18)); }
        else if n == 524288 { assert(n == pow2(19)); }
        else if n == 1048576 { assert(n == pow2(20)); }
        else if n == 2097152 { assert(n == pow2(21)); }
        else if n == 4194304 { assert(n == pow2(22)); }
        else if n == 8388608 { assert(n == pow2(23)); }
        else if n == 16777216 { assert(n == pow2(24)); }
        else if n == 33554432 { assert(n == pow2(25)); }
        else if n == 67108864 { assert(n == pow2(26)); }
        else if n == 134217728 { assert(n == pow2(27)); }
        else if n == 268435456 { assert(n == pow2(28)); }
        else if n == 536870912 { assert(n == pow2(29)); }
        else if n == 1073741824 { assert(n == pow2(30)); }
        else { assert(n == pow2(31)); }
    } else {
        if is_pow2(n as int) {
            let k = choose|k: nat| k < 32 && n == pow2(k);
            assert(n == 1 || n == 2 || n == 4 || n == 8 || n == 16 || n == 32 || n == 64 || n == 128 || n == 256
                || n == 512 || n == 1024 || n == 2048 || n == 4096 || n == 8192 || n == 16384 || n == 32768
                || n == 65536 || n == 131072 || n == 262144 || n == 524288 || n == 1048576 || n == 2097152
                || n == 4194304 || n == 8388608 || n == 16777216 || n == 33554432 || n == 67108864
                || n == 134217728 || n == 268435456 || n == 536870912 || n == 1073741824 || n == 2147483648);
            assert(n != 0 && n & ((n - 1) as u32) == 0) by (bit_vector)
                requires
                    n == 1 || n == 2 || n == 4 || n == 8 || n == 16 || n == 32 || n == 64 || n == 128 || n == 256
                    || n == 512 || n == 1024 || n == 2048 || n == 4096 || n == 8192 || n == 16384 || n == 32768
                    || n == 65536 || n == 131072 || n == 262144 || n == 524288 || n == 1048576 || n == 2097152
                    || n == 4194304 || n == 8388608 || n == 16777216 || n == 33554432 || n == 67108864
                    || n == 134217728 || n == 268435456 || n == 536870912 || n == 1073741824 || n == 2147483648,
            ;
        }
    }
}

/// Whether `n` is a power of two: a single bit is set.
fn power_of_two(n: u32) -> (r: bool)
    ensures
        r == is_pow2(n as int),
{
    proof {
        lemma_single_bit_is_pow2(n);
    }
    n != 0 && n & (n - 1) == 0
}

/// Errors returned while building an atlas.
#[derive(Debug)]
pub enum AtlasError {
    /// The atlas is full: no tile slot is left.
    AtlasFull {
        /// The number of tiles the atlas holds.
        max: u32,
    },
    /// An image file could not be loaded.
    ImageLoad(image::ImageError),
    /// The configuration is not valid.
    InvalidConfig(String),
}

/// Configuration for atlas construction.
#[derive(Clone, Copy, Debug, PartialEq, Eq, Structural)]
pub struct AtlasConfig {
    /// Width and height of the atlas texture in pixels; a power of 2
    /// (256, 512, 1024, 2048 or 4096 are supported).
    pub atlas_size: u32,
    /// Width and height of each tile in pixels; a power of 2 that evenly
    /// divides `atlas_size`.
    pub tile_size: u32,
}

/// The message of an invalid configuration, by the first check that fails.
pub open spec fn config_error_message(c: AtlasConfig) -> Seq<char> {
    if !is_pow2(c.atlas_size as int) {
        "atlas_size "@ + nat_to_decimal(c.atlas_size as nat) + " is not a power of 2"@
    } else if !is_pow2(c.tile_size as int) {
        "tile_size "@ + nat_to_decimal(c.tile_size as nat) + " is not a power of 2"@
    } else if c.atlas_size % c.tile_size != 0 {
        "tile_size "@ + nat_to_decimal(c.tile_size as nat) + " does not evenly divide atlas_size "@
            + nat_to_decimal(c.atlas_size as nat)
    } else {
        "tile_size must be <= atlas_size"@
    }
}

/// Whether a configuration passes validation.
pub open spec fn config_valid(c: AtlasConfig) -> bool {
    is_pow2(c.atlas_size as int) && is_pow2(c.tile_size as int) && c.atlas_size % c.tile_size == 0
        && c.tile_size <= c.atlas_size
}

impl AtlasConfig {
    /// The number of tiles in one row of the atlas.
    pub fn tiles_per_row(&self) -> (r: u32)
        requires
            self.tile_size > 0,
        ensures
            r == self.atlas_size / self.tile_size,
    {
        self.atlas_size / self.tile_size
    }

    /// The number of tiles the atlas holds.
    pub fn max_tiles(&self) -> (r: u32)
        requires
            self.tile_size > 0,
            (self.atlas_size / self.tile_size) * (self.atlas_size / self.tile_size) <= u32::MAX,
        ensures
            r == (self.atlas_size / self.tile_size) * (self.atlas_size / self.tile_size),
    {
        let per_row = self.tiles_per_row();
        per_row * per_row
    }

    /// Checks that both sizes are powers of two and that the tile size
    /// evenly divides the atlas size.
    pub fn validate(&self) -> (r: Result<(), AtlasError>)
        ensures
            config_valid(*self) <==> r is Ok,
            !config_valid(*self) ==> (r matches Err(AtlasError::InvalidConfig(m)) && m@ == config_error_message(*self)),
    {
        if !power_of_two(self.atlas_size) {
            let mut m = "atlas_size ".to_owned();
            push_decimal(&mut m, self.atlas_size as u128);
            m.append(" is not a power of 2");
            return Err(AtlasError::InvalidConfig(m));
        }
        if !power_of_two(self.tile_size) {
            let mut m = "tile_size ".to_owned();
            push_decimal(&mut m, self.tile_size as u128);
            m.append(" is not a power of 2");
            return Err(AtlasError::InvalidConfig(m));
        }
        proof {
            lemma_pow2_positive(self.tile_size as int);
        }
        if !self.atlas_size.is_multiple_of(self.tile_size) {
            let mut m = "tile_size ".to_owned();
            push_decimal(&mut m, self.tile_size as u128);
            m.append(" does not evenly divide atlas_size ");
            push_decimal(&mut m, self.atlas_size as u128);
            return Err(AtlasError::InvalidConfig(m));
        }
        if self.tile_size > self.atlas_size {
            return Err(AtlasError::InvalidConfig("tile_size must be <= atlas_size".to_owned()));
        }
        Ok(())
    }
}

/// A power of two is positive.
proof fn lemma_pow2_positive(n: int)
    requires
        is_pow2(n),
    ensures
        n > 0,
{
    let k = choose|k: nat| k < 32 && n == pow2(k);
    vstd::arithmetic::power2::lemma_pow2_pos(k);
}

/// Which atlas tiles a voxel type uses.
#[derive(Clone, Debug)]
pub enum VoxelTextures {
    /// All six faces use the same texture.
    Uniform {
        /// Texture name (key into the atlas tile map).
        texture: String,
    },
    /// Top, side and bottom are distinct.
    TopSideBottom {
        /// Texture of the +Y face.
        top: String,
        /// Texture of the ±X and ±Z faces.
        side: String,
        /// Texture of the −Y face.
        bottom: String,
    },
}

/// An RGBA image with 8 bits per channel, held as an `image::RgbaImage`.
///
/// Contracts speak of an image by its dimensions ([`image_dims`]) and its
/// pixels ([`image_pixel`]).
#[verifier::external_body]
pub struct AtlasImage {
    img: image::RgbaImage,
}

/// The width and height an image was made with.
pub uninterp spec fn image_dims(img: AtlasImage) -> (u32, u32);

/// The four RGBA bytes of pixel `(x, y)` of an image, as
/// `ImageBuffer::get_pixel` reads them, for `x` below the width and `y`
/// below the height.
pub uninterp spec fn image_pixel(img: AtlasImage, x: int, y: int) -> Seq<u8>;

/// Whether `(x, y)` is a pixel of `img`.
pub open spec fn in_image(img: AtlasImage, x: int, y: int) -> bool {
    0 <= x < image_dims(img).0 && 0 <= y < image_dims(img).1
}

/// The RGBA bytes of pixel `(x, y)` of a row-major buffer `w` pixels wide.
pub open spec fn raw_pixel(data: Seq<u8>, w: int, x: int, y: int) -> Seq<u8> {
    data.subrange(4 * (y * w + x), 4 * (y * w + x) + 4)
}

/// What `Rgba::blend` makes of pixel `bottom` when a pixel `top` whose
/// alpha is neither 0 nor 255 is drawn over it (computed in `f32`).
pub uninterp spec fn blend_partial(bottom: Seq<u8>, top: Seq<u8>) -> Seq<u8>;

/// `top` drawn over `bottom` as `Rgba::blend` does it: a transparent `top`
/// leaves `bottom`, an opaque one replaces it, any other alpha blends.
pub open spec fn over(bottom: Seq<u8>, top: Seq<u8>) -> Seq<u8> {
    if top[3] == 0 {
        bottom
    } else if top[3] == 255 {
        top
    } else {
        blend_partial(bottom, top)
    }
}

/// Whether an 8-bit RGBA buffer of `w × h` pixels can be allocated.
pub open spec fn rgba8_fits(w: int, h: int) -> bool {
    w * h * 4 <= isize::MAX
}

/// Whether `image::imageops::resize` of a `w0 × h0` image to `w × h` can
/// allocate its buffers: the result, and, where it resamples, an
/// intermediate `w0 × h` buffer of 32-bit float channels.
pub open spec fn resize_fits(w0: int, h0: int, w: int, h: int) -> bool {
    &&& rgba8_fits(w, h)
    &&& (w0 == 0 || h0 == 0 || (w0 == w && h0 == h) || w0 * h * 16 <= isize::MAX)
}

/// The RGBA bytes of pixel `(x, y)` of `image::imageops::resize` of `img`
/// to `w × h` with `FilterType::Triangle`. The triangle kernel and the
/// sampling around it use only exactly rounded `f32` operations, `floor`
/// and `ceil`, so the result depends on the image and the size alone.
pub uninterp spec fn triangle_resampled_pixel(img: AtlasImage, w: u32, h: u32, x: int, y: int) -> Seq<u8>;

/// The resampling filter used when resizing.
#[derive(Clone, Copy, Debug, PartialEq, Eq, Structural)]
pub enum ResizeFilter {
    /// Lanczos with window 3.
    Lanczos3,
    /// Linear (triangle) filter.
    Triangle,
}

impl AtlasImage {
    /// `ImageBuffer::new`: an all-zero image of `width × height` pixels.
    #[verifier::external_body]
    pub(crate) fn new(width: u32, height: u32) -> (r: AtlasImage)
        requires
            rgba8_fits(width as int, height as int),
        ensures
            image_dims(r) == (width, height),
            forall|x: int, y: int| #[trigger] in_image(r, x, y) ==> image_pixel(r, x, y) == seq![0u8, 0u8, 0u8, 0u8],
    {
        AtlasImage { img: image::RgbaImage::new(width, height) }
    }

    /// `ImageBuffer::from_pixel`: an image of `width × height` pixels, all
    /// of colour `rgba`.
    #[verifier::external_body]
    pub fn from_pixel(width: u32, height: u32, rgba: [u8; 4]) -> (r: AtlasImage)
        requires
            rgba8_fits(width as int, height as int),
        ensures
            image_dims(r) == (width, height),
            forall|x: int, y: int| #[trigger] in_image(r, x, y) ==> image_pixel(r, x, y) == rgba@,
    {
        AtlasImage { img: image::RgbaImage::from_pixel(width, height, image::Rgba(rgba)) }
    }

    /// `ImageBuffer::from_raw`: the image whose row-major RGBA bytes are
    /// `data`; `None` when `data` is too short for `width × height` pixels.
    #[verifier::external_body]
    pub fn from_raw(width: u32, height: u32, data: Vec<u8>) -> (r: Option<AtlasImage>)
        ensures
            r is Some <==> (width as int) * (height as int) * 4 <= data@.len(),
            r is Some ==> image_dims(r->0) == (width, height),
            r is Some ==> forall|x: int, y: int|
                #[trigger] in_image(r->0, x, y) ==> image_pixel(r->0, x, y) == raw_pixel(data@, width as int, x, y),
    {
        match image::RgbaImage::from_raw(width, height, data) {
            Some(img) => Some(AtlasImage { img }),
            None => None,
        }
    }

    /// `ImageBuffer::width`.
    #[verifier::external_body]
    pub fn width(&self) -> (r: u32)
        ensures
            r == image_dims(*self).0,
    {
        self.img.width()
    }

    /// `ImageBuffer::height`.
    #[verifier::external_body]
    pub fn height(&self) -> (r: u32)
        ensures
            r == image_dims(*self).1,
    {
        self.img.height()
    }

    /// `ImageBuffer::as_raw`: the row-major RGBA bytes (the buffer may run
    /// past the last pixel when the image was made from a longer one).
    #[verifier::external_body]
    pub fn as_raw(&self) -> (r: &Vec<u8>)
        ensures
            r@.len() >= 4 * image_dims(*self).0 * image_dims(*self).1,
            forall|x: int, y: int|
                #[trigger] in_image(*self, x, y) ==> image_pixel(*self, x, y) == raw_pixel(
                    r@,
                    image_dims(*self).0 as int,
                    x,
                    y,
                ),
    {
        self.img.as_raw()
    }

    /// `image::imageops::resize`: this image resampled to `width × height`.
    /// With the triangle filter each pixel is [`triangle_resampled_pixel`].
    /// What Lanczos3 makes of the pixels is left unsaid: its kernel calls
    /// `f32::sin`, whose last bits depend on the platform's math library.
    #[verifier::external_body]
    pub(crate) fn resized(&self, width: u32, height: u32, filter: ResizeFilter) -> (r: AtlasImage)
        requires
            resize_fits(image_dims(*self).0 as int, image_dims(*self).1 as int, width as int, height as int),
        ensures
            image_dims(r) == (width, height),
            filter == ResizeFilter::Triangle ==> forall|x: int, y: int|
                #[trigger] in_image(r, x, y) ==> image_pixel(r, x, y) == triangle_resampled_pixel(
                    *self,
                    width,
                    height,
                    x,
                    y,
                ),
    {
        let f = match filter {
            ResizeFilter::Lanczos3 => image::imageops::FilterType::Lanczos3,
            ResizeFilter::Triangle => image::imageops::FilterType::Triangle,
        };
        AtlasImage { img: image::imageops::resize(&self.img, width, height, f) }
    }

    /// `image::imageops::overlay`: draws `top` over this image with its
    /// top-left corner at `(x, y)`, clipped to this image. The size stays;
    /// each pixel that `top` covers becomes the top pixel drawn over it
    /// ([`over`], with [`blend_partial`] inlined), every other pixel stays.
    #[verifier::external_body]
    pub(crate) fn overlay(&mut self, top: &AtlasImage, x: i64, y: i64)
        ensures
            image_dims(*final(self)) == image_dims(*old(self)),
            forall|px: int, py: int|
                #[trigger] in_image(*old(self), px, py) ==> image_pixel(*final(self), px, py) == if x <= px < x
                    + image_dims(*top).0 && y <= py < y + image_dims(*top).1 {
                    if image_pixel(*top, px - x, py - y)[3] == 0 {
                        image_pixel(*old(self), px, py)
                    } else if image_pixel(*top, px - x, py - y)[3] == 255 {
                        image_pixel(*top, px - x, py - y)
                    } else {
                        blend_partial(image_pixel(*old(self), px, py), image_pixel(*top, px - x, py - y))
                    }
                } else {
                    image_pixel(*old(self), px, py)
                },
    {
        image::imageops::overlay(&mut self.img, &top.img, x, y);
    }
}

impl Clone for AtlasImage {
    /// `ImageBuffer::clone`: a copy of the image.
    #[verifier::external_body]
    fn clone(&self) -> (r: Self)
        ensures
            image_dims(r) == image_dims(*self),
            forall|x: int, y: int| #[trigger] in_image(r, x, y) ==> image_pixel(r, x, y) == image_pixel(*self, x, y),
    {
        AtlasImage { img: self.img.clone() }
    }
}

/// The image that `image::load_from_memory` decodes from `bytes`, as 8-bit
/// RGBA, or `None` where decoding fails. Decoding depends on the bytes
/// alone: the format is guessed from them and the decoder runs with the
/// default limits.
pub uninterp spec fn decoded_image(bytes: Seq<u8>) -> Option<AtlasImage>;

/// The width and height of the image decoded from `bytes`, if any.
pub open spec fn decoded_dims(bytes: Seq<u8>) -> Option<(u32, u32)> {
    match decoded_image(bytes) {
        Some(img) => Some(image_dims(img)),
        None => None,
    }
}

/// Whether images `a` and `b` have the same dimensions and pixels.
pub open spec fn same_image(a: AtlasImage, b: AtlasImage) -> bool {
    &&& image_dims(a) == image_dims(b)
    &&& forall|x: int, y: int| #[trigger] in_image(a, x, y) ==> image_pixel(a, x, y) == image_pixel(b, x, y)
}

/// `image::load_from_memory` followed by `DynamicImage::into_rgba8`: the
/// image encoded in `bytes` as 8-bit RGBA, of the dimensions it was
/// encoded with, or the decoder's error.
#[verifier::external_body]
fn decode_rgba8(bytes: &[u8]) -> (r: Result<AtlasImage, image::ImageError>)
    ensures
        r is Ok <==> decoded_image(bytes@) is Some,
        r is Ok ==> decoded_image(bytes@) is Some && same_image(r->Ok_0, decoded_image(bytes@)->Some_0),
{
    match image::load_from_memory(bytes) {
        Ok(d) => Ok(AtlasImage { img: d.into_rgba8() }),
        Err(e) => Err(e),
    }
}

/// Whether `bytes` decode to an image that can be resized to a square
/// tile of side `tile` ([`resize_fits`]).
pub open spec fn decoded_fits(bytes: Seq<u8>, tile: u32) -> bool {
    match decoded_dims(bytes) {
        Some(d) => resize_fits(d.0 as int, d.1 as int, tile as int, tile as int),
        None => false,
    }
}

/// [`resize_fits`] computed.
fn resize_fits_exec(w0: u32, h0: u32, w: u32, h: u32) -> (r: bool)
    ensures
        r == resize_fits(w0 as int, h0 as int, w as int, h as int),
{
    let limit = isize::MAX as u128;
    assert((w as u128) * (h as u128) * 4 <= u32::MAX as u128 * u32::MAX as u128 * 4) by (nonlinear_arith);
    assert((w0 as u128) * (h as u128) * 16 <= u32::MAX as u128 * u32::MAX as u128 * 16) by (nonlinear_arith);
    let out_fits = (w as u128) * (h as u128) * 4 <= limit;
    let mid_fits = w0 == 0 || h0 == 0 || (w0 == w && h0 == h) || (w0 as u128) * (h as u128) * 16 <= limit;
    out_fits && mid_fits
}

/// What placing a tile named `name` did to the tile names, going from
/// `before` to `after`, and what it returned: a name placed before keeps
/// its index; a new name goes in the next slot; when no slot is left the
/// atlas is full.
pub open spec fn atlas_tile_added(
    before: Seq<Seq<char>>,
    after: Seq<Seq<char>>,
    c: AtlasConfig,
    name: Seq<char>,
    r: Result<u32, AtlasError>,
) -> bool {
    let max = (c.atlas_size / c.tile_size) * (c.atlas_size / c.tile_size);
    if has_name(before, name) {
        r == Ok::<u32, AtlasError>(index_of_name(before, name) as u32) && after == before
    } else if before.len() >= max {
        (r matches Err(AtlasError::AtlasFull { max: m }) && m == max) && after == before
    } else {
        r == Ok::<u32, AtlasError>(before.len() as u32) && after == before.push(name)
    }
}

/// The number of mip levels of an atlas `n` pixels wide: one for each
/// halving down to a single pixel, counting the full size.
pub open spec fn mip_count(n: nat) -> nat
    decreases n,
{
    if n <= 1 {
        1
    } else {
        1 + mip_count(n / 2)
    }
}

/// The side of mip level `k` of an atlas `n` pixels wide: halved `k` times,
/// never below one pixel.
pub open spec fn mip_side(n: nat, k: nat) -> nat
    decreases k,
{
    if k == 0 {
        n
    } else {
        let prev = mip_side(n, (k - 1) as nat);
        if prev / 2 >= 1 {
            prev / 2
        } else {
            1
        }
    }
}

/// The index of `name` among `names`, the first place it occurs.
pub open spec fn index_of_name(names: Seq<Seq<char>>, name: Seq<char>) -> int {
    choose|i: int| 0 <= i < names.len() && names[i] == name && forall|j: int| 0 <= j < i ==> names[j] != name
}

/// Whether `name` occurs among `names`.
pub open spec fn has_name(names: Seq<Seq<char>>, name: Seq<char>) -> bool {
    exists|i: int| 0 <= i < names.len() && names[i] == name
}

/// The characters of each string.
pub open spec fn name_seq(names: Seq<String>) -> Seq<Seq<char>> {
    names.map_values(|s: String| s@)
}

/// Returns the index of the first entry of `names` equal to `name`.
pub(crate) fn find_name(names: &Vec<String>, name: &String) -> (r: Option<usize>)
    ensures
        match r {
            Some(i) => i < names@.len() && names@[i as int]@ == name@ && forall|j: int|
                0 <= j < i ==> #[trigger] names@[j]@ != name@,
            None => forall|j: int| 0 <= j < names@.len() ==> #[trigger] names@[j]@ != name@,
        },
{
    let mut i: usize = 0;
    while i < names.len()
        invariant
            i <= names@.len(),
            forall|j: int| 0 <= j < i ==> #[trigger] names@[j]@ != name@,
        decreases names@.len() - i,
    {
        if names[i] == *name {
            return Some(i);
        }
        i = i + 1;
    }
    None
}

/// The top-left pixel of tile slot `slot` of an atlas: slots fill the grid
/// row by row.
pub open spec fn slot_origin(c: AtlasConfig, slot: int) -> (int, int) {
    let per_row = c.atlas_size / c.tile_size;
    ((slot % per_row as int) * c.tile_size, (slot / per_row as int) * c.tile_size)
}

/// Whether `tile` is what image `src` becomes as a tile of side `t`: a
/// `t × t` image, with the pixels of `src` where `src` already has that
/// size (otherwise `src` resampled, whose pixels are not stated).
pub open spec fn tile_of(src: AtlasImage, t: u32, tile: AtlasImage) -> bool {
    &&& image_dims(tile) == (t, t)
    &&& image_dims(src) == (t, t) ==> same_image(tile, src)
}

/// Whether atlas image `after` is `before` with `tile` drawn ([`over`])
/// into slot `slot`: the pixels of the slot's square are the tile's drawn
/// over the old ones, and every other pixel is unchanged.
pub open spec fn tile_drawn(before: AtlasImage, after: AtlasImage, c: AtlasConfig, slot: int, tile: AtlasImage) -> bool {
    let (ox, oy) = slot_origin(c, slot);
    &&& image_dims(after) == image_dims(before)
    &&& forall|px: int, py: int|
        #[trigger] in_image(before, px, py) ==> image_pixel(after, px, py) == if ox <= px < ox + c.tile_size && oy <= py
            < oy + c.tile_size {
            over(image_pixel(before, px, py), image_pixel(tile, px - ox, py - oy))
        } else {
            image_pixel(before, px, py)
        }
}

/// What placing image `src` did to the atlas image: when a new tile name
/// was added, `src` as a tile ([`tile_of`]) is drawn into the next slot
/// ([`tile_drawn`]); otherwise the atlas image is unchanged.
pub open spec fn placed_or_kept(
    before_names: Seq<Seq<char>>,
    after_names: Seq<Seq<char>>,
    before: AtlasImage,
    after: AtlasImage,
    c: AtlasConfig,
    src: AtlasImage,
) -> bool {
    if after_names.len() == before_names.len() + 1 {
        exists|tile: AtlasImage|
            #[trigger] tile_drawn(before, after, c, before_names.len() as int, tile) && tile_of(src, c.tile_size, tile)
    } else {
        after == before
    }
}

/// Builds a [`TextureAtlas`] by placing tile images in a grid, row by row.
pub struct AtlasBuilder {
    config: AtlasConfig,
    tile_names: Vec<String>,
    atlas_image: AtlasImage,
    next_slot: u32,
}

impl AtlasBuilder {
    /// One name per used slot, no name twice, and an image of the atlas size.
    pub closed spec fn well_formed(&self) -> bool {
        &&& self.tile_names@.len() == self.next_slot
        &&& forall|i: int, j: int|
            0 <= i < j < self.tile_names@.len() ==> #[trigger] self.tile_names@[i]@ != #[trigger] self.tile_names@[j]@
        &&& image_dims(self.atlas_image) == (self.config.atlas_size, self.config.atlas_size)
    }

    /// The configuration the atlas is built with.
    pub closed spec fn spec_config(&self) -> AtlasConfig {
        self.config
    }

    /// The atlas image as filled so far.
    pub closed spec fn image(&self) -> AtlasImage {
        self.atlas_image
    }

    /// The names of the placed tiles; a tile's index is its position.
    pub closed spec fn names(&self) -> Seq<Seq<char>> {
        name_seq(self.tile_names@)
    }

    /// A builder for an empty atlas of the given configuration.
    pub fn new(config: AtlasConfig) -> (r: Self)
        requires
            rgba8_fits(config.atlas_size as int, config.atlas_size as int),
        ensures
            r.well_formed(),
            r.spec_config() == config,
            r.names() == Seq::<Seq<char>>::empty(),
            image_dims(r.image()) == (config.atlas_size, config.atlas_size),
            forall|x: int, y: int| #[trigger] in_image(r.image(), x, y) ==> image_pixel(r.image(), x, y) == seq![
                0u8,
                0u8,
                0u8,
                0u8,
            ],
    {
        let atlas_image = AtlasImage::new(config.atlas_size, config.atlas_size);
        let r = AtlasBuilder { config, tile_names: Vec::new(), atlas_image, next_slot: 0 };
        assert(r.names() =~= Seq::<Seq<char>>::empty());
        r
    }

    /// Places an in-memory image in the next free slot and returns its tile
    /// index; the image is resized to the tile size where its size differs.
    ///
    /// A name that was added before keeps its tile and its index is returned.
    /// When every slot is taken the atlas is full.
    pub fn add_texture_from_image(&mut self, name: &str, img: &AtlasImage) -> (r: Result<u32, AtlasError>)
        requires
            old(self).well_formed(),
            old(self).spec_config().tile_size > 0,
            (old(self).spec_config().atlas_size / old(self).spec_config().tile_size) * (old(self).spec_config().atlas_size
                / old(self).spec_config().tile_size) <= u32::MAX,
            resize_fits(
                image_dims(*img).0 as int,
                image_dims(*img).1 as int,
                old(self).spec_config().tile_size as int,
                old(self).spec_config().tile_size as int,
            ),
        ensures
            final(self).well_formed(),
            final(self).spec_config() == old(self).spec_config(),
            has_name(old(self).names(), name@) ==> r == Ok::<u32, AtlasError>(
                index_of_name(old(self).names(), name@) as u32,
            ) && final(self).names() == old(self).names(),
            !has_name(old(self).names(), name@) && old(self).names().len() >= (old(self).spec_config().atlas_size
                / old(self).spec_config().tile_size) * (old(self).spec_config().atlas_size / old(
                self,
            ).spec_config().tile_size) ==> (r matches Err(AtlasError::AtlasFull { max }) && max == (old(
                self,
            ).spec_config().atlas_size / old(self).spec_config().tile_size) * (old(self).spec_config().atlas_size
                / old(self).spec_config().tile_size)) && final(self).names() == old(self).names(),
            !has_name(old(self).names(), name@) && old(self).names().len() < (old(self).spec_config().atlas_size
                / old(self).spec_config().tile_size) * (old(self).spec_config().atlas_size / old(
                self,
            ).spec_config().tile_size) ==> r == Ok::<u32, AtlasError>(old(self).names().len() as u32)
                && final(self).names() == old(self).names().push(name@),
            placed_or_kept(
                old(self).names(),
                final(self).names(),
                old(self).image(),
                final(self).image(),
                old(self).spec_config(),
                *img,
            ),
    {
        let owned = name.to_owned();
        let ghost names = self.names();
        match find_name(&self.tile_names, &owned) {
            Some(i) => {
                proof {
                    assert(names[i as int] == name@);
                    assert(has_name(names, name@));
                    let k = index_of_name(names, name@);
                    if k != i {
                        if k < i {
                            assert(names[k] == name@);
                        } else {
                            assert(names[i as int] == name@);
                        }
                    }
                }
                return Ok(i as u32);
            },
            None => {
                proof {
                    assert forall|i: int| 0 <= i < names.len() implies names[i] != name@ by {
                        assert(self.tile_names@[i]@ != owned@);
                    }
                }
            },
        }
        let max = self.config.max_tiles();
        if self.next_slot >= max {
            return Err(AtlasError::AtlasFull { max });
        }
        let tile_size = self.config.tile_size;
        let tile = if img.width() != tile_size || img.height() != tile_size {
            img.resized(tile_size, tile_size, ResizeFilter::Lanczos3)
        } else {
            img.clone()
        };
        let tiles_per_row = self.config.tiles_per_row();
        let col = self.next_slot % tiles_per_row;
        let row = self.next_slot / tiles_per_row;
        proof {
            let per_row = tiles_per_row as int;
            assert(col < per_row);
            assert(row < per_row) by (nonlinear_arith)
                requires
                    row == self.next_slot / tiles_per_row,
                    self.next_slot < per_row * per_row,
                    per_row > 0,
                    tiles_per_row == per_row,
            ;
            assert(col * tile_size <= self.config.atlas_size) by (nonlinear_arith)
                requires
                    col < per_row,
                    per_row == self.config.atlas_size / tile_size,
                    tile_size > 0,
            ;
            assert(row * tile_size <= self.config.atlas_size) by (nonlinear_arith)
                requires
                    row < per_row,
                    per_row == self.config.atlas_size / tile_size,
                    tile_size > 0,
            ;
        }
        let px = col * tile_size;
        let py = row * tile_size;
        let ghost before_image = self.atlas_image;
        self.atlas_image.overlay(&tile, px as i64, py as i64);
        let idx = self.next_slot;
        self.tile_names.push(owned);
        self.next_slot = self.next_slot + 1;
        proof {
            let c = self.config;
            assert(slot_origin(c, names.len() as int) == (px as int, py as int));
            assert(tile_of(*img, tile_size, tile));
            assert forall|qx: int, qy: int| #[trigger] in_image(before_image, qx, qy) implies image_pixel(
                self.atlas_image,
                qx,
                qy,
            ) == (if px <= qx < px + c.tile_size && py <= qy < py + c.tile_size {
                over(image_pixel(before_image, qx, qy), image_pixel(tile, qx - px, qy - py))
            } else {
                image_pixel(before_image, qx, qy)
            }) by {}
            assert(tile_drawn(before_image, self.atlas_image, c, names.len() as int, tile));
            assert(self.names() =~= names.push(name@));
            assert forall|i: int, j: int| 0 <= i < j < self.tile_names@.len() implies #[trigger] self.tile_names@[i]@
                != #[trigger] self.tile_names@[j]@ by {
                if j == names.len() {
                    assert(self.tile_names@[i] == old(self).tile_names@[i]);
                    assert(names[i] != name@);
                } else {
                    assert(self.tile_names@[i] == old(self).tile_names@[i]);
                    assert(self.tile_names@[j] == old(self).tile_names@[j]);
                }
            }
        }
        Ok(idx)
    }

    /// Decodes an encoded image file held in `bytes` (any format the
    /// `image` crate reads here) and places it as the tile named `name`,
    /// resized to the tile size, returning its tile index.
    ///
    /// A name that was added before keeps its tile and its index is returned
    /// without decoding. Otherwise the bytes must decode
    /// ([`AtlasError::ImageLoad`] if not), the decoded image must be small
    /// enough to resize ([`AtlasError::InvalidConfig`] if not), and a slot
    /// must be free ([`AtlasError::AtlasFull`] if not).
    pub fn add_texture_from_bytes(&mut self, name: &str, bytes: &[u8]) -> (r: Result<u32, AtlasError>)
        requires
            old(self).well_formed(),
            old(self).spec_config().tile_size > 0,
            (old(self).spec_config().atlas_size / old(self).spec_config().tile_size) * (old(self).spec_config().atlas_size
                / old(self).spec_config().tile_size) <= u32::MAX,
        ensures
            final(self).well_formed(),
            final(self).spec_config() == old(self).spec_config(),
            has_name(old(self).names(), name@) ==> r == Ok::<u32, AtlasError>(
                index_of_name(old(self).names(), name@) as u32,
            ) && final(self).names() == old(self).names(),
            !has_name(old(self).names(), name@) && decoded_dims(bytes@) is None ==> (r matches Err(
                AtlasError::ImageLoad(_),
            )) && final(self).names() == old(self).names(),
            !has_name(old(self).names(), name@) && decoded_dims(bytes@) is Some && !decoded_fits(
                bytes@,
                old(self).spec_config().tile_size,
            ) ==> (r matches Err(AtlasError::InvalidConfig(_))) && final(self).names() == old(self).names(),
            !has_name(old(self).names(), name@) && decoded_fits(bytes@, old(self).spec_config().tile_size)
                ==> atlas_tile_added(old(self).names(), final(self).names(), old(self).spec_config(), name@, r),
            decoded_image(bytes@) is None ==> final(self).image() == old(self).image(),
            decoded_image(bytes@) is Some ==> placed_or_kept(
                old(self).names(),
                final(self).names(),
                old(self).image(),
                final(self).image(),
                old(self).spec_config(),
                decoded_image(bytes@)->Some_0,
            ),
    {
        match self.tile_index(name) {
            Some(i) => {
                return Ok(i);
            },
            None => {},
        }
        let img = match decode_rgba8(bytes) {
            Ok(img) => img,
            Err(e) => {
                return Err(AtlasError::ImageLoad(e));
            },
        };
        let tile = self.config.tile_size;
        if !resize_fits_exec(img.width(), img.height(), tile, tile) {
            return Err(AtlasError::InvalidConfig("image too large to resize to the tile size".to_owned()));
        }
        let ghost before = *self;
        let r = self.add_texture_from_image(name, &img);
        proof {
            let d = decoded_image(bytes@)->Some_0;
            let c = before.spec_config();
            if self.names().len() == before.names().len() + 1 {
                let t = choose|t: AtlasImage|
                    #[trigger] tile_drawn(before.image(), self.image(), c, before.names().len() as int, t) && tile_of(
                        img,
                        c.tile_size,
                        t,
                    );
                if image_dims(d) == (c.tile_size, c.tile_size) {
                    assert forall|x: int, y: int| #[trigger] in_image(t, x, y) implies image_pixel(t, x, y) == image_pixel(
                        d,
                        x,
                        y,
                    ) by {
                        assert(in_image(img, x, y));
                    }
                }
                assert(tile_of(d, c.tile_size, t));
                assert(tile_drawn(before.image(), self.image(), c, before.names().len() as int, t));
            }
        }
        r
    }

    /// How many tile slots are used.
    pub fn used_slots(&self) -> (r: u32)
        requires
            self.well_formed(),
        ensures
            r == self.names().len(),
    {
        self.next_slot
    }

    /// The names of the placed tiles, in slot order: a tile's index is its
    /// position.
    pub fn tile_map(&self) -> (r: &Vec<String>)
        ensures
            name_seq(r@) == self.names(),
    {
        &self.tile_names
    }

    /// The index of the tile named `name`, if one was placed.
    pub fn tile_index(&self, name: &str) -> (r: Option<u32>)
        requires
            self.well_formed(),
        ensures
            has_name(self.names(), name@) ==> r == Some(index_of_name(self.names(), name@) as u32),
            !has_name(self.names(), name@) ==> r is None,
    {
        let owned = name.to_owned();
        let ghost names = self.names();
        match find_name(&self.tile_names, &owned) {
            Some(i) => {
                proof {
                    assert(names[i as int] == name@);
                    let k = index_of_name(names, name@);
                    if k != i {
                        if k < i {
                            assert(names[k] == name@);
                        } else {
                            assert(names[i as int] == name@);
                        }
                    }
                }
                Some(i as u32)
            },
            None => {
                proof {
                    assert forall|j: int| 0 <= j < names.len() implies names[j] != name@ by {
                        assert(self.tile_names@[j]@ != owned@);
                    }
                }
                None
            },
        }
    }

    /// The configuration.
    pub fn config(&self) -> (r: &AtlasConfig)
        ensures
            *r == self.spec_config(),
    {
        &self.config
    }

    /// Finishes the atlas: builds the mipmap chain, each level half the size
    /// of the one before down to one pixel, and returns the atlas.
    pub fn build(self) -> (r: TextureAtlas)
        requires
            self.well_formed(),
            self.spec_config().atlas_size * self.spec_config().atlas_size * 8 <= isize::MAX,
        ensures
            r.config == self.spec_config(),
            name_seq(r.tile_map@) == self.names(),
            r.mip_chain@.len() == mip_count(self.spec_config().atlas_size as nat),
            r.mip_chain@[0] == self.image(),
            forall|k: int|
                0 <= k < r.mip_chain@.len() ==> image_dims(#[trigger] r.mip_chain@[k]) == (
                    mip_side(self.spec_config().atlas_size as nat, k as nat) as u32,
                    mip_side(self.spec_config().atlas_size as nat, k as nat) as u32,
                ),
            forall|k: int|
                1 <= k < r.mip_chain@.len() ==> #[trigger] mip_resampled(r.mip_chain@[k - 1], r.mip_chain@[k]),
    {
        let n = self.config.atlas_size;
        let mip_levels = mip_levels_of(n);
        let AtlasBuilder { config, tile_names, atlas_image, next_slot } = self;
        let ghost level0 = atlas_image;
        let mut mip_chain: Vec<AtlasImage> = Vec::new();
        mip_chain.push(atlas_image);
        let mut level: usize = 1;
        while level < mip_levels
            invariant
                1 <= level <= mip_levels,
                mip_levels == mip_count(n as nat),
                n * n * 8 <= isize::MAX,
                mip_chain@.len() == level,
                mip_chain@[0] == level0,
                forall|k: int|
                    0 <= k < level ==> image_dims(#[trigger] mip_chain@[k]) == (
                        mip_side(n as nat, k as nat) as u32,
                        mip_side(n as nat, k as nat) as u32,
                    ),
                forall|k: int| 1 <= k < level ==> #[trigger] mip_resampled(mip_chain@[k - 1], mip_chain@[k]),
            decreases mip_levels - level,
        {
            let prev = &mip_chain[level - 1];
            let pw = prev.width();
            let ph = prev.height();
            let w = if pw / 2 >= 1 { pw / 2 } else { 1 };
            let h = if ph / 2 >= 1 { ph / 2 } else { 1 };
            proof {
                lemma_mip_side_at_most(n as nat, (level - 1) as nat);
                assert(pw as int * (h as int) * 16 <= isize::MAX) by (nonlinear_arith)
                    requires
                        pw <= n,
                        h <= n,
                        h as int * 2 <= n || h == 1,
                        pw as int == ph as int,
                        h as int == (if ph / 2 >= 1 { ph / 2 } else { 1 }),
                        n * n * 8 <= isize::MAX,
                ;
                assert(w as int * (h as int) * 4 <= isize::MAX) by (nonlinear_arith)
                    requires
                        w <= n,
                        h <= n,
                        n * n * 8 <= isize::MAX,
                ;
            }
            let next = prev.resized(w, h, ResizeFilter::Triangle);
            mip_chain.push(next);
            level = level + 1;
        }
        TextureAtlas { config, mip_chain, tile_map: tile_names }
    }
}

/// Whether mip level `next` is level `prev` resampled with the triangle
/// filter to the size `next` has.
pub open spec fn mip_resampled(prev: AtlasImage, next: AtlasImage) -> bool {
    forall|x: int, y: int|
        #[trigger] in_image(next, x, y) ==> image_pixel(next, x, y) == triangle_resampled_pixel(
            prev,
            image_dims(next).0,
            image_dims(next).1,
            x,
            y,
        )
}

/// Every mip side is between one pixel and the full size.
proof fn lemma_mip_side_at_most(n: nat, k: nat)
    requires
        n >= 1,
    ensures
        1 <= mip_side(n, k) <= n,
    decreases k,
{
    if k > 0 {
        lemma_mip_side_at_most(n, (k - 1) as nat);
    }
}

/// `2^k`.
spec fn two_to(k: nat) -> nat
    decreases k,
{
    if k == 0 {
        1
    } else {
        2 * two_to((k - 1) as nat)
    }
}

/// Below `2^k` there are at most `k + 1` mip levels.
proof fn lemma_mip_count_bound(n: nat, k: nat)
    requires
        n < two_to(k),
    ensures
        1 <= mip_count(n) <= k + 1,
    decreases k,
{
    if n > 1 {
        lemma_mip_count_bound(n / 2, (k - 1) as nat);
    }
}

/// The number of mip levels of an atlas `n` pixels wide.
fn mip_levels_of(n: u32) -> (r: usize)
    ensures
        r == mip_count(n as nat),
        1 <= r <= 33,
{
    proof {
        assert(two_to(32) == 4294967296) by {
            reveal_with_fuel(two_to, 33);
        }
        lemma_mip_count_bound(n as nat, 32);
    }
    let mut m = n;
    let mut count: usize = 1;
    while m > 1
        invariant
            1 <= count,
            count + mip_count(m as nat) == mip_count(n as nat) + 1,
            1 <= mip_count(n as nat) <= 33,
        decreases m,
    {
        m = m / 2;
        count = count + 1;
    }
    count
}

/// A finished texture atlas: its configuration, its mipmap chain (level 0 is
/// the full-size atlas, each further level half the size) and its tile names
/// (a tile's index is its position).
pub struct TextureAtlas {
    /// Atlas configuration (sizes).
    pub config: AtlasConfig,
    /// Mip level 0 is the full-resolution atlas; each further level is half
    /// the size of the one before.
    pub mip_chain: Vec<AtlasImage>,
    /// The tile names in slot order.
    pub tile_map: Vec<String>,
}

impl TextureAtlas {
    /// The index of the tile called `name`.
    pub fn tile_index(&self, name: &str) -> (r: Option<u32>)
        ensures
            has_name(name_seq(self.tile_map@), name@) ==> r == Some(index_of_name(name_seq(self.tile_map@), name@) as u32),
            !has_name(name_seq(self.tile_map@), name@) ==> r is None,
    {
        let owned = name.to_owned();
        let ghost names = name_seq(self.tile_map@);
        match find_name(&self.tile_map, &owned) {
            Some(i) => {
                proof {
                    assert(names[i as int] == name@);
                    let k = index_of_name(names, name@);
                    if k != i {
                        if k < i {
                            assert(names[k] == name@);
                        } else {
                            assert(names[i as int] == name@);
                        }
                    }
                }
                Some(i as u32)
            },
            None => {
                proof {
                    assert forall|i: int| 0 <= i < names.len() implies names[i] != name@ by {
                        assert(self.tile_map@[i]@ != owned@);
                    }
                }
                None
            },
        }
    }

    /// The number of tiles in the atlas.
    pub fn tile_count(&self) -> (r: u32)
        ensures
            r == self.tile_map@.len() as u32,
    {
        self.tile_map.len() as u32
    }

    /// The number of mip levels.
    pub fn mip_level_count(&self) -> (r: u32)
        ensures
            r == self.mip_chain@.len() as u32,
    {
        self.mip_chain.len() as u32
    }
}

} // verus!
