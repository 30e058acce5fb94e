//! Three- and two-dimensional vectors with `i128` components.

use vstd::prelude::*;
use vstd::std_specs::ops::{AddSpecImpl, SubSpecImpl, NegSpecImpl, MulSpecImpl, DivSpecImpl};

verus! {

/// Whether an integer lies in the `i128` range.
pub open spec fn fits_i128(v: int) -> bool {
    i128::MIN <= v <= i128::MAX
}

/// An integer clamped to the `i128` range.
pub open spec fn clamp_i128(v: int) -> i128 {
    if v > i128::MAX {
        i128::MAX
    } else if v < i128::MIN {
        i128::MIN
    } else {
        v as i128
    }
}

/// The sum `a + b`, or `None` when it leaves the `i128` range.
pub open spec fn checked_add_spec(a: int, b: int) -> Option<i128> {
    if fits_i128(a + b) { Some((a + b) as i128) } else { None }
}

/// The difference `a - b`, or `None` when it leaves the `i128` range.
pub open spec fn checked_sub_spec(a: int, b: int) -> Option<i128> {
    if fits_i128(a - b) { Some((a - b) as i128) } else { None }
}

/// `a + b` clamped to the `i128` range.
fn sat_add(a: i128, b: i128) -> (r: i128)
    ensures
        r == clamp_i128(a + b),
{
    match a.checked_add(b) {
        Some(s) => s,
        None => if b > 0 { i128::MAX } else { i128::MIN },
    }
}

/// `a - b` clamped to the `i128` range.
fn sat_sub(a: i128, b: i128) -> (r: i128)
    ensures
        r == clamp_i128(a - b),
{
    match a.checked_sub(b) {
        Some(s) => s,
        None => if b < 0 { i128::MAX } else { i128::MIN },
    }
}

/// Integer division rounded toward zero (the `/` of Rust).
pub open spec fn div_trunc(a: int, d: int) -> int {
    if a >= 0 { a / d } else { -((-a) / d) }
}

/// Whether the three products and the two running sums of the dot product
/// `x1*x2 + y1*y2 + z1*z2` all fit in `i128`, evaluated left to right.
pub open spec fn dot3_fits(a: Vec3I128, b: Vec3I128) -> bool {
    &&& fits_i128(a.x * b.x)
    &&& fits_i128(a.y * b.y)
    &&& fits_i128(a.z * b.z)
    &&& fits_i128(a.x * b.x + a.y * b.y)
    &&& fits_i128(a.x * b.x + a.y * b.y + a.z * b.z)
}

/// The exact dot product of two 3-vectors.
pub open spec fn dot3(a: Vec3I128, b: Vec3I128) -> int {
    a.x * b.x + a.y * b.y + a.z * b.z
}

/// Whether `p * q - r * s` and both its products fit in `i128`.
pub open spec fn diff_of_products_fits(p: int, q: int, r: int, s: int) -> bool {
    fits_i128(p * q) && fits_i128(r * s) && fits_i128(p * q - r * s)
}

/// Whether every product and difference of the cross product fits in `i128`.
pub open spec fn cross_fits(a: Vec3I128, b: Vec3I128) -> bool {
    &&& diff_of_products_fits(a.y as int, b.z as int, a.z as int, b.y as int)
    &&& diff_of_products_fits(a.z as int, b.x as int, a.x as int, b.z as int)
    &&& diff_of_products_fits(a.x as int, b.y as int, a.y as int, b.x as int)
}

/// The exact cross product, whose components must fit in `i128`.
pub open spec fn cross3(a: Vec3I128, b: Vec3I128) -> Vec3I128 {
    Vec3I128 {
        x: (a.y * b.z - a.z * b.y) as i128,
        y: (a.z * b.x - a.x * b.z) as i128,
        z: (a.x * b.y - a.y * b.x) as i128,
    }
}

/// 3D displacement / direction vector in i128 space.
#[derive(Clone, Copy, Debug, PartialEq, Eq, Structural, Hash, Default)]
pub struct Vec3I128 {
    pub x: i128,
    pub y: i128,
    pub z: i128,
}

/// `p * q - r * s` computed with overflow checks.
fn checked_diff_of_products(p: i128, q: i128, r: i128, s: i128) -> (res: Option<i128>)
    ensures
        res == (if diff_of_products_fits(p as int, q as int, r as int, s as int) {
            Some((p * q - r * s) as i128)
        } else {
            None
        }),
{
    let first = p.checked_mul(q)?;
    let second = r.checked_mul(s)?;
    first.checked_sub(second)
}

impl Vec3I128 {
    /// Creates a vector with the given coordinates.
    pub fn new(x: i128, y: i128, z: i128) -> (r: Self)
        ensures
            r == (Vec3I128 { x, y, z }),
    {
        Vec3I128 { x, y, z }
    }

    /// The zero vector.
    pub fn zero() -> (r: Self)
        ensures
            r == (Vec3I128 { x: 0, y: 0, z: 0 }),
    {
        Vec3I128 { x: 0, y: 0, z: 0 }
    }

    /// Unit vector along X.
    pub fn unit_x() -> (r: Self)
        ensures
            r == (Vec3I128 { x: 1, y: 0, z: 0 }),
    {
        Vec3I128 { x: 1, y: 0, z: 0 }
    }

    /// Unit vector along Y.
    pub fn unit_y() -> (r: Self)
        ensures
            r == (Vec3I128 { x: 0, y: 1, z: 0 }),
    {
        Vec3I128 { x: 0, y: 1, z: 0 }
    }

    /// Unit vector along Z.
    pub fn unit_z() -> (r: Self)
        ensures
            r == (Vec3I128 { x: 0, y: 0, z: 1 }),
    {
        Vec3I128 { x: 0, y: 0, z: 1 }
    }

    /// Component-wise sum, or `None` if any component overflows.
    pub fn checked_add(self, rhs: Vec3I128) -> (r: Option<Vec3I128>)
        ensures
            r == (if fits_i128(self.x + rhs.x) && fits_i128(self.y + rhs.y) && fits_i128(self.z + rhs.z) {
                Some(Vec3I128 { x: (self.x + rhs.x) as i128, y: (self.y + rhs.y) as i128, z: (self.z + rhs.z) as i128 })
            } else {
                None
            }),
    {
        Some(Vec3I128::new(self.x.checked_add(rhs.x)?, self.y.checked_add(rhs.y)?, self.z.checked_add(rhs.z)?))
    }

    /// Component-wise difference, or `None` if any component overflows.
    pub fn checked_sub(self, rhs: Vec3I128) -> (r: Option<Vec3I128>)
        ensures
            r == (if fits_i128(self.x - rhs.x) && fits_i128(self.y - rhs.y) && fits_i128(self.z - rhs.z) {
                Some(Vec3I128 { x: (self.x - rhs.x) as i128, y: (self.y - rhs.y) as i128, z: (self.z - rhs.z) as i128 })
            } else {
                None
            }),
    {
        Some(Vec3I128::new(self.x.checked_sub(rhs.x)?, self.y.checked_sub(rhs.y)?, self.z.checked_sub(rhs.z)?))
    }

    /// Component-wise sum clamped to the `i128` range.
    pub fn saturating_add(self, rhs: Vec3I128) -> (r: Vec3I128)
        ensures
            r == (Vec3I128 { x: clamp_i128(self.x + rhs.x), y: clamp_i128(self.y + rhs.y), z: clamp_i128(self.z + rhs.z) }),
    {
        Vec3I128::new(sat_add(self.x, rhs.x), sat_add(self.y, rhs.y), sat_add(self.z, rhs.z))
    }

    /// Component-wise difference clamped to the `i128` range.
    pub fn saturating_sub(self, rhs: Vec3I128) -> (r: Vec3I128)
        ensures
            r == (Vec3I128 { x: clamp_i128(self.x - rhs.x), y: clamp_i128(self.y - rhs.y), z: clamp_i128(self.z - rhs.z) }),
    {
        Vec3I128::new(sat_sub(self.x, rhs.x), sat_sub(self.y, rhs.y), sat_sub(self.z, rhs.z))
    }

    /// The dot product `x1*x2 + y1*y2 + z1*z2`; every intermediate must fit.
    pub fn dot(self, rhs: Vec3I128) -> (r: i128)
        requires
            dot3_fits(self, rhs),
        ensures
            r == dot3(self, rhs),
    {
        self.x * rhs.x + self.y * rhs.y + self.z * rhs.z
    }

    /// The cross product `self × rhs`; every intermediate must fit.
    pub fn cross(self, rhs: Vec3I128) -> (r: Vec3I128)
        requires
            cross_fits(self, rhs),
        ensures
            r == cross3(self, rhs),
    {
        Vec3I128::new(
            self.y * rhs.z - self.z * rhs.y,
            self.z * rhs.x - self.x * rhs.z,
            self.x * rhs.y - self.y * rhs.x,
        )
    }

    /// Component-wise minimum.
    pub fn component_min(self, rhs: Vec3I128) -> (r: Vec3I128)
        ensures
            r == (Vec3I128 {
                x: if self.x <= rhs.x { self.x } else { rhs.x },
                y: if self.y <= rhs.y { self.y } else { rhs.y },
                z: if self.z <= rhs.z { self.z } else { rhs.z },
            }),
    {
        Vec3I128::new(
            if self.x <= rhs.x { self.x } else { rhs.x },
            if self.y <= rhs.y { self.y } else { rhs.y },
            if self.z <= rhs.z { self.z } else { rhs.z },
        )
    }

    /// Component-wise maximum.
    pub fn component_max(self, rhs: Vec3I128) -> (r: Vec3I128)
        ensures
            r == (Vec3I128 {
                x: if self.x >= rhs.x { self.x } else { rhs.x },
                y: if self.y >= rhs.y { self.y } else { rhs.y },
                z: if self.z >= rhs.z { self.z } else { rhs.z },
            }),
    {
        Vec3I128::new(
            if self.x >= rhs.x { self.x } else { rhs.x },
            if self.y >= rhs.y { self.y } else { rhs.y },
            if self.z >= rhs.z { self.z } else { rhs.z },
        )
    }

    /// The dot product, or `None` if any product or partial sum overflows.
    pub fn checked_dot(self, rhs: Vec3I128) -> (r: Option<i128>)
        ensures
            r == (if dot3_fits(self, rhs) { Some(dot3(self, rhs) as i128) } else { None }),
    {
        let x_product = self.x.checked_mul(rhs.x)?;
        let y_product = self.y.checked_mul(rhs.y)?;
        let z_product = self.z.checked_mul(rhs.z)?;
        x_product.checked_add(y_product)?.checked_add(z_product)
    }

    /// The cross product, or `None` if any product or difference overflows.
    pub fn checked_cross(self, rhs: Vec3I128) -> (r: Option<Vec3I128>)
        ensures
            r == (if cross_fits(self, rhs) { Some(cross3(self, rhs)) } else { None }),
    {
        let x_comp = checked_diff_of_products(self.y, rhs.z, self.z, rhs.y)?;
        let y_comp = checked_diff_of_products(self.z, rhs.x, self.x, rhs.z)?;
        let z_comp = checked_diff_of_products(self.x, rhs.y, self.y, rhs.x)?;
        Some(Vec3I128::new(x_comp, y_comp, z_comp))
    }
}

impl core::ops::Add for Vec3I128 {
    type Output = Vec3I128;

    fn add(self, rhs: Vec3I128) -> (r: Vec3I128) {
        Vec3I128::new(self.x + rhs.x, self.y + rhs.y, self.z + rhs.z)
    }
}

impl AddSpecImpl for Vec3I128 {
    open spec fn obeys_add_spec() -> bool {
        true
    }

    open spec fn add_req(self, rhs: Vec3I128) -> bool {
        fits_i128(self.x + rhs.x) && fits_i128(self.y + rhs.y) && fits_i128(self.z + rhs.z)
    }

    open spec fn add_spec(self, rhs: Vec3I128) -> Vec3I128 {
        Vec3I128 { x: (self.x + rhs.x) as i128, y: (self.y + rhs.y) as i128, z: (self.z + rhs.z) as i128 }
    }
}

impl core::ops::Sub for Vec3I128 {
    type Output = Vec3I128;

    fn sub(self, rhs: Vec3I128) -> (r: Vec3I128) {
        Vec3I128::new(self.x - rhs.x, self.y - rhs.y, self.z - rhs.z)
    }
}

impl SubSpecImpl for Vec3I128 {
    open spec fn obeys_sub_spec() -> bool {
        true
    }

    open spec fn sub_req(self, rhs: Vec3I128) -> bool {
        fits_i128(self.x - rhs.x) && fits_i128(self.y - rhs.y) && fits_i128(self.z - rhs.z)
    }

    open spec fn sub_spec(self, rhs: Vec3I128) -> Vec3I128 {
        Vec3I128 { x: (self.x - rhs.x) as i128, y: (self.y - rhs.y) as i128, z: (self.z - rhs.z) as i128 }
    }
}

impl core::ops::Neg for Vec3I128 {
    type Output = Vec3I128;

    fn neg(self) -> (r: Vec3I128) {
        Vec3I128::new(-self.x, -self.y, -self.z)
    }
}

impl NegSpecImpl for Vec3I128 {
    open spec fn obeys_neg_spec() -> bool {
        true
    }

    open spec fn neg_req(self) -> bool {
        self.x != i128::MIN && self.y != i128::MIN && self.z != i128::MIN
    }

    open spec fn neg_spec(self) -> Vec3I128 {
        Vec3I128 { x: (-self.x) as i128, y: (-self.y) as i128, z: (-self.z) as i128 }
    }
}

impl core::ops::Mul<i128> for Vec3I128 {
    type Output = Vec3I128;

    fn mul(self, rhs: i128) -> (r: Vec3I128) {
        Vec3I128::new(self.x * rhs, self.y * rhs, self.z * rhs)
    }
}

impl MulSpecImpl<i128> for Vec3I128 {
    open spec fn obeys_mul_spec() -> bool {
        true
    }

    open spec fn mul_req(self, rhs: i128) -> bool {
        fits_i128(self.x * rhs) && fits_i128(self.y * rhs) && fits_i128(self.z * rhs)
    }

    open spec fn mul_spec(self, rhs: i128) -> Vec3I128 {
        Vec3I128 { x: (self.x * rhs) as i128, y: (self.y * rhs) as i128, z: (self.z * rhs) as i128 }
    }
}

impl core::ops::Div<i128> for Vec3I128 {
    type Output = Vec3I128;

    fn div(self, rhs: i128) -> (r: Vec3I128) {
        Vec3I128::new(self.x / rhs, self.y / rhs, self.z / rhs)
    }
}

impl DivSpecImpl<i128> for Vec3I128 {
    open spec fn obeys_div_spec() -> bool {
        true
    }

    open spec fn div_req(self, rhs: i128) -> bool {
        rhs != 0 && !(rhs == -1 && (self.x == i128::MIN || self.y == i128::MIN || self.z == i128::MIN))
    }

    open spec fn div_spec(self, rhs: i128) -> Vec3I128 {
        Vec3I128 {
            x: div_trunc(self.x as int, rhs as int) as i128,
            y: div_trunc(self.y as int, rhs as int) as i128,
            z: div_trunc(self.z as int, rhs as int) as i128,
        }
    }
}

/// 2D vector in i128 space, used for cubesphere face-local coordinates.
#[derive(Clone, Copy, Debug, PartialEq, Eq, Structural, Hash, Default)]
pub struct Vec2I128 {
    pub x: i128,
    pub y: i128,
}

/// Whether both products and the sum of the 2D dot product fit in `i128`.
pub open spec fn dot2_fits(a: Vec2I128, b: Vec2I128) -> bool {
    fits_i128(a.x * b.x) && fits_i128(a.y * b.y) && fits_i128(a.x * b.x + a.y * b.y)
}

/// The exact 2D dot product.
pub open spec fn dot2(a: Vec2I128, b: Vec2I128) -> int {
    a.x * b.x + a.y * b.y
}

/// The exact perp-dot product `x1*y2 - y1*x2`.
pub open spec fn perp_dot2(a: Vec2I128, b: Vec2I128) -> int {
    a.x * b.y - a.y * b.x
}

impl Vec2I128 {
    /// Creates a vector with the given coordinates.
    pub fn new(x: i128, y: i128) -> (r: Self)
        ensures
            r == (Vec2I128 { x, y }),
    {
        Vec2I128 { x, y }
    }

    /// The zero vector.
    pub fn zero() -> (r: Self)
        ensures
            r == (Vec2I128 { x: 0, y: 0 }),
    {
        Vec2I128 { x: 0, y: 0 }
    }

    /// Unit vector along X.
    pub fn unit_x() -> (r: Self)
        ensures
            r == (Vec2I128 { x: 1, y: 0 }),
    {
        Vec2I128 { x: 1, y: 0 }
    }

    /// Unit vector along Y.
    pub fn unit_y() -> (r: Self)
        ensures
            r == (Vec2I128 { x: 0, y: 1 }),
    {
        Vec2I128 { x: 0, y: 1 }
    }

    /// Component-wise sum, or `None` if any component overflows.
    pub fn checked_add(self, rhs: Vec2I128) -> (r: Option<Vec2I128>)
        ensures
            r == (if fits_i128(self.x + rhs.x) && fits_i128(self.y + rhs.y) {
                Some(Vec2I128 { x: (self.x + rhs.x) as i128, y: (self.y + rhs.y) as i128 })
            } else {
                None
            }),
    {
        Some(Vec2I128::new(self.x.checked_add(rhs.x)?, self.y.checked_add(rhs.y)?))
    }

    /// Component-wise difference, or `None` if any component overflows.
    pub fn checked_sub(self, rhs: Vec2I128) -> (r: Option<Vec2I128>)
        ensures
            r == (if fits_i128(self.x - rhs.x) && fits_i128(self.y - rhs.y) {
                Some(Vec2I128 { x: (self.x - rhs.x) as i128, y: (self.y - rhs.y) as i128 })
            } else {
                None
            }),
    {
        Some(Vec2I128::new(self.x.checked_sub(rhs.x)?, self.y.checked_sub(rhs.y)?))
    }

    /// Component-wise sum clamped to the `i128` range.
    pub fn saturating_add(self, rhs: Vec2I128) -> (r: Vec2I128)
        ensures
            r == (Vec2I128 { x: clamp_i128(self.x + rhs.x), y: clamp_i128(self.y + rhs.y) }),
    {
        Vec2I128::new(sat_add(self.x, rhs.x), sat_add(self.y, rhs.y))
    }

    /// Component-wise difference clamped to the `i128` range.
    pub fn saturating_sub(self, rhs: Vec2I128) -> (r: Vec2I128)
        ensures
            r == (Vec2I128 { x: clamp_i128(self.x - rhs.x), y: clamp_i128(self.y - rhs.y) }),
    {
        Vec2I128::new(sat_sub(self.x, rhs.x), sat_sub(self.y, rhs.y))
    }

    /// The dot product `x1*x2 + y1*y2`; every intermediate must fit.
    pub fn dot(self, rhs: Vec2I128) -> (r: i128)
        requires
            dot2_fits(self, rhs),
        ensures
            r == dot2(self, rhs),
    {
        self.x * rhs.x + self.y * rhs.y
    }

    /// The perp-dot product `x1*y2 - y1*x2`; every intermediate must fit.
    pub fn perp_dot(self, rhs: Vec2I128) -> (r: i128)
        requires
            diff_of_products_fits(self.x as int, rhs.y as int, self.y as int, rhs.x as int),
        ensures
            r == perp_dot2(self, rhs),
    {
        self.x * rhs.y - self.y * rhs.x
    }

    /// Component-wise minimum.
    pub fn component_min(self, rhs: Vec2I128) -> (r: Vec2I128)
        ensures
            r == (Vec2I128 {
                x: if self.x <= rhs.x { self.x } else { rhs.x },
                y: if self.y <= rhs.y { self.y } else { rhs.y },
            }),
    {
        Vec2I128::new(
            if self.x <= rhs.x { self.x } else { rhs.x },
            if self.y <= rhs.y { self.y } else { rhs.y },
        )
    }

    /// Component-wise maximum.
    pub fn component_max(self, rhs: Vec2I128) -> (r: Vec2I128)
        ensures
            r == (Vec2I128 {
                x: if self.x >= rhs.x { self.x } else { rhs.x },
                y: if self.y >= rhs.y { self.y } else { rhs.y },
            }),
    {
        Vec2I128::new(
            if self.x >= rhs.x { self.x } else { rhs.x },
            if self.y >= rhs.y { self.y } else { rhs.y },
        )
    }

    /// The dot product, or `None` if any product or the sum overflows.
    pub fn checked_dot(self, rhs: Vec2I128) -> (r: Option<i128>)
        ensures
            r == (if dot2_fits(self, rhs) { Some(dot2(self, rhs) as i128) } else { None }),
    {
        let x_product = self.x.checked_mul(rhs.x)?;
        let y_product = self.y.checked_mul(rhs.y)?;
        x_product.checked_add(y_product)
    }

    /// The perp-dot product, or `None` if any product or the difference overflows.
    pub fn checked_perp_dot(self, rhs: Vec2I128) -> (r: Option<i128>)
        ensures
            r == (if diff_of_products_fits(self.x as int, rhs.y as int, self.y as int, rhs.x as int) {
                Some(perp_dot2(self, rhs) as i128)
            } else {
                None
            }),
    {
        checked_diff_of_products(self.x, rhs.y, self.y, rhs.x)
    }
}

impl core::ops::Add for Vec2I128 {
    type Output = Vec2I128;

    fn add(self, rhs: Vec2I128) -> (r: Vec2I128) {
        Vec2I128::new(self.x + rhs.x, self.y + rhs.y)
    }
}

impl AddSpecImpl for Vec2I128 {
    open spec fn obeys_add_spec() -> bool {
        true
    }

    open spec fn add_req(self, rhs: Vec2I128) -> bool {
        fits_i128(self.x + rhs.x) && fits_i128(self.y + rhs.y)
    }

    open spec fn add_spec(self, rhs: Vec2I128) -> Vec2I128 {
        Vec2I128 { x: (self.x + rhs.x) as i128, y: (self.y + rhs.y) as i128 }
    }
}

impl core::ops::Sub for Vec2I128 {
    type Output = Vec2I128;

    fn sub(self, rhs: Vec2I128) -> (r: Vec2I128) {
        Vec2I128::new(self.x - rhs.x, self.y - rhs.y)
    }
}

impl SubSpecImpl for Vec2I128 {
    open spec fn obeys_sub_spec() -> bool {
        true
    }

    open spec fn sub_req(self, rhs: Vec2I128) -> bool {
        fits_i128(self.x - rhs.x) && fits_i128(self.y - rhs.y)
    }

    open spec fn sub_spec(self, rhs: Vec2I128) -> Vec2I128 {
        Vec2I128 { x: (self.x - rhs.x) as i128, y: (self.y - rhs.y) as i128 }
    }
}

impl core::ops::Neg for Vec2I128 {
    type Output = Vec2I128;

    fn neg(self) -> (r: Vec2I128) {
        Vec2I128::new(-self.x, -self.y)
    }
}

impl NegSpecImpl for Vec2I128 {
    open spec fn obeys_neg_spec() -> bool {
        true
    }

    open spec fn neg_req(self) -> bool {
        self.x != i128::MIN && self.y != i128::MIN
    }

    open spec fn neg_spec(self) -> Vec2I128 {
        Vec2I128 { x: (-self.x) as i128, y: (-self.y) as i128 }
    }
}

impl core::ops::Mul<i128> for Vec2I128 {
    type Output = Vec2I128;

    fn mul(self, rhs: i128) -> (r: Vec2I128) {
        Vec2I128::new(self.x * rhs, self.y * rhs)
    }
}

impl MulSpecImpl<i128> for Vec2I128 {
    open spec fn obeys_mul_spec() -> bool {
        true
    }

    open spec fn mul_req(self, rhs: i128) -> bool {
        fits_i128(self.x * rhs) && fits_i128(self.y * rhs)
    }

    open spec fn mul_spec(self, rhs: i128) -> Vec2I128 {
        Vec2I128 { x: (self.x * rhs) as i128, y: (self.y * rhs) as i128 }
    }
}

impl core::ops::Div<i128> for Vec2I128 {
    type Output = Vec2I128;

    fn div(self, rhs: i128) -> (r: Vec2I128) {
        Vec2I128::new(self.x / rhs, self.y / rhs)
    }
}

impl DivSpecImpl<i128> for Vec2I128 {
    open spec fn obeys_div_spec() -> bool {
        true
    }

    open spec fn div_req(self, rhs: i128) -> bool {
        rhs != 0 && !(rhs == -1 && (self.x == i128::MIN || self.y == i128::MIN))
    }

    open spec fn div_spec(self, rhs: i128) -> Vec2I128 {
        Vec2I128 { x: div_trunc(self.x as int, rhs as int) as i128, y: div_trunc(self.y as int, rhs as int) as i128 }
    }
}


/// The cross product is anti-commutative: `a × b == -(b × a)`.
pub proof fn lemma_cross_anticommutative(a: Vec3I128, b: Vec3I128)
    requires
        cross_fits(a, b),
        cross_fits(b, a),
    ensures
        cross3(a, b) == (Vec3I128 { x: (-cross3(b, a).x) as i128, y: (-cross3(b, a).y) as i128, z: (-cross3(b, a).z) as i128 }),
{
    assert(a.y * b.z == b.z * a.y && a.z * b.y == b.y * a.z) by (nonlinear_arith);
    assert(a.z * b.x == b.x * a.z && a.x * b.z == b.z * a.x) by (nonlinear_arith);
    assert(a.x * b.y == b.y * a.x && a.y * b.x == b.x * a.y) by (nonlinear_arith);
}

/// The cross product of a vector with itself is zero.
pub proof fn lemma_cross_self_is_zero(a: Vec3I128)
    requires
        cross_fits(a, a),
    ensures
        cross3(a, a) == (Vec3I128 { x: 0, y: 0, z: 0 }),
{
    assert(a.y * a.z == a.z * a.y && a.z * a.x == a.x * a.z && a.x * a.y == a.y * a.x) by (nonlinear_arith);
}

/// The dot product is commutative.
pub proof fn lemma_dot_commutative(a: Vec3I128, b: Vec3I128)
    ensures
        dot3(a, b) == dot3(b, a),
        dot3_fits(a, b) == dot3_fits(b, a),
{
    assert(a.x * b.x == b.x * a.x && a.y * b.y == b.y * a.y && a.z * b.z == b.z * a.z) by (nonlinear_arith);
}

/// The cross product is orthogonal to both of its operands.
pub proof fn lemma_cross_orthogonal(a: Vec3I128, b: Vec3I128)
    requires
        cross_fits(a, b),
    ensures
        dot3(a, cross3(a, b)) == 0,
        dot3(b, cross3(a, b)) == 0,
{
    let c = cross3(a, b);
    assert(a.x * (a.y * b.z - a.z * b.y) + a.y * (a.z * b.x - a.x * b.z) + a.z * (a.x * b.y - a.y * b.x) == 0) by (nonlinear_arith);
    assert(b.x * (a.y * b.z - a.z * b.y) + b.y * (a.z * b.x - a.x * b.z) + b.z * (a.x * b.y - a.y * b.x) == 0) by (nonlinear_arith);
}

} // verus!
