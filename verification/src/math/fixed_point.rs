//! Fixed-point numbers with 32 fractional bits stored in an `i128`.

use vstd::prelude::*;
use vstd::arithmetic::div_mod::lemma_fundamental_div_mod_converse;
use vstd::std_specs::convert::FromSpecImpl;
use vstd::std_specs::ops::{AddSpecImpl, SubSpecImpl, NegSpecImpl, MulSpecImpl, DivSpecImpl};

verus! {

/// Number of fractional bits.
pub const FRAC_BITS: u32 = 32;

/// `2^FRAC_BITS`, the raw value of `1.0`.
pub const FRAC_SCALE: i128 = 4294967296;

/// Fixed-point number with 32 fractional bits.
///
/// The raw `i128` equals the real value times `2^32`.
#[derive(Clone, Copy, Debug, PartialEq, Eq, Structural, PartialOrd, Ord, Hash)]
pub struct FixedI128 {
    raw: i128,
}

/// The value `v * 2^32`, wrapped into the `i128` range as a left shift does.
pub open spec fn shl32_wrapped(v: i128) -> i128 {
    (v * 4294967296) as i128
}

impl Default for FixedI128 {
    /// Zero.
    fn default() -> (r: Self)
        ensures
            r.raw_spec() == 0,
    {
        FixedI128 { raw: 0 }
    }
}

impl FixedI128 {
    /// The value with the given raw representation.
    pub closed spec fn from_raw_spec(raw: i128) -> FixedI128 {
        FixedI128 { raw }
    }

    /// The raw representation of a value built from `raw`.
    pub broadcast proof fn lemma_from_raw_spec(raw: i128)
        ensures
            #[trigger] FixedI128::from_raw_spec(raw).raw_spec() == raw,
    {
    }

    /// The raw representation, for use in contracts.
    pub closed spec fn raw_spec(self) -> i128 {
        self.raw
    }

    /// Creates a value from its raw `i128` representation.
    pub fn from_raw(raw: i128) -> (r: Self)
        ensures
            r.raw_spec() == raw,
    {
        FixedI128 { raw }
    }

    /// Returns the raw `i128` representation.
    pub fn to_raw(self) -> (r: i128)
        ensures
            r == self.raw_spec(),
    {
        self.raw
    }

    /// Creates a value from a whole integer (no fractional part).
    ///
    /// The raw value is `value << 32`; integers whose magnitude reaches
    /// `2^95` wrap around, as the shift does.
    pub fn from_int(value: i128) -> (r: Self)
        ensures
            r.raw_spec() == shl32_wrapped(value),
            -0x8000_0000_0000_0000_0000_0000 <= value < 0x8000_0000_0000_0000_0000_0000
                ==> r.raw_spec() == value * FRAC_SCALE,
    {
        let raw = value << 32u32;
        assert(raw == shl32_wrapped(value)) by (bit_vector)
            requires raw == value << 32u32;
        FixedI128 { raw }
    }

    /// Integers round-trip: for `|v| < 2^95`, [`FixedI128::from_int`] gives
    /// the raw value `v * 2^32` and [`FixedI128::to_int`] gives back `v`;
    /// in particular `from_int(0)` has raw value 0, the value of
    /// `FixedI128::default()`.
    pub proof fn lemma_int_roundtrip(v: i128)
        requires
            -0x8000_0000_0000_0000_0000_0000 <= v < 0x8000_0000_0000_0000_0000_0000,
        ensures
            shl32_wrapped(v) == v * FRAC_SCALE,
            trunc_div(v * FRAC_SCALE as int, FRAC_SCALE as int) == v,
            shl32_wrapped(0) == 0,
    {
        assert((v * 4294967296) as i128 == v * 4294967296) by (nonlinear_arith)
            requires -0x8000_0000_0000_0000_0000_0000 <= v < 0x8000_0000_0000_0000_0000_0000;
        assert(trunc_div(v * FRAC_SCALE as int, FRAC_SCALE as int) == v) by (nonlinear_arith)
            requires FRAC_SCALE == 4294967296;
    }

    /// Returns the integer part, truncated toward zero.
    pub fn to_int(self) -> (r: i128)
        ensures
            r == trunc_div(self.raw_spec() as int, FRAC_SCALE as int),
    {
        self.raw / FRAC_SCALE
    }

    /// Multiplies two fixed-point values.
    ///
    /// The exact product of the raw values (a 256-bit quantity) is shifted
    /// right by 32 bits, rounding toward negative infinity. A result outside
    /// the `i128` range saturates to `i128::MAX >> 32` or `i128::MIN >> 32`.
    pub fn fixed_mul(self, rhs: FixedI128) -> (r: FixedI128)
        ensures
            r.raw_spec() == fixed_mul_spec(self.raw_spec(), rhs.raw_spec()),
    {
        let a = self.raw;
        let b = rhs.raw;
        let neg = (a < 0) != (b < 0);
        let ua = magnitude(a);
        let ub = magnitude(b);
        let (q, rem_nonzero) = wide_mul_shr32(ua, ub);
        proof {
            let p = a as int * b as int;
            let m = ua as int * ub as int;
            assert(p == m || p == -m) by (nonlinear_arith)
                requires
                    ua as int == a as int || ua as int == -(a as int),
                    ub as int == b as int || ub as int == -(b as int),
                    p == a as int * b as int,
                    m == ua as int * ub as int;
            if !neg {
                assert(p == m) by (nonlinear_arith)
                    requires
                        (a < 0) == (b < 0),
                        a >= 0 ==> ua as int == a as int,
                        a < 0 ==> ua as int == -(a as int),
                        b >= 0 ==> ub as int == b as int,
                        b < 0 ==> ub as int == -(b as int),
                        p == a as int * b as int,
                        m == ua as int * ub as int;
            } else {
                assert(p == -m) by (nonlinear_arith)
                    requires
                        (a < 0) != (b < 0),
                        a >= 0 ==> ua as int == a as int,
                        a < 0 ==> ua as int == -(a as int),
                        b >= 0 ==> ub as int == b as int,
                        b < 0 ==> ub as int == -(b as int),
                        p == a as int * b as int,
                        m == ua as int * ub as int;
            }
        }
        let raw: i128 = if !neg {
            match q {
                Some(q) => {
                    if q <= 0x7fff_ffff_ffff_ffff_ffff_ffff_ffff_ffffu128 {
                        q as i128
                    } else {
                        0x7fff_ffff_ffff_ffff_ffff_ffff
                    }
                },
                None => 0x7fff_ffff_ffff_ffff_ffff_ffff,
            }
        } else {
            let c = match q {
                Some(q) => if rem_nonzero { q.checked_add(1) } else { Some(q) },
                None => None,
            };
            proof {
                let m = ua as int * ub as int;
                if c.is_some() {
                    let cc = c.unwrap() as int;
                    if rem_nonzero {
                        lemma_fundamental_div_mod_converse(-m, 4294967296, -cc, 4294967296 - m % 4294967296);
                    } else {
                        lemma_fundamental_div_mod_converse(-m, 4294967296, -cc, 0);
                    }
                } else if q.is_some() {
                    lemma_fundamental_div_mod_converse(-m, 4294967296, -(q.unwrap() as int) - 1, 4294967296 - m % 4294967296);
                } else {
                    assert(-m / 4294967296 <= -(m / 4294967296)) by (nonlinear_arith)
                        requires m >= 0;
                }
            }
            match c {
                Some(c) => {
                    if c < 0x8000_0000_0000_0000_0000_0000_0000_0000u128 {
                        -(c as i128)
                    } else if c == 0x8000_0000_0000_0000_0000_0000_0000_0000u128 {
                        -0x8000_0000_0000_0000_0000_0000_0000_0000i128
                    } else {
                        -0x8000_0000_0000_0000_0000_0000i128
                    }
                },
                None => -0x8000_0000_0000_0000_0000_0000,
            }
        };
        FixedI128 { raw }
    }
}

/// The magnitude of a signed value.
fn magnitude(a: i128) -> (r: u128)
    ensures
        a >= 0 ==> r as int == a as int,
        a < 0 ==> r as int == -(a as int),
{
    if a >= 0 {
        a as u128
    } else {
        ((-(a + 1)) as u128) + 1
    }
}

/// Splits a `u128` into its high and low 64-bit halves.
proof fn lemma_split64(u: u128)
    ensures
        u as int == (u >> 64u128) as int * 0x1_0000_0000_0000_0000 + (u & 0xffff_ffff_ffff_ffffu128) as int,
        (u & 0xffff_ffff_ffff_ffffu128) < 0x1_0000_0000_0000_0000,
        (u >> 64u128) < 0x1_0000_0000_0000_0000,
        u <= 0x8000_0000_0000_0000_0000_0000_0000_0000u128 ==> (u >> 64u128) <= 0x8000_0000_0000_0000,
{
    assert(u == (u >> 64u128) * 0x1_0000_0000_0000_0000 + (u & 0xffff_ffff_ffff_ffffu128)) by (bit_vector);
    assert((u & 0xffff_ffff_ffff_ffffu128) < 0x1_0000_0000_0000_0000) by (bit_vector);
    assert((u >> 64u128) < 0x1_0000_0000_0000_0000) by (bit_vector);
    assert(u <= 0x8000_0000_0000_0000_0000_0000_0000_0000u128 ==> (u >> 64u128) <= 0x8000_0000_0000_0000) by (bit_vector);
}

/// Computes `floor(ua * ub / 2^32)` (or `None` when it reaches `2^128`)
/// and whether the division leaves a remainder.
fn wide_mul_shr32(ua: u128, ub: u128) -> (res: (Option<u128>, bool))
    requires
        ua <= 0x8000_0000_0000_0000_0000_0000_0000_0000u128,
        ub <= 0x8000_0000_0000_0000_0000_0000_0000_0000u128,
    ensures
        ({
            let m = ua as int * ub as int;
            &&& res.0 matches Some(q) ==> q as int == m / 4294967296
            &&& res.0 is None ==> m / 4294967296 > u128::MAX
            &&& res.1 == (m % 4294967296 != 0)
        }),
{
    let a1 = ua >> 64u128;
    let a0 = ua & 0xffff_ffff_ffff_ffffu128;
    let b1 = ub >> 64u128;
    let b0 = ub & 0xffff_ffff_ffff_ffffu128;
    proof {
        lemma_split64(ua);
        lemma_split64(ub);
    }
    assert(a0 * b0 < 0x1_0000_0000_0000_0000_0000_0000_0000_0000) by (nonlinear_arith)
        requires a0 < 0x1_0000_0000_0000_0000, b0 < 0x1_0000_0000_0000_0000;
    assert(a0 * b1 <= 0x8000_0000_0000_0000_0000_0000_0000_0000) by (nonlinear_arith)
        requires a0 < 0x1_0000_0000_0000_0000, b1 <= 0x8000_0000_0000_0000;
    assert(a1 * b0 <= 0x8000_0000_0000_0000_0000_0000_0000_0000) by (nonlinear_arith)
        requires b0 < 0x1_0000_0000_0000_0000, a1 <= 0x8000_0000_0000_0000;
    assert(a1 * b1 <= 0x4000_0000_0000_0000_0000_0000_0000_0000) by (nonlinear_arith)
        requires a1 <= 0x8000_0000_0000_0000, b1 <= 0x8000_0000_0000_0000;
    let ll = a0 * b0;
    let lh = a0 * b1;
    let hl = a1 * b0;
    let hh = a1 * b1;
    assert(lh as int + hl as int <= u128::MAX) by (nonlinear_arith)
        requires
            a0 < 0x1_0000_0000_0000_0000, b1 <= 0x8000_0000_0000_0000,
            b0 < 0x1_0000_0000_0000_0000, a1 <= 0x8000_0000_0000_0000,
            lh == a0 * b1, hl == a1 * b0;
    let mid = lh + hl;
    let lo_q = ll >> 32u128;
    let rem = ll & 0xffff_ffffu128;
    assert(lo_q == ll / 0x1_0000_0000 && rem == ll % 0x1_0000_0000) by (bit_vector)
        requires lo_q == ll >> 32u128, rem == ll & 0xffff_ffffu128;
    let ghost m = ua as int * ub as int;
    let ghost big = hh as int * 0x1_0000_0000_0000_0000_0000_0000 + mid as int * 0x1_0000_0000 + lo_q as int;
    proof {
        assert(m == hh as int * 0x1_0000_0000_0000_0000_0000_0000_0000_0000 + mid as int * 0x1_0000_0000_0000_0000 + ll as int)
            by (nonlinear_arith)
            requires
                ua as int == a1 as int * 0x1_0000_0000_0000_0000 + a0 as int,
                ub as int == b1 as int * 0x1_0000_0000_0000_0000 + b0 as int,
                m == ua as int * ub as int,
                hh == a1 * b1, lh == a0 * b1, hl == a1 * b0, ll == a0 * b0,
                mid as int == lh as int + hl as int;
        assert(ll as int == lo_q as int * 0x1_0000_0000 + rem as int);
        assert(m == big * 0x1_0000_0000 + rem as int);
        lemma_fundamental_div_mod_converse(m, 0x1_0000_0000, big, rem as int);
    }
    let t1 = hh.checked_mul(0x1_0000_0000_0000_0000_0000_0000u128);
    let t2 = mid.checked_mul(0x1_0000_0000u128);
    let q = match (t1, t2) {
        (Some(x), Some(y)) => match x.checked_add(y) {
            Some(s) => s.checked_add(lo_q),
            None => None,
        },
        _ => None,
    };
    (q, rem != 0)
}

/// `floor(a * b / 2^32)` when it fits in `i128`; otherwise the product saturated
/// to the `i128` range and shifted right by 32 bits.
pub open spec fn fixed_mul_spec(a: i128, b: i128) -> i128 {
    let q = (a as int * b as int) / (FRAC_SCALE as int);
    if i128::MIN <= q <= i128::MAX {
        q as i128
    } else if q > 0 {
        0x7fff_ffff_ffff_ffff_ffff_ffff
    } else {
        -0x8000_0000_0000_0000_0000_0000i128
    }
}

/// Division rounded toward zero, for a positive divisor.
pub open spec fn trunc_div(a: int, d: int) -> int {
    if a >= 0 { a / d } else { -((-a) / d) }
}

impl From<i128> for FixedI128 {
    /// Same as [`FixedI128::from_int`].
    fn from(value: i128) -> (r: FixedI128) {
        FixedI128::from_int(value)
    }
}

impl FromSpecImpl<i128> for FixedI128 {
    open spec fn obeys_from_spec() -> bool {
        true
    }

    open spec fn from_spec(v: i128) -> FixedI128 {
        FixedI128::from_raw_spec(shl32_wrapped(v))
    }
}

impl core::ops::Add for FixedI128 {
    type Output = FixedI128;

    fn add(self, rhs: FixedI128) -> (r: FixedI128) {
        FixedI128 { raw: self.raw + rhs.raw }
    }
}

impl AddSpecImpl for FixedI128 {
    open spec fn obeys_add_spec() -> bool {
        true
    }

    open spec fn add_req(self, rhs: FixedI128) -> bool {
        i128::MIN <= self.raw_spec() + rhs.raw_spec() <= i128::MAX
    }

    open spec fn add_spec(self, rhs: FixedI128) -> FixedI128 {
        FixedI128::from_raw_spec((self.raw_spec() + rhs.raw_spec()) as i128)
    }
}

impl core::ops::Sub for FixedI128 {
    type Output = FixedI128;

    fn sub(self, rhs: FixedI128) -> (r: FixedI128) {
        FixedI128 { raw: self.raw - rhs.raw }
    }
}

impl SubSpecImpl for FixedI128 {
    open spec fn obeys_sub_spec() -> bool {
        true
    }

    open spec fn sub_req(self, rhs: FixedI128) -> bool {
        i128::MIN <= self.raw_spec() - rhs.raw_spec() <= i128::MAX
    }

    open spec fn sub_spec(self, rhs: FixedI128) -> FixedI128 {
        FixedI128::from_raw_spec((self.raw_spec() - rhs.raw_spec()) as i128)
    }
}

impl core::ops::Neg for FixedI128 {
    type Output = FixedI128;

    fn neg(self) -> (r: FixedI128) {
        FixedI128 { raw: -self.raw }
    }
}

impl NegSpecImpl for FixedI128 {
    open spec fn obeys_neg_spec() -> bool {
        true
    }

    open spec fn neg_req(self) -> bool {
        self.raw_spec() != i128::MIN
    }

    open spec fn neg_spec(self) -> FixedI128 {
        FixedI128::from_raw_spec((-self.raw_spec()) as i128)
    }
}

impl core::ops::Mul for FixedI128 {
    type Output = FixedI128;

    fn mul(self, rhs: FixedI128) -> (r: FixedI128) {
        self.fixed_mul(rhs)
    }
}

impl MulSpecImpl for FixedI128 {
    open spec fn obeys_mul_spec() -> bool {
        true
    }

    open spec fn mul_req(self, rhs: FixedI128) -> bool {
        true
    }

    open spec fn mul_spec(self, rhs: FixedI128) -> FixedI128 {
        FixedI128::from_raw_spec(fixed_mul_spec(self.raw_spec(), rhs.raw_spec()))
    }
}

impl core::ops::Div for FixedI128 {
    type Output = FixedI128;

    /// Divides with the dividend pre-shifted by 32 bits (the shift wraps
    /// as `<<` does); the quotient is rounded toward zero.
    fn div(self, rhs: FixedI128) -> (r: FixedI128) {
        let v = self.raw;
        let shifted = v << 32u32;
        assert(shifted == shl32_wrapped(v)) by (bit_vector)
            requires shifted == v << 32u32;
        FixedI128 { raw: shifted / rhs.raw }
    }
}

impl DivSpecImpl for FixedI128 {
    open spec fn obeys_div_spec() -> bool {
        true
    }

    open spec fn div_req(self, rhs: FixedI128) -> bool {
        rhs.raw_spec() != 0 && !(shl32_wrapped(self.raw_spec()) == i128::MIN && rhs.raw_spec() == -1)
    }

    open spec fn div_spec(self, rhs: FixedI128) -> FixedI128 {
        FixedI128::from_raw_spec(trunc_div_signed(shl32_wrapped(self.raw_spec()) as int, rhs.raw_spec() as int) as i128)
    }
}

/// Division rounded toward zero, for any nonzero divisor (the `/` of Rust).
pub open spec fn trunc_div_signed(a: int, d: int) -> int {
    if a >= 0 { a / d } else { -((-a) / d) }
}

} // verus!
