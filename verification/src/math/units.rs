//! Distance units: internal units are millimetres stored in `i128`.

use vstd::prelude::*;
use vstd::arithmetic::div_mod::{lemma_fundamental_div_mod, lemma_fundamental_div_mod_converse};

verus! {

/// 1 meter = 1,000 millimeters.
pub const UNITS_PER_METER: i128 = 1_000;

/// 1 kilometer = 1,000,000 millimeters.
pub const UNITS_PER_KILOMETER: i128 = 1_000_000;

/// 1 astronomical unit = 149,597,870,700 m (IAU 2012 exact definition).
pub const UNITS_PER_AU: i128 = 149_597_870_700_000;

/// 1 light-year = 9,460,730,472,580,800 m (IAU definition).
pub const UNITS_PER_LIGHT_YEAR: i128 = 9_460_730_472_580_800_000;

/// 1 parsec ≈ 3.26156 light-years.
pub const UNITS_PER_PARSEC: i128 = 30_856_775_814_913_673_000;

/// 1 centimeter = 10 mm.
pub const UNITS_PER_CENTIMETER: i128 = 10;

/// 1 inch = 25.4 mm, rounded to 25 for integer use.
pub const UNITS_PER_INCH: i128 = 25;

/// Mean Earth radius ≈ 6,371 km.
pub const EARTH_RADIUS_UNITS: i128 = 6_371_000_000;

/// Solar radius ≈ 695,700 km.
pub const SOLAR_RADIUS_UNITS: i128 = 695_700_000_000;

/// The ASCII digit for `d` (`0..=9`).
pub open spec fn digit_char(d: nat) -> char {
    if d == 0 { '0' }
    else if d == 1 { '1' }
    else if d == 2 { '2' }
    else if d == 3 { '3' }
    else if d == 4 { '4' }
    else if d == 5 { '5' }
    else if d == 6 { '6' }
    else if d == 7 { '7' }
    else if d == 8 { '8' }
    else { '9' }
}

/// The decimal digits of `n`, without leading zeros.
pub open spec fn nat_to_decimal(n: nat) -> Seq<char>
    decreases n,
{
    if n < 10 {
        seq![digit_char(n)]
    } else {
        nat_to_decimal(n / 10).push(digit_char(n % 10))
    }
}

/// The decimal form of an integer, with a leading `-` when negative.
pub open spec fn int_to_decimal(v: int) -> Seq<char> {
    if v < 0 { seq!['-'] + nat_to_decimal((-v) as nat) } else { nat_to_decimal(v as nat) }
}

/// `n` (below 1000) as exactly three digits.
pub open spec fn three_digits(n: nat) -> Seq<char> {
    seq![digit_char(n / 100), digit_char((n / 10) % 10), digit_char(n % 10)]
}

/// `a / u` rounded to thousandths, ties to the even thousandth.
pub open spec fn rounded_thousandths(a: nat, u: nat) -> nat {
    let q = (a * 1000) / u;
    let r = (a * 1000) % u;
    if 2 * r > u || (2 * r == u && q % 2 == 1) { q + 1 } else { q }
}

/// `a / u` written with exactly three decimals, rounded half to even.
pub open spec fn decimal3(a: nat, u: nat) -> Seq<char> {
    let t = rounded_thousandths(a, u);
    nat_to_decimal(t / 1000) + seq!['.'] + three_digits(t % 1000)
}

/// The human-readable form of a distance in millimetres.
pub open spec fn format_distance_spec(units: int) -> Seq<char> {
    let a: nat = if units < 0 { (-units) as nat } else { units as nat };
    let sign: Seq<char> = if units < 0 { seq!['-'] } else { Seq::empty() };
    if a >= UNITS_PER_LIGHT_YEAR {
        sign + decimal3(a, UNITS_PER_LIGHT_YEAR as nat) + seq![' ', 'l', 'y']
    } else if a >= UNITS_PER_AU {
        sign + decimal3(a, UNITS_PER_AU as nat) + seq![' ', 'A', 'U']
    } else if a >= UNITS_PER_KILOMETER {
        sign + decimal3(a, UNITS_PER_KILOMETER as nat) + seq![' ', 'k', 'm']
    } else if a >= UNITS_PER_METER {
        sign + decimal3(a, UNITS_PER_METER as nat) + seq![' ', 'm']
    } else {
        sign + nat_to_decimal(a) + seq![' ', 'm', 'm']
    }
}

/// Appends one character to a string (`String::push`).
#[verifier::external_body]
pub(crate) fn push_char(s: &mut String, c: char)
    ensures
        final(s)@ == old(s)@.push(c),
{
    s.push(c);
}

/// The ASCII digit for `d`.
fn digit(d: u128) -> (c: char)
    requires
        d < 10,
    ensures
        c == digit_char(d as nat),
{
    if d == 0 { '0' }
    else if d == 1 { '1' }
    else if d == 2 { '2' }
    else if d == 3 { '3' }
    else if d == 4 { '4' }
    else if d == 5 { '5' }
    else if d == 6 { '6' }
    else if d == 7 { '7' }
    else if d == 8 { '8' }
    else { '9' }
}

/// The decimal digits of `n` taken from `n / 10^k` on, for the lemma below.
proof fn lemma_decimal_unfold(n: nat)
    requires
        n >= 10,
    ensures
        nat_to_decimal(n) == nat_to_decimal(n / 10).push(digit_char(n % 10)),
{
}

/// Appends the decimal digits of `n` to `s`.
pub fn push_decimal(s: &mut String, n: u128)
    ensures
        final(s)@ == old(s)@ + nat_to_decimal(n as nat),
    decreases n,
{
    if n < 10 {
        push_char(s, digit(n));
    } else {
        push_decimal(s, n / 10);
        push_char(s, digit(n % 10));
        proof {
            lemma_decimal_unfold(n as nat);
            assert(final(s)@ =~= old(s)@ + nat_to_decimal(n as nat));
        }
    }
}

/// Appends `n` (below 1000) as exactly three digits.
fn push_three_digits(s: &mut String, n: u128)
    requires
        n < 1000,
    ensures
        final(s)@ == old(s)@ + three_digits(n as nat),
{
    push_char(s, digit(n / 100));
    push_char(s, digit((n / 10) % 10));
    push_char(s, digit(n % 10));
    assert(final(s)@ =~= old(s)@ + three_digits(n as nat));
}

/// Appends `a / u` with three decimals, rounded half to even.
fn push_decimal3(s: &mut String, a: u128, u: u128)
    requires
        0 < u <= UNITS_PER_LIGHT_YEAR,
    ensures
        final(s)@ == old(s)@ + decimal3(a as nat, u as nat),
{
    let whole = a / u;
    let rem = a % u;
    let frac_num = rem * 1000;
    let f = frac_num / u;
    let r = frac_num % u;
    let round_up = 2 * r > u || (2 * r == u && f % 2 == 1);
    proof {
        let q = whole as int * 1000 + f as int;
        lemma_fundamental_div_mod(a as int, u as int);
        lemma_fundamental_div_mod(frac_num as int, u as int);
        assert(0 <= rem < u && 0 <= r < u);
        assert(a as int * 1000 == q * u as int + r as int) by (nonlinear_arith)
            requires
                a as int == u as int * whole as int + rem as int,
                frac_num as int == rem as int * 1000,
                frac_num as int == u as int * f as int + r as int,
                q == whole as int * 1000 + f as int;
        lemma_fundamental_div_mod_converse(a as int * 1000, u as int, q, r as int);
        assert(f < 1000) by (nonlinear_arith)
            requires rem < u, frac_num == rem * 1000, f == frac_num / u, u > 0;
    }
    let ghost t = rounded_thousandths(a as nat, u as nat);
    if round_up && f == 999 {
        // Rounding carries into the whole part.
        assert(whole < u128::MAX) by (nonlinear_arith)
            requires whole == a / u, u > 1;
        push_decimal(s, whole + 1);
        push_char(s, '.');
        push_three_digits(s, 0);
        assert(t / 1000 == whole + 1 && t % 1000 == 0);
    } else {
        let f2 = if round_up { f + 1 } else { f };
        push_decimal(s, whole);
        push_char(s, '.');
        push_three_digits(s, f2);
        assert(t / 1000 == whole && t % 1000 == f2);
    }
    assert(final(s)@ =~= old(s)@ + decimal3(a as nat, u as nat));
}

/// Formats a distance in internal units as a human-readable string,
/// choosing the largest unit the distance reaches.
///
/// Distances of a metre or more are written with three decimals, rounded
/// half to even: 500 -> "500 mm", 1_500 -> "1.500 m", 5_000_000 -> "5.000 km",
/// 149_597_870_700_000 -> "1.000 AU", 9_460_730_472_580_800_000 -> "1.000 ly".
///
/// The rounding is done on the exact quotient of integers. Formatting the
/// quotient as an `f64` with three decimals can round a decimal tie the
/// other way, because the tie is not exactly representable in binary:
/// 1_063_500 mm is "1.064 km" here (the tie goes to the even thousandth),
/// where the `f64` 1.0635 prints as "1.063".
pub fn format_distance(units: i128) -> (s: String)
    requires
        units != i128::MIN,
    ensures
        s@ == format_distance_spec(units as int),
{
    let a: u128 = if units < 0 { (-units) as u128 } else { units as u128 };
    let mut s = String::new();
    if units < 0 {
        push_char(&mut s, '-');
    }
    let ghost sign = s@;
    if a >= 9_460_730_472_580_800_000u128 {
        push_decimal3(&mut s, a, 9_460_730_472_580_800_000u128);
        push_char(&mut s, ' ');
        push_char(&mut s, 'l');
        push_char(&mut s, 'y');
    } else if a >= 149_597_870_700_000u128 {
        push_decimal3(&mut s, a, 149_597_870_700_000u128);
        push_char(&mut s, ' ');
        push_char(&mut s, 'A');
        push_char(&mut s, 'U');
    } else if a >= 1_000_000u128 {
        push_decimal3(&mut s, a, 1_000_000u128);
        push_char(&mut s, ' ');
        push_char(&mut s, 'k');
        push_char(&mut s, 'm');
    } else if a >= 1_000u128 {
        push_decimal3(&mut s, a, 1_000u128);
        push_char(&mut s, ' ');
        push_char(&mut s, 'm');
    } else {
        push_decimal(&mut s, a);
        push_char(&mut s, ' ');
        push_char(&mut s, 'm');
        push_char(&mut s, 'm');
    }
    assert(s@ =~= format_distance_spec(units as int));
    s
}

} // verus!
