use nebula::math::fixed_point::FixedI128;

/// Builds a fixed-point value from a float the way a float conversion does:
/// the value times 2^32, truncated.
fn fx(v: f64) -> FixedI128 {
    FixedI128::from_raw((v * 4294967296.0) as i128)
}

/// The float value of a fixed-point number.
fn to_f64(x: FixedI128) -> f64 {
    x.to_raw() as f64 / 4294967296.0
}

#[test]
fn test_roundtrip_i128() {
    let value: i128 = 42;
    let fixed = FixedI128::from(value);
    assert_eq!(fixed.to_int(), value);
}

#[test]
fn test_roundtrip_i128_negative() {
    let value: i128 = -1000;
    let fixed = FixedI128::from(value);
    assert_eq!(fixed.to_int(), value);
}

#[test]
fn test_roundtrip_f64() {
    let value: f64 = std::f64::consts::PI;
    let fixed = fx(value);
    let back: f64 = to_f64(fixed);
    assert!((back - value).abs() < 1e-9);
}

#[test]
fn test_fractional_half() {
    let half = fx(0.5_f64);
    let back: f64 = to_f64(half);
    assert!((back - 0.5).abs() < 1e-10);
}

#[test]
fn test_fractional_quarter() {
    let quarter = fx(0.25_f64);
    let back: f64 = to_f64(quarter);
    assert!((back - 0.25).abs() < 1e-10);
}

#[test]
fn test_fractional_eighth() {
    let eighth = fx(0.125_f64);
    let back: f64 = to_f64(eighth);
    assert!((back - 0.125).abs() < 1e-10);
}

#[test]
fn fixed_point_test_add() {
    let a = fx(1.5_f64);
    let b = fx(2.25_f64);
    let result: f64 = to_f64(a + b);
    assert!((result - 3.75).abs() < 1e-9);
}

#[test]
fn fixed_point_test_sub() {
    let a = fx(5.75_f64);
    let b = fx(2.25_f64);
    let result: f64 = to_f64(a - b);
    assert!((result - 3.5).abs() < 1e-9);
}

#[test]
fn test_mul() {
    let a = fx(3.0_f64);
    let b = fx(4.0_f64);
    let result: f64 = to_f64(a.fixed_mul(b));
    assert!((result - 12.0).abs() < 1e-9);
}

#[test]
fn test_mul_fractional() {
    let a = fx(2.5_f64);
    let b = fx(4.0_f64);
    let result: f64 = to_f64(a.fixed_mul(b));
    assert!((result - 10.0).abs() < 1e-9);
}

#[test]
fn test_div() {
    let a = fx(10.0_f64);
    let b = fx(4.0_f64);
    let result: f64 = to_f64(a / b);
    assert!((result - 2.5).abs() < 1e-9);
}

#[test]
fn test_ordering() {
    let a = fx(1.0_f64);
    let b = fx(2.0_f64);
    assert!(a < b);
    assert!(b > a);
}

#[test]
fn test_from_int_zero() {
    let z = FixedI128::from(0i128);
    assert_eq!(z, FixedI128::default());
}

#[test]
fn test_precision_does_not_degrade() {
    let v = fx(1.5_f64);
    let result: f64 = to_f64(v.fixed_mul(v));
    assert!((result - 2.25).abs() < 1e-9);
}

#[test]
fn fixed_mul_exact_raw_values() {
    // 1.5 * 1.5 = 2.25 exactly in raw units.
    let v = FixedI128::from_raw(3 << 31);
    assert_eq!(v.fixed_mul(v).to_raw(), 9 << 30);
    // Negative products round toward negative infinity: -1.5 raw units -> -2.
    let tiny = FixedI128::from_raw(-1);
    let one_and_half = FixedI128::from_raw(3 << 31);
    assert_eq!(tiny.fixed_mul(one_and_half).to_raw(), -2);
}

#[test]
fn fixed_mul_saturates_beyond_range() {
    let big = FixedI128::from_raw(i128::MAX);
    assert_eq!(big.fixed_mul(big).to_raw(), i128::MAX >> 32);
    let neg = FixedI128::from_raw(i128::MIN);
    assert_eq!(neg.fixed_mul(big).to_raw(), i128::MIN >> 32);
}

#[test]
fn to_int_truncates_toward_zero() {
    assert_eq!(FixedI128::from_raw(-(3 << 31)).to_int(), -1);
    assert_eq!(FixedI128::from_raw(3 << 31).to_int(), 1);
    assert_eq!(FixedI128::from_int(-7).to_raw(), -7 << 32);
}

#[test]
fn neg_and_div_raw_values() {
    let a = FixedI128::from_int(7);
    assert_eq!((-a).to_raw(), -(7 << 32));
    let b = FixedI128::from_int(2);
    assert_eq!((a / b).to_raw(), 7 << 31);
}
