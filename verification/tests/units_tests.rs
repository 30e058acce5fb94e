use nebula::math::units::{
    format_distance, UNITS_PER_AU, UNITS_PER_CENTIMETER, UNITS_PER_INCH, UNITS_PER_LIGHT_YEAR, UNITS_PER_METER,
};

#[test]
fn test_au_constant_astronomically_correct() {
    assert_eq!(UNITS_PER_AU, 149_597_870_700 * UNITS_PER_METER);
}

#[test]
fn test_light_year_constant_astronomically_correct() {
    assert_eq!(UNITS_PER_LIGHT_YEAR, 9_460_730_472_580_800 * UNITS_PER_METER);
}

#[test]
fn test_format_distance_mm() {
    assert_eq!(format_distance(500), "500 mm");
}

#[test]
fn test_format_distance_meters() {
    let s = format_distance(1_500);
    assert!(s.contains("m"));
    assert!(s.contains("1.500"));
}

#[test]
fn test_format_distance_km() {
    let s = format_distance(5_000_000);
    assert!(s.contains("km"));
}

#[test]
fn test_format_distance_au() {
    let s = format_distance(UNITS_PER_AU);
    assert!(s.contains("AU"));
    assert!(s.contains("1.000"));
}

#[test]
fn test_format_distance_ly() {
    let s = format_distance(UNITS_PER_LIGHT_YEAR);
    assert!(s.contains("ly"));
    assert!(s.contains("1.000"));
}

#[test]
fn test_format_distance_negative() {
    let s = format_distance(-1500);
    assert!(s.starts_with("-"));
    assert!(s.contains("m"));
}

#[test]
fn test_centimeter_constant() {
    assert_eq!(UNITS_PER_CENTIMETER, 10);
}

#[test]
fn test_inch_constant() {
    assert_eq!(UNITS_PER_INCH, 25);
}

#[test]
fn format_distance_exact_strings() {
    assert_eq!(format_distance(0), "0 mm");
    assert_eq!(format_distance(1_500), "1.500 m");
    assert_eq!(format_distance(-1_500), "-1.500 m");
    assert_eq!(format_distance(5_000_000), "5.000 km");
    assert_eq!(format_distance(UNITS_PER_AU), "1.000 AU");
    assert_eq!(format_distance(UNITS_PER_LIGHT_YEAR), "1.000 ly");
}

#[test]
fn format_distance_rounds_half_to_even() {
    // 1.0005 km rounds to 1.000 (even), 1.0015 km to 1.002.
    assert_eq!(format_distance(1_000_500), "1.000 km");
    assert_eq!(format_distance(1_001_500), "1.002 km");
    // A carry out of the decimals reaches the whole part.
    assert_eq!(format_distance(1_999_999), "2.000 km");
}
