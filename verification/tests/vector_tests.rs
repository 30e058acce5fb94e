use nebula::math::vector::{Vec2I128, Vec3I128};

#[test]
fn vector_test_add() {
    let a = Vec3I128::new(1, 2, 3);
    let b = Vec3I128::new(10, 20, 30);
    assert_eq!(a + b, Vec3I128::new(11, 22, 33));
}

#[test]
fn vector_test_sub() {
    let a = Vec3I128::new(10, 20, 30);
    let b = Vec3I128::new(1, 2, 3);
    assert_eq!(a - b, Vec3I128::new(9, 18, 27));
}

#[test]
fn vector_test_neg() {
    let v = Vec3I128::new(1, -2, 3);
    assert_eq!(-v, Vec3I128::new(-1, 2, -3));
}

#[test]
fn vector_test_scalar_mul() {
    let v = Vec3I128::new(2, 3, 4);
    assert_eq!(v * 10, Vec3I128::new(20, 30, 40));
}

#[test]
fn vector_test_scalar_div() {
    let v = Vec3I128::new(20, 30, 40);
    assert_eq!(v / 10, Vec3I128::new(2, 3, 4));
}

#[test]
fn test_scalar_div_truncates() {
    let v = Vec3I128::new(7, 7, 7);
    assert_eq!(v / 2, Vec3I128::new(3, 3, 3));
}

#[test]
fn test_zero_vector() {
    let z = Vec3I128::zero();
    assert_eq!(z, Vec3I128::new(0, 0, 0));
    assert_eq!(z, Vec3I128::default());
}

#[test]
fn test_basis_vectors() {
    assert_eq!(Vec3I128::unit_x(), Vec3I128::new(1, 0, 0));
    assert_eq!(Vec3I128::unit_y(), Vec3I128::new(0, 1, 0));
    assert_eq!(Vec3I128::unit_z(), Vec3I128::new(0, 0, 1));
}

#[test]
fn test_checked_add_overflow() {
    let v = Vec3I128::new(i128::MAX, 0, 0);
    assert!(v.checked_add(Vec3I128::new(1, 0, 0)).is_none());
}

#[test]
fn test_saturating_add() {
    let v = Vec3I128::new(i128::MAX, 0, 0);
    let result = v.saturating_add(Vec3I128::new(1, 0, 0));
    assert_eq!(result.x, i128::MAX);
}

#[test]
fn test_vec2_add() {
    let a = Vec2I128::new(1, 2);
    let b = Vec2I128::new(10, 20);
    assert_eq!(a + b, Vec2I128::new(11, 22));
}

#[test]
fn test_dot_orthogonal_is_zero() {
    let x = Vec3I128::unit_x();
    let y = Vec3I128::unit_y();
    assert_eq!(x.dot(y), 0);
}

#[test]
fn test_dot_parallel() {
    let v = Vec3I128::new(3, 0, 0);
    let w = Vec3I128::new(5, 0, 0);
    assert_eq!(v.dot(w), 15);
}

#[test]
fn test_dot_antiparallel() {
    let v = Vec3I128::new(3, 0, 0);
    let w = Vec3I128::new(-5, 0, 0);
    assert_eq!(v.dot(w), -15);
}

#[test]
fn test_dot_general() {
    let a = Vec3I128::new(1, 2, 3);
    let b = Vec3I128::new(4, 5, 6);
    assert_eq!(a.dot(b), 32);
}

#[test]
fn test_cross_basis_vectors() {
    let x = Vec3I128::unit_x();
    let y = Vec3I128::unit_y();
    let z = Vec3I128::unit_z();
    assert_eq!(x.cross(y), z);
    assert_eq!(y.cross(z), x);
    assert_eq!(z.cross(x), y);
}

#[test]
fn test_cross_anti_commutativity() {
    let a = Vec3I128::new(1, 2, 3);
    let b = Vec3I128::new(4, 5, 6);
    assert_eq!(a.cross(b), -b.cross(a));
}

#[test]
fn test_cross_self_is_zero() {
    let v = Vec3I128::new(7, 11, 13);
    assert_eq!(v.cross(v), Vec3I128::zero());
}

#[test]
fn test_component_min() {
    let a = Vec3I128::new(1, 5, 3);
    let b = Vec3I128::new(4, 2, 6);
    assert_eq!(a.component_min(b), Vec3I128::new(1, 2, 3));
}

#[test]
fn test_component_max() {
    let a = Vec3I128::new(1, 5, 3);
    let b = Vec3I128::new(4, 2, 6);
    assert_eq!(a.component_max(b), Vec3I128::new(4, 5, 6));
}

#[test]
fn test_checked_dot_overflow_returns_none() {
    let v = Vec3I128::new(i128::MAX, 0, 0);
    let w = Vec3I128::new(2, 0, 0);
    assert!(v.checked_dot(w).is_none());
}

#[test]
fn test_checked_cross_overflow_returns_none() {
    let v = Vec3I128::new(0, i128::MAX, 0);
    let w = Vec3I128::new(0, 0, 2);
    assert!(v.checked_cross(w).is_none());
}

#[test]
fn test_vec2_dot() {
    let a = Vec2I128::new(3, 4);
    let b = Vec2I128::new(1, 2);
    assert_eq!(a.dot(b), 11);
}

#[test]
fn test_vec2_perp_dot() {
    let a = Vec2I128::new(1, 0);
    let b = Vec2I128::new(0, 1);
    assert_eq!(a.perp_dot(b), 1);
}

#[test]
fn cross_is_orthogonal_to_operands() {
    let a = Vec3I128::new(3, -7, 2);
    let b = Vec3I128::new(-4, 1, 9);
    let c = a.cross(b);
    assert_eq!(c.dot(a), 0);
    assert_eq!(c.dot(b), 0);
}

#[test]
fn checked_and_saturating_variants() {
    let v = Vec3I128::new(i128::MIN, 5, 0);
    assert_eq!(v.saturating_sub(Vec3I128::new(1, 0, 0)).x, i128::MIN);
    assert_eq!(
        Vec3I128::new(1, 2, 3).checked_sub(Vec3I128::new(1, 1, 1)),
        Some(Vec3I128::new(0, 1, 2))
    );
    assert_eq!(Vec3I128::new(1, 2, 3).checked_dot(Vec3I128::new(4, 5, 6)), Some(32));
    assert_eq!(Vec2I128::new(2, 3).checked_perp_dot(Vec2I128::new(4, 5)), Some(-2));
    assert!(Vec2I128::new(i128::MAX, 0).checked_dot(Vec2I128::new(2, 0)).is_none());
    assert_eq!(Vec2I128::new(-7, 7) / 2, Vec2I128::new(-3, 3));
    assert_eq!(Vec2I128::new(1, 5).component_min(Vec2I128::new(4, 2)), Vec2I128::new(1, 2));
}
