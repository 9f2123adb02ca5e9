use pointmass::fixed::SCALE;
use pointmass::vec3::Vector3;

#[test]
fn invert_regular() {
    let mut v = Vector3::new(1_000_000, -1_500_000, 1_111_000);
    v.invert();
    assert_eq!(v.x, -1_000_000);
    assert_eq!(v.y, 1_500_000);
    assert_eq!(v.z, -1_111_000);
}

#[test]
fn invert_zero() {
    let mut v = Vector3::new(0, 0, 0);
    v.invert();
    assert_eq!(v.x, 0);
    assert_eq!(v.y, 0);
    assert_eq!(v.z, 0);
}

#[test]
fn invert_twice_restores() {
    let mut v = Vector3::new(123_456, -789_012, 345_678);
    v.invert();
    v.invert();
    assert_eq!(v, Vector3::new(123_456, -789_012, 345_678));
}

#[test]
fn magnitude() {
    // (1.2, 1.25, 1.4) has magnitude 2.2276669..., truncated at the scale.
    let v = Vector3::new(1_200_000, 1_250_000, 1_400_000);
    assert_eq!(v.magnitude(), 2_227_666);
}

#[test]
fn magnitude_of_zero_vector_is_zero() {
    assert_eq!(Vector3::new(0, 0, 0).magnitude(), 0);
}

#[test]
fn magnitude_of_nonzero_vector_is_positive() {
    assert!(Vector3::new(0, 0, 1).magnitude() > 0);
    assert!(Vector3::new(-1, 0, 0).magnitude() > 0);
}

#[test]
fn normalize_already_normalized() {
    // Each component is 1 / sqrt(3) = 0.57735...; normalizing keeps them.
    let x = 577_350;
    let mut v = Vector3::new(x, x, x);
    v.normalize();
    assert_eq!(v.x, x);
    assert_eq!(v.y, x);
    assert_eq!(v.z, x);
}

#[test]
fn normalize_gives_unit_magnitude() {
    let mut v = Vector3::new(3_000_000, 4_000_000, 0);
    assert_eq!(v.magnitude(), 5_000_000);
    v.normalize();
    assert_eq!(v, Vector3::new(600_000, 800_000, 0));
    assert_eq!(v.magnitude(), SCALE);
}

#[test]
fn normalize_magnitude_within_tolerance() {
    // A vector that does not divide evenly still normalizes to within a
    // few fixed-point units of unit length.
    let mut v = Vector3::new(1_200_000, 1_250_000, 1_400_000);
    v.normalize();
    assert_eq!(v, Vector3::new(538_680, 561_125, 628_460));
    let m = v.magnitude();
    assert!(SCALE - 4 <= m && m <= SCALE + 1);
    assert_eq!(m, 999_999);
}

#[test]
fn clear_zeroes_every_component() {
    let mut v = Vector3::new(1_000_000, -2_000_000, 3_000_000);
    v.clear();
    assert_eq!(v, Vector3::new(0, 0, 0));
}

#[test]
fn arithmetics() {
    let x = 1_000_000;
    let v1 = Vector3::new(x, x, x);
    let v2 = Vector3::new(x, -x, x);
    let mut res = v1.add(v2);

    assert_eq!(res.x, 2_000_000);
    assert_eq!(res.y, 0);
    assert_eq!(res.z, 2_000_000);

    res.add_assign(v1);
    assert_eq!(res.x, 3_000_000);
    assert_eq!(res.y, 1_000_000);
    assert_eq!(res.z, 3_000_000);

    res.div_assign(2_000_000);
    assert_eq!(res.x, 1_500_000);
    assert_eq!(res.y, 500_000);
    assert_eq!(res.z, 1_500_000);

    res.mul_assign(-1_000_000);
    assert_eq!(res.x, -1_500_000);
    assert_eq!(res.y, -500_000);
    assert_eq!(res.z, -1_500_000);
}

#[test]
fn subtraction_is_exact() {
    let v1 = Vector3::new(5_000_000, -2_000_000, 750_000);
    let v2 = Vector3::new(1_250_000, 1_250_000, -250_000);
    let d = v1.sub(v2);
    assert_eq!(d, Vector3::new(3_750_000, -3_250_000, 1_000_000));
    let mut w = v1;
    w.sub_assign(v2);
    assert_eq!(w, d);
}

#[test]
fn scaling_truncates_toward_zero() {
    // Half of the smallest positive and negative scalars is zero either
    // way: rescaling rounds toward zero, not toward negative infinity.
    let v = Vector3::new(1, -1, 0).mul(500_000);
    assert_eq!(v, Vector3::new(0, 0, 0));
    let w = Vector3::new(1, -1, 0).mul(1_500_000);
    assert_eq!(w, Vector3::new(1, -1, 0));
}

#[test]
fn division_by_negative_scalar() {
    let v = Vector3::new(3_000_000, -2_000_000, 1_000_000).div(-2_000_000);
    assert_eq!(v, Vector3::new(-1_500_000, 1_000_000, -500_000));
}

#[test]
fn dot_product_test() {
    let v1 = Vector3::new(1_000_000, 0, 0);
    let v2 = Vector3::new(0, 1_000_000, 0);

    // v1 & v2 are perpendicular to each other, therefore their dot
    // product should be 0.
    assert_eq!(v1.dot_product(&v2), 0);

    let v1 = Vector3::new(1_000_000, 1_000_000, 0);
    let v2 = Vector3::new(3_000_000, 2_300_000, 0);
    // v1 & v2 point in the same direction, therefore their dot product
    // should be positive.
    assert!(v1.dot_product(&v2) > 0);
    assert_eq!(v1.dot_product(&v2), 5_300_000);

    let v1 = Vector3::new(1_000_000, 1_000_000, 0);
    let v2 = Vector3::new(-3_000_000, -2_300_000, 3_000_000);
    // v1 & v2 point in opposite directions, therefore their dot product
    // should be negative.
    assert!(v1.dot_product(&v2) < 0);
    assert_eq!(v1.dot_product(&v2), -5_300_000);
}

#[test]
fn dot_product_is_symmetric() {
    let a = Vector3::new(123_456, -789_012, 345_678);
    let b = Vector3::new(910_111, 213_141, -516_171);
    assert_eq!(a.dot_product(&b), b.dot_product(&a));
    assert_eq!(a.dot_product(&b), -234_241);
}

#[test]
fn cross_product_test() {
    let v1 = Vector3::new(2_000_000, 0, 0);
    let v2 = Vector3::new(0, 2_000_000, 0);

    // The area of the parallelogram formed by v1 & v2 is 4, which should
    // be the magnitude of their cross product.
    assert_eq!(v1.cross_product(&v2).magnitude(), 4_000_000);

    let v1 = Vector3::new(-1_000_000, 3_200_000, 4_000_000);
    let v2 = Vector3::new(-2_200_000, 1_000_000, -500_000);
    let res = v1.cross_product(&v2);

    // The cross product should be perpendicular to both v1 and v2.
    // Therefore, the dot product should be 0 for both v1 and v2.
    assert_eq!(v1.dot_product(&res), 0);
    assert_eq!(v2.dot_product(&res), 0);

    // Assert we got the expected result (and not the left-hand vector)
    assert_eq!(res.x, -5_600_000);
    assert_eq!(res.y, -9_300_000);
    assert_eq!(res.z, 6_040_000);
}

#[test]
fn cross_product_is_anticommutative() {
    let a = Vector3::new(1_000_000, 2_000_000, 3_000_000);
    let b = Vector3::new(-4_000_000, 5_000_000, -6_000_000);
    let mut swapped = b.cross_product(&a);
    swapped.invert();
    assert_eq!(a.cross_product(&b), swapped);
}
