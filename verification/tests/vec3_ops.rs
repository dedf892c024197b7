use renderer::fixed::{from_frac, Fx, SCALE};
use renderer::vector::{cross, dot, reflect, unit_vector, Vec3};

fn v(x: i64, y: i64, z: i64) -> Vec3 {
    Vec3::new(Fx::from_num(x), Fx::from_num(y), Fx::from_num(z))
}

#[test]
fn test_vec3_neg() {
    let a = v(1, 0, -3);
    assert_eq!(a.neg(), v(-1, 0, 3));
}

#[test]
fn test_vec3_add_vec3() {
    let a = v(1, 2, 3);
    let b = v(3, 2, 1);
    let c = a.add(b);
    assert_eq!(c, v(4, 4, 4));
}

#[test]
fn test_vec3_add_f32() {
    let a = v(1, 2, 3);
    let b = a.add_s(Fx::from_num(1));
    assert_eq!(b, v(2, 3, 4));
}

#[test]
fn test_f32_add_vec3() {
    let a = v(1, 2, 3);
    let b = a.add_s(Fx::from_num(1));
    assert_eq!(b, v(2, 3, 4));
}

#[test]
fn test_vec3_add_assign_vec3() {
    let mut a = v(1, 2, 3);
    let b = v(1, 1, 1);
    a.add_assign(b);
    assert_eq!(a, v(2, 3, 4));
}

#[test]
fn test_vec3_add_assign_f32() {
    let mut a = v(1, 2, 3);
    a.add_assign_s(Fx::from_num(1));
    assert_eq!(a, v(2, 3, 4));
}

#[test]
fn test_vec3_mul_f32() {
    let a = v(1, 2, 3);
    let b = a.scale(Fx::from_num(2));
    assert_eq!(b, v(2, 4, 6));
}

#[test]
fn test_f32_mul_vec3() {
    let a = v(1, 2, 3);
    let b = a.scale(Fx::from_num(2));
    assert_eq!(b, v(2, 4, 6));
}

#[test]
fn test_vec3_mul_assign() {
    let mut a = v(1, 2, 3);
    let b = Vec3::new(Fx::from_num(1), Fx::from_num(2), from_frac(1, 2));
    a.mul_assign(b);
    let expected = Vec3::new(Fx::from_num(1), Fx::from_num(4), from_frac(3, 2));
    assert_eq!(a, expected);
}

#[test]
fn test_vec3_div_assign_exact() {
    let mut a = v(1, 2, 3);
    let b = v(2, 4, 8);
    a.div_assign(b);
    let expected = Vec3::new(from_frac(1, 2), from_frac(1, 2), from_frac(3, 8));
    assert_eq!(a, expected);
}

#[test]
fn test_vec3_dot() {
    let a = v(1, 2, 3);
    let b = v(2, 3, 4);
    let dot_product = a.dot(&b);
    assert_eq!(dot_product, Fx::from_num(20));
}

#[test]
fn test_add_commutes() {
    let a = v(3, -7, 11);
    let b = v(-2, 5, 13);
    assert_eq!(a.add(b), b.add(a));
}

#[test]
fn test_add_associates() {
    let a = v(3, -7, 11);
    let b = v(-2, 5, 13);
    let c = v(9, 1, -4);
    assert_eq!(a.add(b).add(c), a.add(b.add(c)));
}

#[test]
fn test_dot_commutes() {
    let a = v(3, -7, 11);
    let b = v(-2, 5, 13);
    assert_eq!(dot(&a, &b), dot(&b, &a));
}

#[test]
fn test_cross_antisymmetric() {
    let a = v(1, 2, 3);
    let b = v(4, 5, 6);
    assert_eq!(cross(&a, &b), cross(&b, &a).neg());
    assert_eq!(cross(&a, &b), v(-3, 6, -3));
}

#[test]
fn test_cross_orthogonal() {
    let a = v(1, 2, 3);
    let b = v(4, 5, 6);
    let c = cross(&a, &b);
    assert_eq!(dot(&c, &a), Fx::zero());
    assert_eq!(dot(&c, &b), Fx::zero());
}

#[test]
fn test_unit_vector_axis_exact() {
    let a = v(7, 0, 0);
    let u = unit_vector(&a);
    assert_eq!(u, v(1, 0, 0));
    assert_eq!(u.length(), Fx::one());
}

#[test]
fn test_unit_vector_length_near_one() {
    let a = v(3, 4, 0);
    let u = unit_vector(&a);
    assert_eq!(u.x.bits(), 39321);
    assert_eq!(u.y.bits(), 52428);
    let len = u.length();
    assert!((len.bits() - SCALE).abs() <= 2);
}

#[test]
fn test_near_zero() {
    assert!(Vec3::zero().near_zero());
    assert!(!Vec3::new(Fx::from_bits(1), Fx::zero(), Fx::zero()).near_zero());
}

#[test]
fn test_reflect_exact() {
    let incoming = v(1, -1, 0);
    let normal = v(0, 1, 0);
    assert_eq!(reflect(&incoming, &normal), v(1, 1, 0));
}

#[test]
fn test_length_squared_and_length() {
    let a = v(3, 4, 0);
    assert_eq!(a.length_squared(), Fx::from_num(25));
    assert_eq!(a.length(), Fx::from_num(5));
}
