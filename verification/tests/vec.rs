use crab_rt::scalar::Scalar;
use crab_rt::vec::Vec3;

fn s(value: f32) -> Scalar {
    Scalar::from_bits(value.to_bits())
}

fn f(value: Scalar) -> f32 {
    f32::from_bits(value.to_bits())
}

fn v(x: f32, y: f32, z: f32) -> Vec3 {
    Vec3::new(s(x), s(y), s(z))
}

#[test]
fn vec3_is_zero() {
    assert_eq!(v(0., 0., 0.).is_zero(), true);
    assert_eq!(v(0., 1., 0.).is_zero(), false);
}

#[test]
fn vec3_neg() {
    let testee = v(1.0, 2.0, 3.0).neg();

    assert_eq!(f(testee.x), -1.0);
    assert_eq!(f(testee.y), -2.0);
    assert_eq!(f(testee.z), -3.0);
}

#[test]
fn vec3_index() {
    let testee = v(1.0, 2.0, 3.0);

    assert_eq!(f(testee.index(0)), 1.0);
    assert_eq!(f(testee.index(1)), 2.0);
    assert_eq!(f(testee.index(2)), 3.0);
}

#[test]
fn vec3_index_mut() {
    let mut testee = v(1.0, 2.0, 3.0);
    let x = f(testee.index(0));
    *testee.index_mut(0) = s(x + 3.0);
    let y = f(testee.index(1));
    *testee.index_mut(1) = s(y * 4.0);
    let z = f(testee.index(2));
    *testee.index_mut(2) = s(z - 12.0);

    assert_eq!(f(testee.x), 4.0);
    assert_eq!(f(testee.y), 8.0);
    assert_eq!(f(testee.z), -9.0);
}

#[test]
fn vec3_new_keeps_the_coordinates() {
    let u = v(1., 2., 3.);

    assert_eq!(f(u.x), 1.);
    assert_eq!(f(u.y), 2.);
    assert_eq!(f(u.z), 3.);
}

#[test]
fn vec3_zero_is_three_zeros() {
    assert_eq!(Vec3::zero(), v(0., 0., 0.));
    assert_eq!(Vec3::zero(), v(-0., 0., -0.));
    assert!(v(-0., 0., -0.).is_zero());
}

#[test]
fn vec3_white_is_three_ones() {
    assert_eq!(Vec3::white(), v(1., 1., 1.));
}

#[test]
fn vec3_is_near_zero_below_the_bound() {
    assert_eq!(v(0., 1., 2.).is_near_zero(), false);
    assert_eq!(v(1e-9, 1e-10, 1e-11).is_near_zero(), true);
    assert_eq!(v(-1e-9, 1e-10, -1e-11).is_near_zero(), true);
    assert_eq!(v(1e-8, 0., 0.).is_near_zero(), false);
    assert_eq!(v(0., 0., 0.).is_near_zero(), true);
}

#[test]
fn vec3_abs_removes_the_signs() {
    assert_eq!(v(-1., 2., -3.).abs(), v(1., 2., 3.));
}

#[test]
fn vec3_min_max_by_coordinate() {
    let u = v(1., 2., 3.);
    let w = v(0., 4., 2.);

    assert_eq!(u.min(&w), v(0., 2., 2.));
    assert_eq!(u.max(&w), v(1., 4., 3.));
    assert_eq!(w.min(&u), v(0., 2., 2.));
    assert_eq!(w.max(&u), v(1., 4., 3.));
}

#[test]
fn vec3_equality_is_that_of_the_numbers() {
    assert!(v(1., 2., 3.) == v(1., 2., 3.));
    assert!(v(1., 2., 3.) != v(1., 2., 4.));
    assert!(v(0., 0., 0.) == v(-0., -0., -0.));
    let nan = Vec3 { x: s(f32::NAN), y: s(0.), z: s(0.) };
    assert!(nan != nan);
}
