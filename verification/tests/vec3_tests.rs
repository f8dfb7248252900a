use raytrace::fx::SCALE;
use raytrace::vec3::{GeomError, Vec3};

fn fx(i: i64) -> i64 {
    i * SCALE
}

#[test]
fn len() {
    let a = Vec3::new(fx(1), fx(2), fx(3));
    assert_eq!(a.len_sq(), fx(14));
    let expected = ((14.0f64).sqrt() * SCALE as f64).floor() as i64;
    assert_eq!(a.len(), expected);
}

#[test]
fn norm() {
    let a = Vec3::new(fx(1), fx(2), fx(3));
    let n = a.norm().unwrap();
    assert!((n.len_sq() - SCALE).abs() <= 8);
}

#[test]
fn neg() {
    let a = Vec3::new(fx(1), fx(2), fx(3));
    assert_eq!(a.neg(), Vec3::new(fx(-1), fx(-2), fx(-3)));
}

#[test]
fn scale() {
    let v = Vec3::new(fx(1), fx(2), fx(3));
    let s = fx(2);
    let r = Vec3::new(fx(2), fx(4), fx(6));
    assert_eq!(v.scale(s), r);
}

#[test]
fn div() {
    let a = Vec3::new(fx(2), fx(4), fx(6));
    assert_eq!(a.div(fx(2)), Vec3::new(fx(1), fx(2), fx(3)));
}

#[test]
fn add() {
    let a = Vec3::new(fx(1), fx(2), fx(3));
    let b = Vec3::new(fx(10), fx(20), fx(30));
    assert_eq!(a.add(&b), Vec3::new(fx(11), fx(22), fx(33)));
}

#[test]
fn sub() {
    let a = Vec3::new(fx(10), fx(20), fx(30));
    let b = Vec3::new(fx(1), fx(2), fx(3));
    assert_eq!(a.sub(&b), Vec3::new(fx(9), fx(18), fx(27)));
}

#[test]
fn mul() {
    let a = Vec3::new(fx(10), fx(20), fx(30));
    let b = Vec3::new(fx(1), fx(2), fx(3));
    assert_eq!(a.mul(&b), Vec3::new(fx(10), fx(40), fx(90)));
}

#[test]
fn dot() {
    let a = Vec3::new(fx(1), fx(2), fx(3));
    let b = Vec3::new(fx(10), fx(20), fx(30));
    assert_eq!(a.dot(&b), fx(140));
    assert_eq!(a.dot(&Vec3::zero()), 0);
}

#[test]
fn cross() {
    assert_eq!(Vec3::unit_x().cross(&Vec3::unit_y()), Vec3::unit_z());
    assert_eq!(Vec3::zero().cross(&Vec3::unit_y()), Vec3::zero());
}

#[test]
fn norm_of_zero_vector_is_rejected() {
    assert_eq!(Vec3::zero().norm(), Err(GeomError::DegenerateVector));
}

#[test]
fn dot_distributes_over_addition_within_one_step() {
    let a = Vec3::new(fx(1) / 3, fx(2) / 7, fx(5) / 11);
    let b = Vec3::new(fx(4) / 9, fx(-3) / 5, fx(1) / 13);
    let c = Vec3::new(fx(2) / 3, fx(1) / 2, fx(-7) / 4);
    let lhs = a.add(&b).dot(&c);
    let rhs = a.dot(&c) + b.dot(&c);
    assert!(rhs <= lhs && lhs <= rhs + 1);
}

#[test]
fn compound_assignment_forms_match_their_operators() {
    let mut a = Vec3::new(fx(1), fx(2), fx(3));
    a.add_assign(&Vec3::new(fx(10), fx(20), fx(30)));
    assert_eq!(a, Vec3::new(fx(11), fx(22), fx(33)));
    a.sub_assign(&Vec3::new(fx(1), fx(2), fx(3)));
    assert_eq!(a, Vec3::new(fx(10), fx(20), fx(30)));
    a.mul_assign(fx(2));
    assert_eq!(a, Vec3::new(fx(20), fx(40), fx(60)));
    a.div_assign(fx(10));
    assert_eq!(a, Vec3::new(fx(2), fx(4), fx(6)));
}

#[test]
fn cross_is_right_handed() {
    assert_eq!(Vec3::unit_y().cross(&Vec3::unit_z()), Vec3::unit_x());
    assert_eq!(Vec3::unit_z().cross(&Vec3::unit_x()), Vec3::unit_y());
    assert_eq!(
        Vec3::unit_x().cross(&Vec3::unit_z()),
        Vec3::unit_y().neg()
    );
}
