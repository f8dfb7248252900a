use raytrace::fx::SCALE;
use raytrace::ray::Ray;
use raytrace::vec3::{GeomError, Vec3};

fn fx(i: i64) -> i64 {
    i * SCALE
}

#[test]
fn at() {
    let r = Ray::new(Vec3::new(fx(1), fx(2), fx(3)), Vec3::unit_x()).unwrap();
    assert_eq!(r.at(fx(6)), Vec3::new(fx(7), fx(2), fx(3)));
}

#[test]
fn ray_at() {
    let r = Ray::new(Vec3::new(fx(1), fx(2), fx(3)), Vec3::unit_x()).unwrap();
    assert_eq!(r.at(fx(6)), Vec3::new(fx(7), fx(2), fx(3)));
}

#[test]
fn ray_with_zero_direction_is_rejected() {
    let r = Ray::new(Vec3::zero(), Vec3::zero());
    assert_eq!(r, Err(GeomError::DegenerateVector));
}

#[test]
fn ray_direction_is_normalized() {
    let r = Ray::new(Vec3::zero(), Vec3::new(fx(3), fx(4), 0)).unwrap();
    let d = r.unit_dir();
    assert!((d.len_sq() - SCALE).abs() <= 8);
    assert_eq!(d.x * 4, d.y * 3);
}
