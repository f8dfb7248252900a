use raytrace::buffered_image::BufferedImage;
use raytrace::camera::Camera;
use raytrace::color::unit_to_max;
use raytrace::fx::SCALE;
use raytrace::hittable_list::HittableList;
use raytrace::math::map_to_range;
use raytrace::ppm::{diff_images, parse_ppm, ppm_bytes, PpmError, PpmImage};
use raytrace::ray::{Ray, COORD_MAX};
use raytrace::raytracer::Raytracer;
use raytrace::sphere::Sphere;
use raytrace::vec3::Vec3;

fn fx(i: i64) -> i64 {
    i * SCALE
}

fn half() -> i64 {
    SCALE / 2
}

fn down_z_ray() -> Ray {
    Ray::new(Vec3::zero(), Vec3::new(0, 0, -SCALE)).unwrap()
}

#[test]
fn sphere_hit_from_outside() {
    let sphere = Sphere::new(Vec3::new(0, 0, fx(-1)), half());
    let hit = sphere.hit(&down_z_ray(), 0, COORD_MAX).unwrap();
    assert_eq!(hit.t, half());
    assert_eq!(hit.p, Vec3::new(0, 0, -half()));
    assert_eq!(hit.normal, Vec3::new(0, 0, SCALE));
    assert!(hit.front_face);
}

#[test]
fn sphere_miss() {
    let sphere = Sphere::new(Vec3::new(fx(5), fx(5), fx(5)), half());
    assert_eq!(sphere.hit(&down_z_ray(), 0, COORD_MAX), None);
}

#[test]
fn scene_returns_nearest_hit() {
    let mut world = HittableList::new();
    world.add(Sphere::new(Vec3::new(0, 0, fx(-2)), half()));
    world.add(Sphere::new(Vec3::new(0, 0, fx(-1)), half()));
    let hit = world.hit(&down_z_ray(), 0, COORD_MAX).unwrap();
    assert_eq!(hit.t, half());
}

#[test]
fn empty_scene_has_no_hit() {
    let world = HittableList::new();
    assert_eq!(world.hit(&down_z_ray(), 0, COORD_MAX), None);
}

fn two_sphere_tracer() -> Raytracer {
    let aspect = 16 * SCALE / 9;
    let camera = Camera::new(aspect);
    let mut world = HittableList::new();
    world.add(Sphere::new(Vec3::new(0, 0, fx(-1)), half()));
    world.add(Sphere::new(Vec3::new(0, fx(-100) - half(), fx(-1)), fx(100)));
    Raytracer::new(camera, world)
}

#[test]
fn single_sample_equals_center_evaluation() {
    let rt = two_sphere_tracer();
    let u = -half();
    let v = half();
    let w = SCALE / 10;
    let h = SCALE / 10;
    let region = rt.region_color(u, v, w, h, 1);
    let center = rt.uv_color(u + w / 2, v + h / 2);
    assert_eq!(region, center);
}

#[test]
fn multi_sample_colors_stay_in_unit_range() {
    let rt = two_sphere_tracer();
    for _round in 0..5 {
        let c = rt.region_color(-half(), half(), SCALE / 10, SCALE / 10, 16);
        assert!(0 <= c.x && c.x <= SCALE);
        assert!(0 <= c.y && c.y <= SCALE);
        assert!(0 <= c.z && c.z <= SCALE);
    }
}

#[test]
fn quantization_clamps_and_scales() {
    assert_eq!(unit_to_max(0, 255), 0);
    assert_eq!(unit_to_max(SCALE, 255), 255);
    assert_eq!(unit_to_max(-half(), 255), 0);
    assert_eq!(unit_to_max(SCALE + half(), 255), 255);
}

#[test]
fn coordinate_mapping_round_trip() {
    let w = 20i64;
    let x = fx(7);
    let u = map_to_range(x, 0, fx(w - 1), -SCALE, SCALE);
    let back = map_to_range(u, -SCALE, SCALE, 0, fx(w - 1));
    let tolerance = fx(w - 1) / (2 * SCALE) + 1;
    assert!((back - x).abs() <= tolerance);
}

#[test]
fn render_is_deterministic_with_one_sample() {
    let rt = two_sphere_tracer();
    let first = rt.render(20, 10, 1);
    let second = rt.render(20, 10, 1);
    assert_eq!(first.len(), 200);
    assert_eq!(first, second);
    let bytes_a = ppm_bytes(20, 10, &first);
    let bytes_b = ppm_bytes(20, 10, &second);
    assert_eq!(bytes_a, bytes_b);
}

#[test]
fn ppm_stream_round_trips_through_parser() {
    let rt = two_sphere_tracer();
    let fb = rt.render(8, 4, 1);
    let bytes = ppm_bytes(8, 4, &fb);
    let text = String::from_utf8(bytes.clone()).unwrap();
    assert!(text.starts_with("P3\n8 4\n255\n"));
    let img = parse_ppm(&bytes).unwrap();
    assert_eq!(img.width, 8);
    assert_eq!(img.height, 4);
    assert_eq!(img.max_value, 255);
    assert_eq!(img.pixels.len(), 32);
    let first = &fb[0];
    assert_eq!(
        img.pixels[0],
        (
            unit_to_max(first.x, 255),
            unit_to_max(first.y, 255),
            unit_to_max(first.z, 255)
        )
    );
}

#[test]
fn diff_of_identical_images_is_black() {
    let rt = two_sphere_tracer();
    let fb = rt.render(6, 4, 1);
    let bytes = ppm_bytes(6, 4, &fb);
    let a = parse_ppm(&bytes).unwrap();
    let b = parse_ppm(&bytes).unwrap();
    let d = diff_images(&a, &b).unwrap();
    assert_eq!(d.len(), 24);
    for px in d {
        assert_eq!(px, (0, 0, 0));
    }
}

#[test]
fn diff_rejects_mismatched_dimensions() {
    let a = parse_ppm(&b"P3\n1 1\n255\n1 2 3\n".to_vec()).unwrap();
    let b = parse_ppm(&b"P3\n2 1\n255\n1 2 3\n4 5 6\n".to_vec()).unwrap();
    assert_eq!(diff_images(&a, &b), Err(PpmError::DimensionMismatch));
}

#[test]
fn diff_rejects_zero_channel_scale() {
    let a = parse_ppm(&b"P3\n1 1\n0\n0 0 0\n".to_vec()).unwrap();
    let b = parse_ppm(&b"P3\n1 1\n255\n1 2 3\n".to_vec()).unwrap();
    assert_eq!(diff_images(&a, &b), Err(PpmError::ZeroMaxValue));
}

#[test]
fn diff_normalizes_each_image_by_its_own_scale() {
    let a = parse_ppm(&b"P3\n1 1\n100\n100 50 0\n".to_vec()).unwrap();
    let b = parse_ppm(&b"P3\n1 1\n200\n200 0 100\n".to_vec()).unwrap();
    let d = diff_images(&a, &b).unwrap();
    assert_eq!(d[0], (0, 128, 128));
}

#[test]
fn parser_rejects_truncated_stream() {
    assert!(matches!(
        parse_ppm(&b"P3\n2 2\n255\n1 2 3\n".to_vec()),
        Err(PpmError::Truncated)
    ));
    assert!(matches!(parse_ppm(&b"P".to_vec()), Err(PpmError::Truncated)));
}

#[test]
fn parser_rejects_oversized_token() {
    assert!(matches!(
        parse_ppm(&b"P3\n1 1\n255\n4294967296 0 0\n".to_vec()),
        Err(PpmError::ValueTooLarge)
    ));
}

#[test]
fn parser_skips_the_magic_and_reads_tokens() {
    let img: PpmImage = parse_ppm(&b"P3\n2 1\n255\n1 2 3\n4 5 6\n".to_vec()).unwrap();
    assert_eq!(img.width, 2);
    assert_eq!(img.height, 1);
    assert_eq!(img.pixels, vec![(1, 2, 3), (4, 5, 6)]);
}

#[test]
fn camera_rays_pass_through_the_viewport() {
    let camera = Camera::new(SCALE);
    let ray = camera.get_ray(0, 0).unwrap();
    assert_eq!(ray.origin, Vec3::zero());
    assert_eq!(ray.unit_dir(), Vec3::new(0, 0, -SCALE));
}

#[test]
fn framebuffer_stores_pixels_row_major() {
    let mut img = BufferedImage::new(4, 3);
    assert_eq!(img.get_width(), 4);
    assert_eq!(img.get_height(), 3);
    assert_eq!(img.get_pixel(2, 1), Vec3::zero());
    img.set_pixel(2, 1, Vec3::one());
    assert_eq!(img.get_pixel(2, 1), Vec3::one());
    assert_eq!(img.get_pixel(1, 2), Vec3::zero());
}

#[test]
fn background_gradient_blends_toward_sky() {
    let rt = Raytracer::new(Camera::new(SCALE), HittableList::new());
    let up = rt.ray_color(&Ray::new(Vec3::zero(), Vec3::new(0, fx(1), fx(-1))).unwrap());
    let down = rt.ray_color(&Ray::new(Vec3::zero(), Vec3::new(0, fx(-1), fx(-1))).unwrap());
    assert!(up.z > up.x);
    assert!(down.x > up.x);
}

#[test]
fn multi_sample_render_covers_every_pixel() {
    let rt = two_sphere_tracer();
    let fb = rt.render(6, 4, 4);
    assert_eq!(fb.len(), 24);
    for px in fb {
        assert!(0 <= px.x && px.x <= SCALE);
        assert!(0 <= px.y && px.y <= SCALE);
        assert!(0 <= px.z && px.z <= SCALE);
    }
}
