//! The pinhole camera: maps normalized image-plane coordinates to rays.

use vstd::prelude::*;
use vstd::arithmetic::div_mod::{lemma_div_of0, lemma_div_multiples_vanish};
use crate::fx::{SCALE, fx_mul, fx_div, lemma_mul_le, lemma_div_magnitude_bound};
use crate::ray::{Ray, COORD_MAX};
use crate::vec3::{Vec3, V3, GeomError, vadd, vsub, vmul, vnorm, vzero, vbounded};

verus! {

/// The direction of the camera ray for image-plane coordinates `(u, v)`:
/// from the origin through the viewport point
/// `center_ray_end + (u, v, 0) * top_right_from_center`.
pub open spec fn camera_dir_spec(cam: Camera, u: int, v: int) -> V3 {
    vsub(
        vadd(
            cam.center_ray_end.v(),
            vmul(V3 { x: u, y: v, z: 0 }, cam.top_right_from_center.v()),
        ),
        cam.origin.v(),
    )
}

/// The ray a camera produces for image-plane coordinates `(u, v)`: from
/// the camera origin, along the normalized viewport direction.
pub open spec fn camera_ray_spec(cam: Camera, u: int, v: int) -> Ray {
    let n = vnorm(camera_dir_spec(cam, u, v));
    Ray {
        origin: cam.origin,
        direction: Vec3 { x: n.x as i64, y: n.y as i64, z: n.z as i64 },
    }
}

/// A camera fixed at the origin, looking down the negative view axis
/// through a viewport of height two, one focal length away. Rebuilding
/// the camera is the only way to change the field of view.
pub struct Camera {
    pub origin: Vec3,
    pub center_ray_end: Vec3,
    pub top_right_from_center: Vec3,
}

impl Camera {
    /// The shape every constructed camera has: origin at zero, the view
    /// axis ending one unit into the scene, and a viewport half-extent
    /// lying in the image plane.
    pub open spec fn wf(self) -> bool {
        &&& self.origin.v() == vzero()
        &&& self.center_ray_end.v() == (V3 { x: 0, y: 0, z: -(SCALE as int) })
        &&& self.top_right_from_center.v().z == 0
        &&& vbounded(self.top_right_from_center.v(), COORD_MAX as int)
    }

    /// Builds the camera for an aspect ratio (width over height): the
    /// viewport is two units tall and `2 * aspect_ratio` wide.
    pub fn new(aspect_ratio: i64) -> (c: Camera)
        requires
            0 < aspect_ratio <= 0x1000000000,
        ensures
            c.wf(),
            c.top_right_from_center.v() == (V3 {
                x: aspect_ratio as int,
                y: SCALE as int,
                z: 0,
            }),
    {
        let viewport_height: i64 = 2 * SCALE;
        proof {
            lemma_div_multiples_vanish(2 * (aspect_ratio as int), SCALE as int);
            assert((aspect_ratio as int) * (2 * (SCALE as int)) == (SCALE as int) * (2 * (
            aspect_ratio as int))) by (nonlinear_arith);
        }
        let viewport_width: i64 = fx_mul(aspect_ratio, viewport_height);
        let focal_length: i64 = SCALE;
        let origin: Vec3 = Vec3::zero();
        let center_ray_end: Vec3 = Vec3::new(0, 0, -focal_length);
        let two: i64 = 2 * SCALE;
        proof {
            lemma_div_multiples_vanish(aspect_ratio as int, 2 * (SCALE as int));
            assert((2 * (aspect_ratio as int)) * (SCALE as int) == (2 * (SCALE as int)) * (
            aspect_ratio as int)) by (nonlinear_arith);
            lemma_div_multiples_vanish(SCALE as int, 2 * (SCALE as int));
            assert((2 * (SCALE as int)) * (SCALE as int) == (2 * (SCALE as int)) * (
            SCALE as int)) by (nonlinear_arith);
        }
        let top_right_from_center: Vec3 = Vec3::new(
            fx_div(viewport_width, two),
            fx_div(viewport_height, two),
            0,
        );
        Camera { origin, center_ray_end, top_right_from_center }
    }

    /// The ray from the camera origin through the viewport point for
    /// `(u, v)`. The direction always leaves the image plane, so every
    /// call in range succeeds.
    pub fn get_ray(&self, u: i64, v: i64) -> (r: Result<Ray, GeomError>)
        requires
            self.wf(),
            -4 * (SCALE as int) <= u <= 4 * (SCALE as int),
            -4 * (SCALE as int) <= v <= 4 * (SCALE as int),
        ensures
            r == Ok::<Ray, GeomError>(camera_ray_spec(*self, u as int, v as int)),
            camera_ray_spec(*self, u as int, v as int).wf(),
            camera_ray_spec(*self, u as int, v as int).dir() == vnorm(
                camera_dir_spec(*self, u as int, v as int),
            ),
    {
        let uv: Vec3 = Vec3::new(u, v, 0);
        proof {
            let trf = self.top_right_from_center.v();
            lemma_mul_le(u as int, trf.x, 4 * (SCALE as int), COORD_MAX as int);
            lemma_mul_le(v as int, trf.y, 4 * (SCALE as int), COORD_MAX as int);
            lemma_div_magnitude_bound((u as int) * trf.x, SCALE as int);
            lemma_div_magnitude_bound((v as int) * trf.y, SCALE as int);
            assert(0 * trf.z == 0) by (nonlinear_arith);
            lemma_div_of0(SCALE as int);
        }
        let scaled: Vec3 = uv.mul(&self.top_right_from_center);
        let dir: Vec3 = self.center_ray_end.add(&scaled).sub(&self.origin);
        assert(dir.v().z == -(SCALE as int));
        let r: Result<Ray, GeomError> = Ray::new(self.origin, dir);
        proof {
            let ghost n = vnorm(camera_dir_spec(*self, u as int, v as int));
            if let Ok(ray) = r {
                assert(ray.direction.v() == n);
                assert(ray.direction.x == n.x as i64);
                assert(ray.direction.y == n.y as i64);
                assert(ray.direction.z == n.z as i64);
                assert(ray == camera_ray_spec(*self, u as int, v as int));
            }
        }
        r
    }
}

} // verus!
