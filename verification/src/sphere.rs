//! Spheres and their ray intersection, by the half-discriminant quadratic.

use vstd::prelude::*;
use crate::fx::{
    SCALE, fx_mul_spec, fx_mul, isqrt_spec, isqrt_u128, lemma_i64_mul_fits_i128,
    lemma_fx_square_bound,
};
use crate::hittable::{HitRecord, front_face_spec, oriented_normal_spec};
use crate::ray::{Ray, COORD_MAX};
use crate::vec3::{
    Vec3, V3, vadd, vsub, vneg, vscale, vdot, vnorm, vzero, vlensq, vbounded,
    lemma_vdot_bound, lemma_vlensq_bound,
};

verus! {

/// A sphere: a center point and a radius, immutable once built.
#[derive(Clone, Copy, PartialEq, Eq, Structural, Debug)]
pub struct Sphere {
    pub center: Vec3,
    pub radius: i64,
}

/// The vector from the ray origin to the sphere center.
pub open spec fn sphere_oc(sph: Sphere, ray: Ray) -> V3 {
    vsub(sph.center.v(), ray.origin.v())
}

/// Half the linear coefficient of the intersection quadratic.
pub open spec fn sphere_half_b(sph: Sphere, ray: Ray) -> int {
    vdot(ray.dir(), vneg(sphere_oc(sph, ray)))
}

/// The constant coefficient: squared center distance minus squared radius.
pub open spec fn sphere_c(sph: Sphere, ray: Ray) -> int {
    vlensq(sphere_oc(sph, ray)) - fx_mul_spec(sph.radius as int, sph.radius as int)
}

/// The quarter discriminant of the intersection quadratic.
pub open spec fn sphere_disc(sph: Sphere, ray: Ray) -> int {
    fx_mul_spec(sphere_half_b(sph, ray), sphere_half_b(sph, ray)) - sphere_c(sph, ray)
}

/// The fixed-point square root of a nonnegative discriminant.
pub open spec fn sphere_root(sph: Sphere, ray: Ray) -> int {
    isqrt_spec((sphere_disc(sph, ray) * (SCALE as int)) as nat) as int
}

/// The smaller root of the quadratic, met first along the ray.
pub open spec fn sphere_t_near(sph: Sphere, ray: Ray) -> int {
    -sphere_half_b(sph, ray) - sphere_root(sph, ray)
}

/// The larger root of the quadratic.
pub open spec fn sphere_t_far(sph: Sphere, ray: Ray) -> int {
    -sphere_half_b(sph, ray) + sphere_root(sph, ray)
}

/// `t` lies in the half-open search interval.
pub open spec fn t_in_range(t: int, t_min: int, t_max: int) -> bool {
    t_min <= t < t_max
}

/// The record reported for a hit of `sph` at parameter `t`: the point on
/// the ray, and the normalized, front-face-corrected surface normal. A
/// degenerate surface point that coincides with the center yields no
/// direction, hence no record.
pub open spec fn sphere_record_at(sph: Sphere, ray: Ray, t: int) -> Option<HitRecord> {
    let p = vadd(ray.origin.v(), vscale(ray.dir(), t));
    let op = vsub(p, sph.center.v());
    if op == vzero() {
        None
    } else {
        let n = oriented_normal_spec(ray, vnorm(op));
        Some(
            HitRecord {
                p: Vec3 { x: p.x as i64, y: p.y as i64, z: p.z as i64 },
                normal: Vec3 { x: n.x as i64, y: n.y as i64, z: n.z as i64 },
                t: t as i64,
                front_face: front_face_spec(ray, vnorm(op)),
            },
        )
    }
}

/// The full intersection outcome over `[t_min, t_max)`: no hit for a
/// negative discriminant, else the first of the two roots that lies in
/// the interval, the smaller tried first.
pub open spec fn sphere_hit_spec(sph: Sphere, ray: Ray, t_min: int, t_max: int) -> Option<
    HitRecord,
> {
    if sphere_disc(sph, ray) < 0 {
        None
    } else if t_in_range(sphere_t_near(sph, ray), t_min, t_max) {
        sphere_record_at(sph, ray, sphere_t_near(sph, ray))
    } else if t_in_range(sphere_t_far(sph, ray), t_min, t_max) {
        sphere_record_at(sph, ray, sphere_t_far(sph, ray))
    } else {
        None
    }
}

impl Sphere {
    /// Sphere geometry stays within the coordinate bound. The radius is
    /// not otherwise validated: a zero or negative radius is a degenerate
    /// scene-authoring value, not an error.
    pub open spec fn wf(self) -> bool {
        &&& vbounded(self.center.v(), COORD_MAX as int)
        &&& -(COORD_MAX as int) <= self.radius <= COORD_MAX as int
    }

    pub fn new(center: Vec3, radius: i64) -> (s: Sphere)
        requires
            vbounded(center.v(), COORD_MAX as int),
            -COORD_MAX <= radius <= COORD_MAX,
        ensures
            s.center == center,
            s.radius == radius,
            s.wf(),
    {
        Sphere { center, radius }
    }

    /// The nearest intersection of `ray` with this sphere at a parameter
    /// in `[t_min, t_max)`, if any.
    pub fn hit(&self, ray: &Ray, t_min: i64, t_max: i64) -> (r: Option<HitRecord>)
        requires
            self.wf(),
            ray.wf(),
            -COORD_MAX <= t_min <= COORD_MAX,
            -COORD_MAX <= t_max <= COORD_MAX,
        ensures
            r == sphere_hit_spec(*self, *ray, t_min as int, t_max as int),
            r matches Some(h) ==> {
                &&& t_min <= h.t < t_max
                &&& vbounded(h.normal.v(), SCALE as int)
                &&& vbounded(h.p.v(), 2 * (COORD_MAX as int))
            },
    {
        let d: Vec3 = ray.unit_dir();
        let s: Vec3 = self.center.sub(&ray.origin);
        let neg_s: Vec3 = s.neg();
        proof {
            lemma_vdot_bound(ray.dir(), vneg(sphere_oc(*self, *ray)), SCALE as int, 2 * (
            COORD_MAX as int));
            lemma_vlensq_bound(sphere_oc(*self, *ray), 2 * (COORD_MAX as int));
            lemma_fx_square_bound(self.radius as int, COORD_MAX as int);
        }
        let half_b: i64 = d.dot(&neg_s);
        let c: i64 = s.len_sq() - fx_mul(self.radius, self.radius);
        proof {
            lemma_fx_square_bound(sphere_half_b(*self, *ray), 0x18000000001);
        }
        let disc: i64 = fx_mul(half_b, half_b) - c;
        if disc < 0 {
            return None;
        }
        proof {
            lemma_i64_mul_fits_i128(disc as int, SCALE as int);
            assert((disc as int) * (SCALE as int) >= 0) by (nonlinear_arith)
                requires
                    disc as int >= 0;
            assert((disc as int) * (SCALE as int) <= 0x800000000000000000000) by (nonlinear_arith)
                requires
                    0 <= disc as int <= 0x7fffffffffffffff,
                    SCALE == 1048576;
        }
        let prod: i128 = (disc as i128) * (SCALE as i128);
        let root_u: u128 = isqrt_u128(prod as u128);
        proof {
            let rt: int = root_u as int;
            assert(rt <= 0x30000000000) by (nonlinear_arith)
                requires
                    rt * rt <= 0x800000000000000000000,
                    rt >= 0;
        }
        let root: i64 = root_u as i64;
        let t1: i64 = -half_b - root;
        if t_min <= t1 && t1 < t_max {
            return self.record_at(ray, t1);
        }
        let t2: i64 = -half_b + root;
        if t_min <= t2 && t2 < t_max {
            return self.record_at(ray, t2);
        }
        None
    }

    /// Builds the reported record for a qualifying parameter `t`.
    fn record_at(&self, ray: &Ray, t: i64) -> (r: Option<HitRecord>)
        requires
            self.wf(),
            ray.wf(),
            -COORD_MAX <= t <= COORD_MAX,
        ensures
            r == sphere_record_at(*self, *ray, t as int),
            r matches Some(h) ==> {
                &&& h.t == t
                &&& vbounded(h.normal.v(), SCALE as int)
                &&& vbounded(h.p.v(), 2 * (COORD_MAX as int))
            },
    {
        let p: Vec3 = ray.at(t);
        let op: Vec3 = p.sub(&self.center);
        match op.norm() {
            Err(_) => None,
            Ok(unit) => Some(HitRecord::new(ray, p, unit, t)),
        }
    }
}

} // verus!
