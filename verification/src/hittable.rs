//! Hit records: what a ray learned when it struck a primitive.

use vstd::prelude::*;
use crate::fx::SCALE;
use crate::ray::Ray;
use crate::vec3::{Vec3, V3, vdot, vneg, vbounded, lemma_vdot_bound};

verus! {

/// Description of one ray–primitive intersection: the world-space point,
/// the unit normal oriented against the incoming ray, the ray parameter,
/// and whether the outside of the primitive was struck.
#[derive(Clone, Copy, PartialEq, Eq, Structural, Debug)]
pub struct HitRecord {
    pub p: Vec3,
    pub normal: Vec3,
    pub t: i64,
    pub front_face: bool,
}

/// The front-face rule: the ray strikes the outside exactly when its
/// direction opposes the outward geometric normal.
pub open spec fn front_face_spec(ray: Ray, outward: V3) -> bool {
    vdot(ray.dir(), outward) < 0
}

/// The stored normal after front-face correction: the outward normal
/// itself when the outside was struck, else its negation, so that the
/// stored normal always opposes the incoming ray.
pub open spec fn oriented_normal_spec(ray: Ray, outward: V3) -> V3 {
    if front_face_spec(ray, outward) {
        outward
    } else {
        vneg(outward)
    }
}

impl HitRecord {
    /// Builds the record for a hit at `p` with parameter `t`, applying the
    /// front-face rule to the outward geometric normal.
    pub fn new(ray: &Ray, p: Vec3, outward_normal: Vec3, t: i64) -> (r: HitRecord)
        requires
            ray.wf(),
            vbounded(outward_normal.v(), SCALE as int),
        ensures
            r.p == p,
            r.t == t,
            r.front_face == front_face_spec(*ray, outward_normal.v()),
            r.normal.v() == oriented_normal_spec(*ray, outward_normal.v()),
            vbounded(r.normal.v(), SCALE as int),
    {
        proof {
            lemma_vdot_bound(ray.dir(), outward_normal.v(), SCALE as int, SCALE as int);
        }
        let d: Vec3 = ray.unit_dir();
        let front_face: bool = d.dot(&outward_normal) < 0;
        let normal: Vec3 = if front_face {
            outward_normal
        } else {
            outward_normal.neg()
        };
        HitRecord { p, normal, t, front_face }
    }
}

} // verus!
