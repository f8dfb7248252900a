//! Rays: an origin and a unit direction, evaluated parametrically.

use vstd::prelude::*;
use crate::fx::{SCALE, lemma_fx_mul_unit_bound};
use crate::vec3::{Vec3, V3, GeomError, vadd, vscale, vnorm, vzero, vbounded};

verus! {

/// Largest coordinate magnitude the geometry works with: scene points,
/// sphere centers and ray parameters stay within this many fixed-point
/// steps, which keeps every intermediate product inside the machine range.
pub const COORD_MAX: i64 = 0x4000000000;

/// A ray `origin + t * direction`. The direction is normalized on
/// construction; well-formed rays keep it a unit vector.
#[derive(Clone, Copy, PartialEq, Eq, Structural, Debug)]
pub struct Ray {
    pub origin: Vec3,
    pub direction: Vec3,
}

impl Ray {
    /// The mathematical view of the direction.
    pub open spec fn dir(self) -> V3 {
        self.direction.v()
    }

    /// Well-formed rays have a bounded origin and a unit-bounded direction.
    pub open spec fn wf(self) -> bool {
        &&& vbounded(self.origin.v(), COORD_MAX as int)
        &&& vbounded(self.dir(), SCALE as int)
    }

    /// Builds a ray, normalizing `direction` at once. A zero direction is
    /// rejected with `DegenerateVector`; every other input in range is
    /// accepted.
    pub fn new(origin: Vec3, direction: Vec3) -> (r: Result<Ray, GeomError>)
        requires
            vbounded(origin.v(), COORD_MAX as int),
            vbounded(direction.v(), 0x4000000000000000),
        ensures
            direction.v() == vzero() <==> r is Err,
            r is Err ==> r == Err::<Ray, GeomError>(GeomError::DegenerateVector),
            r matches Ok(ray) ==> {
                &&& ray.origin == origin
                &&& ray.dir() == vnorm(direction.v())
                &&& ray.wf()
            },
    {
        match direction.norm() {
            Ok(unit) => Ok(Ray { origin, direction: unit }),
            Err(e) => Err(e),
        }
    }

    /// The point `origin + t * direction`.
    pub fn at(&self, t: i64) -> (p: Vec3)
        requires
            self.wf(),
            -(COORD_MAX as int) <= t <= COORD_MAX as int,
        ensures
            p.v() == vadd(self.origin.v(), vscale(self.dir(), t as int)),
            vbounded(p.v(), 2 * (COORD_MAX as int)),
    {
        proof {
            lemma_fx_mul_unit_bound(self.dir().x, t as int);
            lemma_fx_mul_unit_bound(self.dir().y, t as int);
            lemma_fx_mul_unit_bound(self.dir().z, t as int);
        }
        let step: Vec3 = self.direction.scale(t);
        self.origin.add(&step)
    }

    /// The unit direction of the ray.
    pub fn unit_dir(&self) -> (d: Vec3)
        ensures
            d.v() == self.dir(),
    {
        self.direction
    }
}

} // verus!
