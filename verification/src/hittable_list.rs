//! A scene: an owned list of spheres, answering for the nearest hit.

use vstd::prelude::*;
use crate::fx::SCALE;
use crate::hittable::HitRecord;
use crate::ray::{Ray, COORD_MAX};
use crate::sphere::{Sphere, sphere_hit_spec};
use crate::vec3::vbounded;

verus! {

/// `r` is a correct nearest-hit answer for `objs` over `[t_min, t_max)`:
/// no member hits when it is `None`; otherwise it is some member's hit
/// whose parameter no other member's hit undercuts. When two members
/// report the same parameter, which of them answers is not guaranteed.
pub open spec fn scene_hit_matches(
    objs: Seq<Sphere>,
    ray: Ray,
    t_min: int,
    t_max: int,
    r: Option<HitRecord>,
) -> bool {
    match r {
        None => forall|i: int|
            0 <= i < objs.len() ==> (#[trigger] sphere_hit_spec(objs[i], ray, t_min, t_max))
                is None,
        Some(h) => {
            &&& exists|i: int|
                0 <= i < objs.len() && #[trigger] sphere_hit_spec(objs[i], ray, t_min, t_max)
                    == Some(h)
            &&& forall|i: int|
                0 <= i < objs.len() ==> match #[trigger] sphere_hit_spec(
                    objs[i],
                    ray,
                    t_min,
                    t_max,
                ) {
                    Some(other) => h.t <= other.t,
                    None => true,
                }
        },
    }
}

/// Extending a correct nearest-hit answer by one more member keeps it
/// correct, when the new member's hit is folded in by taking the strictly
/// smaller parameter.
proof fn lemma_scene_hit_step(
    objs: Seq<Sphere>,
    ray: Ray,
    t_min: int,
    t_max: int,
    i: int,
    old_best: Option<HitRecord>,
    cur: Option<HitRecord>,
    new_best: Option<HitRecord>,
)
    requires
        0 <= i < objs.len(),
        scene_hit_matches(objs.subrange(0, i), ray, t_min, t_max, old_best),
        cur == sphere_hit_spec(objs[i], ray, t_min, t_max),
        new_best == match cur {
            Some(h2) => match old_best {
                None => Some(h2),
                Some(hb) => if h2.t < hb.t {
                    Some(h2)
                } else {
                    Some(hb)
                },
            },
            None => old_best,
        },
    ensures
        scene_hit_matches(objs.subrange(0, i + 1), ray, t_min, t_max, new_best),
{
    let prefix = objs.subrange(0, i);
    let next = objs.subrange(0, i + 1);
    assert(next =~= prefix.push(objs[i]));
    assert(next[i] == objs[i]);
    match new_best {
        None => {
            assert forall|j: int|
                0 <= j < next.len() implies (#[trigger] sphere_hit_spec(
                next[j],
                ray,
                t_min,
                t_max,
            )) is None by {
                if j < i {
                    assert(next[j] == prefix[j]);
                }
            }
        },
        Some(h) => {
            if cur == Some(h) {
                assert(sphere_hit_spec(next[i], ray, t_min, t_max) == Some(h));
            } else {
                let k = choose|k: int|
                    0 <= k < prefix.len() && #[trigger] sphere_hit_spec(
                        prefix[k],
                        ray,
                        t_min,
                        t_max,
                    ) == Some(h);
                assert(next[k] == prefix[k]);
                assert(sphere_hit_spec(next[k], ray, t_min, t_max) == Some(h));
            }
            assert forall|j: int|
                0 <= j < next.len() implies match #[trigger] sphere_hit_spec(
                next[j],
                ray,
                t_min,
                t_max,
            ) {
                Some(other) => h.t <= other.t,
                None => true,
            } by {
                if j < i {
                    assert(next[j] == prefix[j]);
                }
            }
        },
    }
}

/// An ordered collection of spheres. The scene owns its members; `add`
/// appends and `clear` empties it.
pub struct HittableList {
    pub objects: Vec<Sphere>,
}

impl HittableList {
    /// Every member stays within the coordinate bound.
    pub open spec fn wf(self) -> bool {
        forall|i: int| 0 <= i < self.objects@.len() ==> (#[trigger] self.objects@[i]).wf()
    }

    pub fn new() -> (r: HittableList)
        ensures
            r.objects@.len() == 0,
            r.wf(),
    {
        HittableList { objects: Vec::new() }
    }

    /// Appends a sphere to the scene.
    pub fn add(&mut self, sphere: Sphere)
        requires
            sphere.wf(),
            old(self).objects@.len() < usize::MAX,
        ensures
            final(self).objects@ == old(self).objects@.push(sphere),
            old(self).wf() ==> final(self).wf(),
    {
        self.objects.push(sphere);
    }

    /// Removes every member.
    pub fn clear(&mut self)
        ensures
            final(self).objects@.len() == 0,
            final(self).wf(),
    {
        self.objects.clear();
    }

    /// The nearest hit among all members over `[t_min, t_max)`. Every
    /// parameter a member reports is finite by construction, so a plain
    /// minimum over the reported hits answers.
    pub fn hit(&self, ray: &Ray, t_min: i64, t_max: i64) -> (r: Option<HitRecord>)
        requires
            self.wf(),
            ray.wf(),
            -COORD_MAX <= t_min <= COORD_MAX,
            -COORD_MAX <= t_max <= COORD_MAX,
        ensures
            scene_hit_matches(self.objects@, *ray, t_min as int, t_max as int, r),
            r matches Some(h) ==> {
                &&& t_min <= h.t < t_max
                &&& vbounded(h.normal.v(), SCALE as int)
                &&& vbounded(h.p.v(), 2 * (COORD_MAX as int))
            },
    {
        let mut best: Option<HitRecord> = None;
        let mut i: usize = 0;
        while i < self.objects.len()
            invariant
                0 <= i <= self.objects@.len(),
                self.wf(),
                ray.wf(),
                -COORD_MAX <= t_min <= COORD_MAX,
                -COORD_MAX <= t_max <= COORD_MAX,
                scene_hit_matches(
                    self.objects@.subrange(0, i as int),
                    *ray,
                    t_min as int,
                    t_max as int,
                    best,
                ),
                best matches Some(h) ==> {
                    &&& t_min <= h.t < t_max
                    &&& vbounded(h.normal.v(), SCALE as int)
                    &&& vbounded(h.p.v(), 2 * (COORD_MAX as int))
                },
            decreases self.objects@.len() - i,
        {
            let ghost prev_best = best;
            let sph: Sphere = self.objects[i];
            let cur: Option<HitRecord> = sph.hit(ray, t_min, t_max);
            match cur {
                Some(h2) => {
                    match best {
                        None => {
                            best = Some(h2);
                        },
                        Some(hb) => {
                            if h2.t < hb.t {
                                best = Some(h2);
                            }
                        },
                    }
                },
                None => {},
            }
            proof {
                lemma_scene_hit_step(
                    self.objects@,
                    *ray,
                    t_min as int,
                    t_max as int,
                    i as int,
                    prev_best,
                    cur,
                    best,
                );
            }
            i = i + 1;
        }
        proof {
            assert(self.objects@.subrange(0, self.objects@.len() as int) =~= self.objects@);
        }
        best
    }
}

} // verus!
