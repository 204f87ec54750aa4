//! A ray: an origin and a direction, with parametric point evaluation.

use vstd::prelude::*;
use crate::vec::{Vec3, Point3, V3, v3_add, v3_scale, v3_bounded};
use crate::fixed::lemma_fx_mul_spec_bound;

verus! {

/// The mathematical view of a ray.
pub struct GRay {
    pub orig: V3,
    pub dir: V3,
}

/// A ray from `orig` in direction `dir`; the direction need not be unit.
#[derive(Clone, Copy, Debug, PartialEq, Eq, Structural)]
pub struct Ray {
    pub orig: Point3,
    pub dir: Vec3,
}

impl View for Ray {
    type V = GRay;

    open spec fn view(&self) -> GRay {
        GRay { orig: self.orig@, dir: self.dir@ }
    }
}

/// The point `orig + t * dir`.
pub open spec fn ray_at_spec(r: GRay, t: int) -> V3 {
    v3_add(r.orig, v3_scale(r.dir, t))
}

/// A ray fit for tracing: origin and direction within the coordinate
/// bounds that the intersection arithmetic accepts.
pub open spec fn ray_wf(r: GRay) -> bool {
    &&& v3_bounded(r.orig, 0x800_0000)
    &&& v3_bounded(r.dir, 0x400_0000)
}

impl Ray {
    /// A ray from its origin and direction.
    pub fn new(orig: &Point3, dir: &Vec3) -> (r: Self)
        ensures
            r@ == (GRay { orig: orig@, dir: dir@ }),
    {
        Self { orig: *orig, dir: *dir }
    }

    /// The point at parameter `t` along the ray.
    pub fn at(&self, t: i64) -> (p: Point3)
        requires
            ray_wf(self@),
            -0x400_0000 <= t <= 0x400_0000,
        ensures
            p@ == ray_at_spec(self@, t as int),
            v3_bounded(p@, 0x10_0800_0000),
    {
        proof {
            lemma_fx_mul_spec_bound(self@.dir.x, t as int, 0x400_0000, 0x400_0000, 0x10_0000_0000);
            lemma_fx_mul_spec_bound(self@.dir.y, t as int, 0x400_0000, 0x400_0000, 0x10_0000_0000);
            lemma_fx_mul_spec_bound(self@.dir.z, t as int, 0x400_0000, 0x400_0000, 0x10_0000_0000);
        }
        let scaled = self.dir.mul_s(t);
        self.orig.add(&scaled)
    }
}

} // verus!
