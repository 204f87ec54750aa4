//! The sphere primitive and analytic ray–sphere intersection.
//!
//! Substituting the ray equation into the sphere equation yields the
//! quadratic `a t^2 + 2 half_b t + c = 0`; a positive discriminant gives
//! two roots, tried in increasing order within `(t_min, t_max)`. A root
//! is also rejected when its hit point or outward normal falls outside
//! the fixed-point coordinate bounds (possible only for geometrically
//! degenerate configurations), so every accepted record is well formed.

use vstd::prelude::*;
use crate::fixed::{
    FX_ONE, fx_mul, fx_div, fx_sqrt, fx_mul_spec, fx_div_spec, fx_sqrt_spec, tdiv,
    lemma_mul_in_range, lemma_fx_mul_spec_bound, lemma_fx_square_nonneg, 
    lemma_tdiv_ordered, lemma_isqrt_props,
};
use crate::vec::{
    Vec3, Point3, V3, v3_sub, v3_neg, v3_div, v3_bounded, dot_spec, dot, len_sq_spec,
    lemma_len_sq_nonneg, lemma_len_sq_neg, lemma_dot_bound, lemma_dot_neg_left,
    lemma_dot_neg_right,
};
use crate::ray::{Ray, GRay, ray_wf, ray_at_spec};
use crate::hittable::{HitRecord, GHit, rec_wf, hit_view, Hittable};
use crate::material::Material;
use vstd::arithmetic::div_mod::{lemma_fundamental_div_mod, lemma_div_by_self, lemma_div_by_multiple};

verus! {

/// A sphere: center, radius and surface material.
#[derive(Clone, Copy)]
pub struct Sphere {
    pub center: Point3,
    pub radius: i64,
    pub mat: Material,
}

/// The vector from the sphere's center to the ray's origin.
pub open spec fn oc_spec(s: Sphere, r: GRay) -> V3 {
    v3_sub(r.orig, s.center@)
}

/// The leading coefficient `a = |dir|^2` of the intersection quadratic.
pub open spec fn a_spec(r: GRay) -> int {
    len_sq_spec(r.dir)
}

/// The half middle coefficient `half_b = dot(oc, dir)`.
pub open spec fn half_b_spec(s: Sphere, r: GRay) -> int {
    dot_spec(oc_spec(s, r), r.dir)
}

/// The constant coefficient `c = |oc|^2 - radius^2`.
pub open spec fn c_spec(s: Sphere, r: GRay) -> int {
    len_sq_spec(oc_spec(s, r)) - fx_mul_spec(s.radius as int, s.radius as int)
}

/// The discriminant `half_b^2 - a c`.
pub open spec fn disc_spec(s: Sphere, r: GRay) -> int {
    fx_mul_spec(half_b_spec(s, r), half_b_spec(s, r)) - fx_mul_spec(a_spec(r), c_spec(s, r))
}

/// The smaller root `(-half_b - sqrt(disc)) / a`.
pub open spec fn t1_spec(s: Sphere, r: GRay) -> int {
    fx_div_spec(-half_b_spec(s, r) - fx_sqrt_spec(disc_spec(s, r)), a_spec(r))
}

/// The larger root `(-half_b + sqrt(disc)) / a`.
pub open spec fn t2_spec(s: Sphere, r: GRay) -> int {
    fx_div_spec(-half_b_spec(s, r) + fx_sqrt_spec(disc_spec(s, r)), a_spec(r))
}

impl Sphere {
    /// A sphere fit for tracing: center and radius within the coordinate
    /// bounds, a positive radius, and a well-formed material.
    pub open spec fn wf(self) -> bool {
        &&& v3_bounded(self.center@, 0x400_0000)
        &&& 1 <= self.radius <= 0x400_0000
        &&& self.mat.wf()
    }

    pub fn new(center: Point3, radius: i64, mat: Material) -> (s: Self)
        ensures
            s.center == center,
            s.radius == radius,
            s.mat == mat,
    {
        Self { center, radius, mat }
    }

    /// The record produced by accepting the root `t`: hit point, outward
    /// normal oriented against the ray, and the face flag. `None` when
    /// the point or normal falls outside the coordinate bounds.
    pub open spec fn root_hit_spec(self, r: GRay, t: int) -> Option<GHit> {
        let p = ray_at_spec(r, t);
        let outward = v3_div(v3_sub(p, self.center@), self.radius as int);
        if v3_bounded(p, 0x800_0000) && v3_bounded(outward, 0x4_0000) {
            let ff = dot_spec(r.dir, outward) < 0;
            Some(
                GHit {
                    p,
                    normal: if ff {
                        outward
                    } else {
                        v3_neg(outward)
                    },
                    t,
                    front_face: ff,
                    mat: self.mat,
                },
            )
        } else {
            None
        }
    }

    /// The nearest admissible intersection in `(t_min, t_max)`, if any:
    /// a positive discriminant gives two roots, tried in increasing
    /// order. A ray whose direction squares to zero (so the quadratic
    /// degenerates) hits nothing.
    pub open spec fn hit_spec(self, r: GRay, t_min: int, t_max: int) -> Option<GHit> {
        if disc_spec(self, r) > 0 && a_spec(r) > 0 {
            let t1 = t1_spec(self, r);
            let t2 = t2_spec(self, r);
            if t_min < t1 < t_max && self.root_hit_spec(r, t1) is Some {
                self.root_hit_spec(r, t1)
            } else if t_min < t2 < t_max && self.root_hit_spec(r, t2) is Some {
                self.root_hit_spec(r, t2)
            } else {
                None
            }
        } else {
            None
        }
    }

    /// Build the hit record for an accepted root.
    fn make_rec(&self, r: &Ray, t: i64) -> (res: Option<HitRecord>)
        requires
            self.wf(),
            ray_wf(r@),
            -0x400_0000 <= t <= 0x400_0000,
        ensures
            hit_view(res) == self.root_hit_spec(r@, t as int),
            res matches Some(rec) ==> rec@.t == t && rec_wf(rec@) && rec.mat == self.mat
                && dot_spec(r@.dir, rec@.normal) <= 0,
    {
        let p = r.at(t);
        let diff = p.sub(&self.center);
        let outward = diff.div_s(self.radius);
        let p_ok = -0x800_0000 <= p.x && p.x <= 0x800_0000 && -0x800_0000 <= p.y && p.y
            <= 0x800_0000 && -0x800_0000 <= p.z && p.z <= 0x800_0000;
        let n_ok = -0x4_0000 <= outward.x && outward.x <= 0x4_0000 && -0x4_0000 <= outward.y
            && outward.y <= 0x4_0000 && -0x4_0000 <= outward.z && outward.z <= 0x4_0000;
        if p_ok && n_ok {
            let mut rec = HitRecord {
                p,
                normal: Vec3::new(0, 0, 0),
                t,
                front_face: false,
                mat: self.mat,
            };
            rec.set_face_normal(r, &outward);
            proof {
                lemma_dot_neg_right(r@.dir, outward@);
            }
            Some(rec)
        } else {
            None
        }
    }

    /// The nearest intersection of the ray with this sphere inside
    /// `(t_min, t_max)`, exactly as `hit_spec` says. An accepted record
    /// carries the sphere's material, a parameter inside the interval,
    /// and a normal that does not point along the ray.
    pub fn hit(&self, r: &Ray, t_min: i64, t_max: i64) -> (res: Option<HitRecord>)
        requires
            self.wf(),
            ray_wf(r@),
            -0x400_0000 <= t_min <= 0x400_0000,
            -0x400_0000 <= t_max <= 0x400_0000,
        ensures
            hit_view(res) == self.hit_spec(r@, t_min as int, t_max as int),
            res matches Some(rec) ==> t_min < rec.t < t_max && rec_wf(rec@) && rec.mat == self.mat
                && dot_spec(r@.dir, rec@.normal) <= 0,
            res matches Some(rec) ==> (rec@.t == t1_spec(*self, r@) || rec@.t == t2_spec(
                *self,
                r@,
            )),
    {
        let oc = r.orig.sub(&self.center);
        proof {
            lemma_dot_bound(r@.dir, r@.dir, 0x400_0000, 0x400_0000, 0x10_0000_0000);
            lemma_len_sq_nonneg(r@.dir);
            lemma_dot_bound(oc@, r@.dir, 0xC00_0000, 0x400_0000, 0x30_0000_0000);
        }
        let a = dot(&r.dir, &r.dir);
        let half_b = dot(&oc, &r.dir);
        proof {
            lemma_mul_in_range(self.radius as int, self.radius as int, 0x400_0000, 0x400_0000);
            lemma_fx_mul_spec_bound(
                self.radius as int,
                self.radius as int,
                0x400_0000,
                0x400_0000,
                0x10_0000_0000,
            );
            lemma_fx_square_nonneg(self.radius as int);
            lemma_dot_bound(oc@, oc@, 0xC00_0000, 0xC00_0000, 0x90_0000_0000);
            lemma_len_sq_nonneg(oc@);
        }
        let r2 = fx_mul(self.radius, self.radius);
        let c = dot(&oc, &oc) - r2;
        proof {
            lemma_mul_in_range(
                half_b as int,
                half_b as int,
                0x90_0000_0000,
                0x90_0000_0000,
            );
            lemma_fx_mul_spec_bound(
                half_b as int,
                half_b as int,
                0x90_0000_0000,
                0x90_0000_0000,
                0x5100_0000_0000_0000,
            );
            lemma_fx_square_nonneg(half_b as int);
            lemma_mul_in_range(a as int, c as int, 0x30_0000_0000, 0x1C0_0000_0000);
            lemma_fx_mul_spec_bound(
                a as int,
                c as int,
                0x30_0000_0000,
                0x1C0_0000_0000,
                0x5400_0000_0000_0000,
            );
            assert((a as int) * (c as int) >= -(0x30_0000_0000int * 0x10_0000_0000))
                by (nonlinear_arith)
                requires
                    0 <= (a as int) <= 0x30_0000_0000,
                    (c as int) >= -0x10_0000_0000,
            ;
            lemma_tdiv_ordered(
                -(0x30_0000_0000int * 0x10_0000_0000),
                (a as int) * (c as int),
                FX_ONE as int,
            );
        }
        let hb2 = fx_mul(half_b, half_b);
        let ac = fx_mul(a, c);
        let disc = hb2 - ac;
        if disc > 0 && a > 0 {
            let root = fx_sqrt(disc);
            let t1 = fx_div(-half_b - root, a);
            if t1 < t_max && t1 > t_min {
                let res1 = self.make_rec(r, t1);
                if res1.is_some() {
                    return res1;
                }
            }
            let t2 = fx_div(-half_b + root, a);
            if t2 < t_max && t2 > t_min {
                let res2 = self.make_rec(r, t2);
                if res2.is_some() {
                    return res2;
                }
            }
            None
        } else {
            None
        }
    }
}

impl Hittable for Sphere {
    open spec fn hit_model(&self, r: GRay, t_min: int, t_max: int) -> Option<GHit> {
        self.hit_spec(r, t_min, t_max)
    }

    open spec fn hittable_wf(&self) -> bool {
        self.wf()
    }

    fn hit(&self, r: &Ray, t_min: i64, t_max: i64) -> (res: Option<HitRecord>) {
        Sphere::hit(self, r, t_min, t_max)
    }
}

/// The face-normal convention holds of every hit: the returned normal
/// never points along the incoming ray.
pub proof fn lemma_hit_normal_opposes_ray(s: Sphere, r: GRay, t_min: int, t_max: int)
    ensures
        s.hit_spec(r, t_min, t_max) matches Some(h) ==> dot_spec(r.dir, h.normal) <= 0,
{
    lemma_root_normal_opposes_ray(s, r, t1_spec(s, r));
    lemma_root_normal_opposes_ray(s, r, t2_spec(s, r));
}

/// The record built from any accepted root opposes the ray direction.
pub proof fn lemma_root_normal_opposes_ray(s: Sphere, r: GRay, t: int)
    ensures
        s.root_hit_spec(r, t) matches Some(h) ==> dot_spec(r.dir, h.normal) <= 0,
{
    let p = ray_at_spec(r, t);
    let outward = v3_div(v3_sub(p, s.center@), s.radius as int);
    lemma_dot_neg_right(r.dir, outward);
}

/// When the discriminant is not positive there is no intersection, for
/// every parametric interval.
pub proof fn lemma_no_hit_when_discriminant_nonpositive(s: Sphere, r: GRay, t_min: int, t_max: int)
    requires
        disc_spec(s, r) <= 0,
    ensures
        s.hit_spec(r, t_min, t_max) is None,
{
}

/// The geometric miss condition, in the fixed-point model: the squared
/// projection of the center offset onto the ray (`half_b^2`) does not
/// exceed `a * c` exactly when the perpendicular distance from the
/// center to the ray line is at least the radius; such a ray misses for
/// every parametric interval.
pub proof fn lemma_geometric_miss(s: Sphere, r: GRay, t_min: int, t_max: int)
    requires
        fx_mul_spec(half_b_spec(s, r), half_b_spec(s, r)) <= fx_mul_spec(
            a_spec(r),
            c_spec(s, r),
        ),
    ensures
        s.hit_spec(r, t_min, t_max) is None,
{
    lemma_no_hit_when_discriminant_nonpositive(s, r, t_min, t_max);
}

/// A ray aimed exactly at the sphere's center from strictly outside
/// admits two roots: the discriminant is positive and both roots lie in
/// `(0, t_max)`, ordered — with `lemma_nearer_root_selected`, the near
/// surface is the one reported. The margin preconditions (`a * r^2` and
/// `a * c` a couple of units after scaling) are what the fixed-point
/// grid needs to resolve the two crossings; a sphere whose scaled
/// squared radius truncates to zero, for instance, defeats them.
pub proof fn lemma_aimed_ray_admits_two_roots(s: Sphere, r: GRay, t_max: int)
    requires
        r.dir == v3_sub(s.center@, r.orig),
        1 <= a_spec(r) <= FX_ONE as int,
        a_spec(r) * fx_mul_spec(s.radius as int, s.radius as int) >= 2 * (FX_ONE as int),
        a_spec(r) * c_spec(s, r) >= 3 * (FX_ONE as int),
        t_max > 2 * (FX_ONE as int),
    ensures
        disc_spec(s, r) > 0,
        0 < t1_spec(s, r) <= t2_spec(s, r) < t_max,
{
    let fx1 = FX_ONE as int;
    let a = a_spec(r);
    let rr = fx_mul_spec(s.radius as int, s.radius as int);
    let c = c_spec(s, r);
    let hb = half_b_spec(s, r);

    // Aimed at the center: the center offset is exactly the negated
    // direction, so half_b == -a and c == a - r^2.
    assert(oc_spec(s, r) == v3_neg(r.dir));
    lemma_dot_neg_left(r.dir, r.dir);
    assert(hb == -a);
    lemma_len_sq_neg(r.dir);
    assert(c == a - rr);

    // disc == tdiv(a^2, s) - tdiv(a c, s), and a c == a^2 - a r^2.
    assert((-a) * (-a) == a * a) by (nonlinear_arith);
    assert(a * c == a * a - a * rr) by (nonlinear_arith)
        requires
            c == a - rr,
    ;
    let aa = a * a;
    let ac = a * c;
    assert(aa >= 0) by (nonlinear_arith)
        requires
            aa == a * a,
    ;
    assert(0 <= ac);
    assert(tdiv(aa, fx1) == aa / fx1);
    assert(tdiv(ac, fx1) == ac / fx1);
    lemma_fundamental_div_mod(aa, fx1);
    lemma_fundamental_div_mod(ac, fx1);
    let disc = disc_spec(s, r);
    assert(disc == tdiv(aa, fx1) - tdiv(ac, fx1));
    // disc >= 1 since a r^2 is at least two units after scaling.
    assert(aa - ac == a * rr);
    assert(fx1 * (aa / fx1) >= aa - fx1 + 1);
    assert(fx1 * (ac / fx1) <= ac);
    assert(fx1 * disc >= (aa - fx1 + 1) - ac);
    assert(fx1 * disc >= fx1 + 1);
    assert(disc >= 1);

    // The root is at most a - 1, so the near root stays positive.
    let root = fx_sqrt_spec(disc);
    lemma_isqrt_props(disc * fx1);
    assert(root >= 0 && root * root <= disc * fx1);
    assert(fx1 * (aa / fx1) <= aa);
    assert(fx1 * (ac / fx1) >= ac - fx1 + 1);
    assert(fx1 * disc <= aa - ac + fx1 - 1);
    assert(fx1 * disc <= aa - 2 * fx1 - 1);
    assert(root <= a - 1) by (nonlinear_arith)
        requires
            root >= 0,
            root * root <= aa - 2 * fx1 - 1,
            aa == a * a,
            1 <= a <= fx1,
            fx1 == 65536,
    ;

    // Both scaled roots lie in (0, 2], hence inside (0, t_max).
    assert(t1_spec(s, r) == tdiv((a - root) * fx1, a));
    assert(t2_spec(s, r) == tdiv((a + root) * fx1, a));
    assert(a <= (a - root) * fx1);
    lemma_div_by_self(a);
    lemma_tdiv_ordered(a, (a - root) * fx1, a);
    assert(tdiv(a, a) == 1);
    assert(t1_spec(s, r) >= 1);
    assert((a - root) * fx1 <= (a + root) * fx1);
    lemma_tdiv_ordered((a - root) * fx1, (a + root) * fx1, a);
    assert((a + root) * fx1 <= (2 * fx1) * a) by (nonlinear_arith)
        requires
            root <= a - 1,
            a >= 1,
            fx1 == 65536,
    ;
    lemma_tdiv_ordered((a + root) * fx1, (2 * fx1) * a, a);
    lemma_div_by_multiple(2 * fx1, a);
    assert(tdiv((2 * fx1) * a, a) == 2 * fx1);
    assert(t2_spec(s, r) <= 2 * fx1);
}

/// The two roots are ordered (`t1 <= t2`), and when the nearer root is
/// admissible it is the one the intersection reports.
pub proof fn lemma_nearer_root_selected(s: Sphere, r: GRay, t_min: int, t_max: int)
    requires
        disc_spec(s, r) > 0,
        a_spec(r) > 0,
        t_min < t1_spec(s, r) < t_max,
        s.root_hit_spec(r, t1_spec(s, r)) is Some,
    ensures
        t1_spec(s, r) <= t2_spec(s, r),
        s.hit_spec(r, t_min, t_max) == s.root_hit_spec(r, t1_spec(s, r)),
{
    let hb = half_b_spec(s, r);
    let disc = disc_spec(s, r);
    let root = fx_sqrt_spec(disc);
    lemma_isqrt_props(disc * (FX_ONE as int));
    assert(root >= 0);
    assert((-hb - root) * (FX_ONE as int) <= (-hb + root) * (FX_ONE as int));
    lemma_tdiv_ordered(
        (-hb - root) * (FX_ONE as int),
        (-hb + root) * (FX_ONE as int),
        a_spec(r),
    );
}

} // verus!
