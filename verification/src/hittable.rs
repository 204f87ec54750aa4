//! Surface hit records and the scene aggregate.

use vstd::prelude::*;
use crate::vec::{Vec3, Point3, V3, v3_neg, v3_bounded, dot_spec, dot};
use crate::ray::{Ray, GRay, ray_wf};
use crate::material::Material;
use crate::sphere::{Sphere, lemma_hit_normal_opposes_ray};

verus! {

/// The mathematical view of a hit record.
pub struct GHit {
    pub p: V3,
    pub normal: V3,
    pub t: int,
    pub front_face: bool,
    pub mat: Material,
}

/// The result of a successful ray–surface intersection: the hit point,
/// the normal (always oriented against the incoming ray), the ray
/// parameter, which side of the surface was struck, and the material
/// at the hit point.
#[derive(Clone, Copy)]
pub struct HitRecord {
    pub p: Point3,
    pub normal: Vec3,
    pub t: i64,
    pub front_face: bool,
    pub mat: Material,
}

impl View for HitRecord {
    type V = GHit;

    open spec fn view(&self) -> GHit {
        GHit {
            p: self.p@,
            normal: self.normal@,
            t: self.t as int,
            front_face: self.front_face,
            mat: self.mat,
        }
    }
}

/// The view of an optional hit record.
pub open spec fn hit_view(res: Option<HitRecord>) -> Option<GHit> {
    match res {
        Option::Some(h) => Option::Some(h@),
        Option::None => Option::None,
    }
}

/// A record fit for shading: hit point and normal within the bounds the
/// scattering arithmetic accepts.
pub open spec fn rec_wf(h: GHit) -> bool {
    &&& v3_bounded(h.p, 0x800_0000)
    &&& v3_bounded(h.normal, 0x4_0000)
}

/// The face-normal convention: `front_face` records whether the ray
/// struck the outer surface, and the stored normal is the outward normal
/// or its negation, whichever opposes the ray direction.
pub open spec fn set_face_spec(h: GHit, r: GRay, outward: V3) -> GHit {
    let ff = dot_spec(r.dir, outward) < 0;
    GHit {
        p: h.p,
        normal: if ff {
            outward
        } else {
            v3_neg(outward)
        },
        t: h.t,
        front_face: ff,
        mat: h.mat,
    }
}

impl HitRecord {
    /// Orient the stored normal against the incoming ray and record
    /// which face was struck.
    pub fn set_face_normal(&mut self, r: &Ray, outward_normal: &Vec3)
        requires
            ray_wf(r@),
            v3_bounded(outward_normal@, 0x1000_0000),
        ensures
            final(self)@ == set_face_spec(old(self)@, r@, outward_normal@),
    {
        let d = dot(&r.dir, outward_normal);
        self.front_face = d < 0;
        self.normal = if self.front_face {
            *outward_normal
        } else {
            outward_normal.neg()
        };
    }
}

/// The left-to-right scan of the scene from index `i`, carrying the best
/// hit so far and the narrowed upper bound: each later sphere must beat
/// the current closest parameter to replace the record.
pub open spec fn scan_spec(
    objs: Seq<Sphere>,
    r: GRay,
    t_min: int,
    closest: int,
    best: Option<GHit>,
    i: int,
) -> Option<GHit>
    decreases objs.len() - i,
{
    if i < 0 || i >= objs.len() {
        best
    } else {
        match objs[i].hit_spec(r, t_min, closest) {
            Option::Some(h) => scan_spec(objs, r, t_min, h.t, Option::Some(h), i + 1),
            Option::None => scan_spec(objs, r, t_min, closest, best, i + 1),
        }
    }
}

/// The closest hit among all spheres of the scene within `(t_min, t_max)`.
pub open spec fn hit_list_spec(objs: Seq<Sphere>, r: GRay, t_min: int, t_max: int) -> Option<
    GHit,
> {
    scan_spec(objs, r, t_min, t_max, Option::None, 0)
}

/// Any record the scan reports has a normal opposing the ray, provided
/// the carried best one does.
proof fn lemma_scan_normal(
    objs: Seq<Sphere>,
    r: GRay,
    t_min: int,
    closest: int,
    best: Option<GHit>,
    i: int,
)
    requires
        best matches Option::Some(h) ==> dot_spec(r.dir, h.normal) <= 0,
    ensures
        scan_spec(objs, r, t_min, closest, best, i) matches Option::Some(h) ==> dot_spec(
            r.dir,
            h.normal,
        ) <= 0,
    decreases objs.len() - i,
{
    if 0 <= i < objs.len() {
        lemma_hit_normal_opposes_ray(objs[i], r, t_min, closest);
        match objs[i].hit_spec(r, t_min, closest) {
            Option::Some(h) => lemma_scan_normal(objs, r, t_min, h.t, Option::Some(h), i + 1),
            Option::None => lemma_scan_normal(objs, r, t_min, closest, best, i + 1),
        }
    }
}

/// The face-normal convention holds of the scene's closest hit: the
/// returned normal never points along the incoming ray.
pub proof fn lemma_list_normal_opposes_ray(objs: Seq<Sphere>, r: GRay, t_min: int, t_max: int)
    ensures
        hit_list_spec(objs, r, t_min, t_max) matches Option::Some(h) ==> dot_spec(
            r.dir,
            h.normal,
        ) <= 0,
{
    lemma_scan_normal(objs, r, t_min, t_max, Option::None, 0);
}

/// Anything a ray can strike: a spec-level intersection model, the
/// well-formedness it needs, and an intersection query proved to follow
/// the model. Every record handed out is fit for shading and carries a
/// normal opposing the ray.
pub trait Hittable {
    /// What the intersection query returns, as a mathematical function.
    spec fn hit_model(&self, r: GRay, t_min: int, t_max: int) -> Option<GHit>;

    /// The geometric bounds the intersection arithmetic needs.
    spec fn hittable_wf(&self) -> bool;

    /// The nearest admissible intersection in `(t_min, t_max)`, if any.
    fn hit(&self, r: &Ray, t_min: i64, t_max: i64) -> (res: Option<HitRecord>)
        requires
            self.hittable_wf(),
            ray_wf(r@),
            -0x400_0000 <= t_min <= 0x400_0000,
            -0x400_0000 <= t_max <= 0x400_0000,
        ensures
            hit_view(res) == self.hit_model(r@, t_min as int, t_max as int),
            res matches Some(rec) ==> t_min < rec.t < t_max && rec_wf(rec@) && rec@.mat.wf()
                && dot_spec(r@.dir, rec@.normal) <= 0,
    ;
}

/// An ordered collection of spheres queried as one surface: the closest
/// hit wins.
pub struct HittableList {
    pub objects: Vec<Sphere>,
}

impl HittableList {
    /// Every sphere of the scene is fit for tracing.
    pub open spec fn wf(self) -> bool {
        forall|i: int| 0 <= i < self.objects@.len() ==> (#[trigger] self.objects@[i]).wf()
    }

    /// An empty scene.
    pub fn new() -> (l: Self)
        ensures
            l.objects@.len() == 0,
            l.wf(),
    {
        Self { objects: Vec::new() }
    }

    /// Append a sphere to the scene.
    pub fn add(&mut self, obj: Sphere)
        ensures
            final(self).objects@ == old(self).objects@.push(obj),
            old(self).wf() && obj.wf() ==> final(self).wf(),
    {
        self.objects.push(obj);
    }

    /// Remove every sphere from the scene.
    pub fn clear(&mut self)
        ensures
            final(self).objects@.len() == 0,
            final(self).wf(),
    {
        self.objects.clear();
    }

    /// The closest hit among all spheres within `(t_min, t_max)`,
    /// exactly as `hit_list_spec` says: each sphere is queried with the
    /// upper bound narrowed to the closest parameter seen so far. When
    /// nothing is hit, no sphere admits a hit in the full interval.
    pub fn hit(&self, r: &Ray, t_min: i64, t_max: i64) -> (res: Option<HitRecord>)
        requires
            self.wf(),
            ray_wf(r@),
            -0x400_0000 <= t_min <= 0x400_0000,
            -0x400_0000 <= t_max <= 0x400_0000,
        ensures
            hit_view(res) == hit_list_spec(self.objects@, r@, t_min as int, t_max as int),
            res matches Some(rec) ==> t_min < rec.t < t_max && rec_wf(rec@) && rec@.mat.wf()
                && dot_spec(r@.dir, rec@.normal) <= 0,
            res is None ==> forall|i: int|
                0 <= i < self.objects@.len() ==> (#[trigger] self.objects@[i]).hit_spec(
                    r@,
                    t_min as int,
                    t_max as int,
                ) is None,
    {
        let mut best: Option<HitRecord> = None;
        let mut closest: i64 = t_max;
        let mut i: usize = 0;
        let n = self.objects.len();
        while i < n
            invariant
                n == self.objects@.len(),
                0 <= i <= n,
                self.wf(),
                ray_wf(r@),
                -0x400_0000 <= t_min <= 0x400_0000,
                -0x400_0000 <= t_max <= 0x400_0000,
                -0x400_0000 <= closest <= 0x400_0000,
                best is None ==> closest == t_max,
                best is None ==> forall|j: int|
                    0 <= j < i ==> (#[trigger] self.objects@[j]).hit_spec(
                        r@,
                        t_min as int,
                        t_max as int,
                    ) is None,
                best matches Some(rec) ==> t_min < rec.t < t_max && closest == rec.t && rec_wf(
                    rec@,
                ) && rec@.mat.wf() && dot_spec(r@.dir, rec@.normal) <= 0,
                scan_spec(self.objects@, r@, t_min as int, closest as int, hit_view(best), i as int)
                    == hit_list_spec(self.objects@, r@, t_min as int, t_max as int),
            decreases n - i,
        {
            let res = self.objects[i].hit(r, t_min, closest);
            if let Some(rec) = res {
                best = Some(rec);
                closest = rec.t;
            }
            i = i + 1;
        }
        best
    }
}

impl Hittable for HittableList {
    open spec fn hit_model(&self, r: GRay, t_min: int, t_max: int) -> Option<GHit> {
        hit_list_spec(self.objects@, r, t_min, t_max)
    }

    open spec fn hittable_wf(&self) -> bool {
        self.wf()
    }

    fn hit(&self, r: &Ray, t_min: i64, t_max: i64) -> (res: Option<HitRecord>) {
        HittableList::hit(self, r, t_min, t_max)
    }
}

} // verus!
