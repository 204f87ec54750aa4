//! The material model: diffuse (Lambertian), specular with roughness
//! (Metal), and refracting (Dielectric) scattering, plus an absorbing
//! material that terminates a light path. Scattering takes the incoming
//! ray and hit record, writes the outgoing ray and attenuation through
//! `&mut` parameters, and returns whether the path continues — exactly
//! the shape the integrator consumes.

use vstd::prelude::*;
use vstd::math::min;
use crate::fixed::{
    FX_ONE, fx_mul, fx_div, fx_sqrt, fx_mul_spec, fx_div_spec, fx_sqrt_spec,
    lemma_mul_in_range, lemma_fx_mul_spec_bound, lemma_fx_square_nonneg, lemma_tdiv_bound,
    lemma_isqrt_ordered, lemma_isqrt_unique, lemma_isqrt_props, clamp, clamp_spec,
};
use crate::vec::{
    Color, V3, v3_add, v3_neg, v3_scale, v3_bounded, color_wf, dot_spec, dot, unit_vector,
    unit_spec, len_sq_spec, reflect, reflect_spec, refract, refract_spec, random_unit_vector,
    random_in_unit_sphere, unit_sample, lemma_dot_bound,
};
use crate::ray::{Ray, GRay, ray_wf};
use crate::hittable::{HitRecord, GHit, rec_wf};
use crate::rng::random_fx;
use vstd::arithmetic::div_mod::{lemma_div_is_ordered, lemma_div_by_self, lemma_div_by_multiple};

verus! {

/// A diffuse surface reflecting the fraction `albedo` of incoming light.
#[derive(Clone, Copy, Debug)]
pub struct Lambertian {
    pub albedo: Color,
}

/// A specular surface with `albedo` tint and a roughness in `[0, 1]`
/// that perturbs the reflected direction.
#[derive(Clone, Copy, Debug)]
pub struct Metal {
    pub albedo: Color,
    pub roughness: i64,
}

/// A clear refracting surface with the given refractive index.
#[derive(Clone, Copy, Debug)]
pub struct Dielectric {
    pub ref_idx: i64,
}

/// The closed set of surface materials; `Absorbing` ends a path.
#[derive(Clone, Copy, Debug)]
pub enum Material {
    Lambertian(Lambertian),
    Metal(Metal),
    Dielectric(Dielectric),
    Absorbing,
}

impl Lambertian {
    pub open spec fn wf(self) -> bool {
        color_wf(self.albedo@)
    }

    pub fn new(albedo: Color) -> (r: Self)
        ensures
            r.albedo == albedo,
    {
        Self { albedo }
    }
}

impl Metal {
    pub open spec fn wf(self) -> bool {
        &&& color_wf(self.albedo@)
        &&& 0 <= self.roughness <= FX_ONE
    }

    /// A metal with the given tint; the roughness is clamped to `[0, 1]`.
    pub fn new(albedo: Color, r: i64) -> (m: Self)
        ensures
            m.albedo == albedo,
            m.roughness == clamp_spec(r as int, 0, FX_ONE as int),
    {
        Self { albedo, roughness: clamp(r, 0, FX_ONE) }
    }
}

impl Dielectric {
    /// The refractive index must be positive and within a factor of 8 of
    /// vacuum, which covers every physical medium.
    pub open spec fn wf(self) -> bool {
        0x2000 <= self.ref_idx <= 0x8_0000
    }

    pub fn new(ref_idx: i64) -> (d: Self)
        ensures
            d.ref_idx == ref_idx,
    {
        Self { ref_idx }
    }
}

/// The relative refractive index: entering the medium divides by the
/// index, leaving multiplies by it.
pub open spec fn eta_spec(d: Dielectric, front_face: bool) -> int {
    if front_face {
        fx_div_spec(FX_ONE as int, d.ref_idx as int)
    } else {
        d.ref_idx as int
    }
}

/// The cosine of the angle between the reversed incoming direction and
/// the normal, capped at 1.
pub open spec fn cos_theta_spec(unit_dir: V3, normal: V3) -> int {
    min(dot_spec(v3_neg(unit_dir), normal), FX_ONE as int)
}

/// The sine from the cosine; a negative radicand (possible only through
/// rounding) is clamped to zero.
pub open spec fn sin_theta_spec(cos: int) -> int {
    let k = (FX_ONE as int) - fx_mul_spec(cos, cos);
    fx_sqrt_spec(
        if k >= 0 {
            k
        } else {
            0
        },
    )
}

/// Snell's law admits no refracted ray: `eta * sin_theta > 1`.
pub open spec fn tir_spec(eta: int, sin: int) -> bool {
    fx_mul_spec(eta, sin) > FX_ONE as int
}

/// The Schlick approximation of the Fresnel reflectance:
/// `r0 + (1 - r0) * (1 - cos)^5` with `r0 = ((1 - n) / (1 + n))^2`.
pub open spec fn schlick_spec(cosine: int, ref_idx: int) -> int {
    let r0b = fx_div_spec((FX_ONE as int) - ref_idx, (FX_ONE as int) + ref_idx);
    let r0 = fx_mul_spec(r0b, r0b);
    let x = (FX_ONE as int) - cosine;
    let p2 = fx_mul_spec(x, x);
    let p4 = fx_mul_spec(p2, p2);
    let p5 = fx_mul_spec(p4, x);
    r0 + fx_mul_spec((FX_ONE as int) - r0, p5)
}

/// The Schlick reflectance, exactly as `schlick_spec` says.
pub fn schlick(cosine: i64, ref_idx: i64) -> (r: i64)
    requires
        -0x18_0000 <= cosine <= FX_ONE,
        0 < ref_idx <= 0x8_0000,
    ensures
        r == schlick_spec(cosine as int, ref_idx as int),
{
    proof {
        let s = FX_ONE as int;
        assert((s - ref_idx) * s <= s * (s + ref_idx) && -(s * (s + ref_idx)) <= (s - ref_idx) * s)
            by (nonlinear_arith)
            requires
                0 < ref_idx,
                s == 65536,
        ;
        lemma_tdiv_bound((s - ref_idx) * s, s + ref_idx, s);
    }
    let r0b = fx_div(FX_ONE - ref_idx, FX_ONE + ref_idx);
    proof {
        lemma_mul_in_range(r0b as int, r0b as int, 65536, 65536);
        lemma_fx_mul_spec_bound(r0b as int, r0b as int, 65536, 65536, 65536);
        lemma_fx_square_nonneg(r0b as int);
    }
    let r0 = fx_mul(r0b, r0b);
    let x = FX_ONE - cosine;
    proof {
        lemma_mul_in_range(x as int, x as int, 0x19_0000, 0x19_0000);
        lemma_fx_mul_spec_bound(x as int, x as int, 0x19_0000, 0x19_0000, 0x400_0000);
        lemma_fx_square_nonneg(x as int);
    }
    let p2 = fx_mul(x, x);
    proof {
        lemma_mul_in_range(p2 as int, p2 as int, 0x400_0000, 0x400_0000);
        lemma_fx_mul_spec_bound(p2 as int, p2 as int, 0x400_0000, 0x400_0000, 0x10_0000_0000);
        lemma_fx_square_nonneg(p2 as int);
    }
    let p4 = fx_mul(p2, p2);
    proof {
        lemma_mul_in_range(p4 as int, x as int, 0x10_0000_0000, 0x19_0000);
        lemma_fx_mul_spec_bound(p4 as int, x as int, 0x10_0000_0000, 0x19_0000, 0x190_0000_0000);
    }
    let p5 = fx_mul(p4, x);
    proof {
        lemma_mul_in_range(FX_ONE as int - r0 as int, p5 as int, 65536, 0x190_0000_0000);
        lemma_fx_mul_spec_bound(
            FX_ONE as int - r0 as int,
            p5 as int,
            65536,
            0x190_0000_0000,
            0x190_0000_0000,
        );
    }
    r0 + fx_mul(FX_ONE - r0, p5)
}

/// A dielectric with refractive index 1 separates no media: the relative
/// index is exactly 1 on both faces, and `eta * sin_theta` never exceeds
/// 1, so total internal reflection cannot occur for any incidence angle —
/// Snell's law degenerates to the identity.
pub proof fn lemma_unit_index_never_reflects_totally(d: Dielectric, front_face: bool, cos: int)
    requires
        d.ref_idx == FX_ONE,
    ensures
        eta_spec(d, front_face) == FX_ONE as int,
        !tir_spec(eta_spec(d, front_face), sin_theta_spec(cos)),
{
    let s = FX_ONE as int;
    assert(fx_div_spec(s, s) == s);
    let k0 = s - fx_mul_spec(cos, cos);
    lemma_fx_square_nonneg(cos);
    let k = if k0 >= 0 {
        k0
    } else {
        0
    };
    assert(0 <= k <= s);
    let sin = sin_theta_spec(cos);
    lemma_isqrt_props(k * s);
    lemma_isqrt_ordered(k * s, s * s);
    lemma_isqrt_unique(s * s, s);
    assert(0 <= sin <= s);
    assert(fx_mul_spec(s, sin) == sin) by {
        lemma_div_by_multiple(sin, s);
        assert(s * sin == sin * s) by (nonlinear_arith);
    }
}

/// The refracted direction a dielectric uses: the Snell refraction,
/// unless rounding blew it past the direction bounds (possible only in a
/// thin band around total internal reflection), in which case the surface
/// reflects instead.
pub open spec fn refract_dir_spec(ud: V3, n: V3, eta: int) -> V3 {
    let rf = refract_spec(ud, n, eta);
    if v3_bounded(rf, 0x400_0000) {
        rf
    } else {
        reflect_spec(ud, n)
    }
}

/// The directions a dielectric's scatter may hand back for an incoming
/// ray and struck face: forced reflection under total internal
/// reflection; otherwise reflection or the (guarded) refraction, with a
/// degenerate Schlick reflectance forcing its branch.
pub open spec fn dielectric_dir_ok(d: Dielectric, r_in: GRay, h: GHit, dir: V3) -> bool {
    let ud = unit_spec(r_in.dir);
    let eta = eta_spec(d, h.front_face);
    let cos = cos_theta_spec(ud, h.normal);
    let sin = sin_theta_spec(cos);
    &&& (tir_spec(eta, sin) ==> dir == reflect_spec(ud, h.normal))
    &&& (dir == reflect_spec(ud, h.normal) || dir == refract_dir_spec(ud, h.normal, eta))
    &&& (!tir_spec(eta, sin) && schlick_spec(cos, eta) <= 0 ==> dir == refract_dir_spec(
        ud,
        h.normal,
        eta,
    ))
    &&& (!tir_spec(eta, sin) && schlick_spec(cos, eta) >= FX_ONE as int ==> dir == reflect_spec(
        ud,
        h.normal,
    ))
}

/// One admissible result of scattering at a hit: exactly what the
/// material contracts allow for some draw of their samplers. `alive` is
/// the returned flag, `att` the attenuation, `sc` the scattered ray.
pub open spec fn scatter_outcome(
    mat: Material,
    r_in: GRay,
    h: GHit,
    alive: bool,
    att: V3,
    sc: GRay,
) -> bool {
    match mat {
        Material::Lambertian(l) => alive && att == l.albedo@ && sc.orig == h.p && exists|u: V3|
            unit_sample(u) && sc.dir == v3_add(h.normal, u),
        Material::Metal(m) => att == m.albedo@ && sc.orig == h.p && alive == (dot_spec(
            sc.dir,
            h.normal,
        ) > 0) && exists|f: V3|
            v3_bounded(f, FX_ONE as int) && len_sq_spec(f) < FX_ONE as int && sc.dir == v3_add(
                reflect_spec(unit_spec(r_in.dir), h.normal),
                v3_scale(f, m.roughness as int),
            ),
        Material::Dielectric(d) => alive && att == (V3 {
            x: FX_ONE as int,
            y: FX_ONE as int,
            z: FX_ONE as int,
        }) && sc.orig == h.p && dielectric_dir_ok(d, r_in, h, sc.dir),
        Material::Absorbing => !alive,
    }
}

impl Lambertian {
    /// Diffuse scattering: the outgoing direction is the surface normal
    /// plus a random unit vector; the attenuation is the albedo; the
    /// path is never absorbed.
    pub fn scatter(
        &self,
        _r_in: &Ray,
        rec: &HitRecord,
        attenuation: &mut Color,
        scattered: &mut Ray,
        rng: &mut rand::rngs::ThreadRng,
    ) -> (r: bool)
        requires
            rec_wf(rec@),
        ensures
            r == true,
            final(attenuation)@ == self.albedo@,
            final(scattered)@.orig == rec@.p,
            exists|u: V3| unit_sample(u) && final(scattered)@.dir == v3_add(rec@.normal, u),
            ray_wf(final(scattered)@),
    {
        let u = random_unit_vector(rng);
        let dir = rec.normal.add(&u);
        *scattered = Ray::new(&rec.p, &dir);
        *attenuation = self.albedo;
        proof {
            assert(unit_sample(u@) && dir@ == v3_add(rec@.normal, u@));
        }
        true
    }
}

impl Metal {
    /// Specular scattering: reflect the normalized incoming direction
    /// about the normal and perturb it by `roughness` times a random
    /// point of the unit ball. The path is absorbed exactly when the
    /// perturbed direction does not point away from the surface.
    pub fn scatter(
        &self,
        r_in: &Ray,
        rec: &HitRecord,
        attenuation: &mut Color,
        scattered: &mut Ray,
        rng: &mut rand::rngs::ThreadRng,
    ) -> (r: bool)
        requires
            self.wf(),
            rec_wf(rec@),
            ray_wf(r_in@),
            1 <= len_sq_spec(r_in@.dir),
        ensures
            final(attenuation)@ == self.albedo@,
            final(scattered)@.orig == rec@.p,
            ray_wf(final(scattered)@),
            r == (dot_spec(final(scattered)@.dir, rec@.normal) > 0),
            exists|f: V3|
                v3_bounded(f, FX_ONE as int) && len_sq_spec(f) < FX_ONE as int
                    && final(scattered)@.dir == v3_add(
                    reflect_spec(unit_spec(r_in@.dir), rec@.normal),
                    v3_scale(f, self.roughness as int),
                ),
    {
        let u = unit_vector(r_in.dir);
        let reflected = reflect(&u, &rec.normal);
        let f = random_in_unit_sphere(rng);
        proof {
            lemma_fx_mul_spec_bound(f@.x, self.roughness as int, 65536, 65536, 65536);
            lemma_fx_mul_spec_bound(f@.y, self.roughness as int, 65536, 65536, 65536);
            lemma_fx_mul_spec_bound(f@.z, self.roughness as int, 65536, 65536, 65536);
        }
        let fuzz = f.mul_s(self.roughness);
        let dir = reflected.add(&fuzz);
        *scattered = Ray::new(&rec.p, &dir);
        *attenuation = self.albedo;
        let d = dot(&dir, &rec.normal);
        proof {
            assert(v3_bounded(f@, FX_ONE as int) && len_sq_spec(f@) < FX_ONE as int && dir@
                == v3_add(
                reflect_spec(unit_spec(r_in@.dir), rec@.normal),
                v3_scale(f@, self.roughness as int),
            ));
        }
        d > 0
    }
}

impl Dielectric {
    /// Refracting scattering: attenuation is always white and the path
    /// always continues. The relative index follows the struck face;
    /// total internal reflection forces a reflection, otherwise the
    /// Schlick reflectance decides probabilistically between reflecting
    /// and refracting.
    pub fn scatter(
        &self,
        r_in: &Ray,
        rec: &HitRecord,
        attenuation: &mut Color,
        scattered: &mut Ray,
        rng: &mut rand::rngs::ThreadRng,
    ) -> (r: bool)
        requires
            self.wf(),
            rec_wf(rec@),
            ray_wf(r_in@),
            1 <= len_sq_spec(r_in@.dir),
        ensures
            r == true,
            final(attenuation)@ == (V3 {
                x: FX_ONE as int,
                y: FX_ONE as int,
                z: FX_ONE as int,
            }),
            final(scattered)@.orig == rec@.p,
            ray_wf(final(scattered)@),
            dielectric_dir_ok(*self, r_in@, rec@, final(scattered)@.dir),
    {
        *attenuation = Color::new(FX_ONE, FX_ONE, FX_ONE);
        let eta: i64 = if rec.front_face {
            proof {
                lemma_tdiv_bound(65536int * 65536, self.ref_idx as int, 0x8_0000);
                lemma_div_by_self(self.ref_idx as int);
                lemma_div_is_ordered(self.ref_idx as int, 65536int * 65536, self.ref_idx as int);
            }
            fx_div(FX_ONE, self.ref_idx)
        } else {
            self.ref_idx
        };
        let unit_dir = unit_vector(r_in.dir);
        let nud = unit_dir.neg();
        proof {
            lemma_dot_bound(nud@, rec@.normal, 0x2_0000, 0x4_0000, 0x8_0000);
        }
        let dotted = dot(&nud, &rec.normal);
        let cos_theta: i64 = if dotted < FX_ONE {
            dotted
        } else {
            FX_ONE
        };
        proof {
            lemma_mul_in_range(cos_theta as int, cos_theta as int, 0x18_0000, 0x18_0000);
            lemma_fx_mul_spec_bound(
                cos_theta as int,
                cos_theta as int,
                0x18_0000,
                0x18_0000,
                0x900_0000,
            );
            lemma_fx_square_nonneg(cos_theta as int);
        }
        let cs2 = fx_mul(cos_theta, cos_theta);
        let kr = FX_ONE - cs2;
        let k: i64 = if kr >= 0 {
            kr
        } else {
            0
        };
        let sin_theta = fx_sqrt(k);
        proof {
            lemma_isqrt_ordered((k as int) * (FX_ONE as int), (65536 * 65536) as int);
            lemma_isqrt_unique((65536 * 65536) as int, 65536int);
            lemma_mul_in_range(eta as int, sin_theta as int, 0x8_0000, 0x1_0000);
        }
        let es = fx_mul(eta, sin_theta);
        if es > FX_ONE {
            let reflected = reflect(&unit_dir, &rec.normal);
            *scattered = Ray::new(&rec.p, &reflected);
            return true;
        }
        let reflect_prob = schlick(cos_theta, eta);
        let rv = random_fx(rng);
        if rv < reflect_prob {
            let reflected = reflect(&unit_dir, &rec.normal);
            *scattered = Ray::new(&rec.p, &reflected);
            return true;
        }
        let refracted = refract(&unit_dir, &rec.normal, eta);
        let ok = -0x400_0000 <= refracted.x && refracted.x <= 0x400_0000 && -0x400_0000
            <= refracted.y && refracted.y <= 0x400_0000 && -0x400_0000 <= refracted.z && refracted.z
            <= 0x400_0000;
        if ok {
            *scattered = Ray::new(&rec.p, &refracted);
        } else {
            let reflected = reflect(&unit_dir, &rec.normal);
            *scattered = Ray::new(&rec.p, &reflected);
        }
        true
    }
}

impl Material {
    /// The invariants scattering relies on: colors in `[0, 1]`, a
    /// roughness in `[0, 1]`, a physical refractive index.
    pub open spec fn wf(self) -> bool {
        match self {
            Material::Lambertian(l) => l.wf(),
            Material::Metal(m) => m.wf(),
            Material::Dielectric(d) => d.wf(),
            Material::Absorbing => true,
        }
    }

    /// Scatter the incoming ray at the hit point: write the outgoing ray
    /// and attenuation and say whether the path continues. Lambertian and
    /// dielectric surfaces never absorb; a metal absorbs exactly when its
    /// perturbed reflection points into the surface; the absorbing
    /// material always ends the path.
    pub fn scatter(
        &self,
        r_in: &Ray,
        rec: &HitRecord,
        attenuation: &mut Color,
        scattered: &mut Ray,
        rng: &mut rand::rngs::ThreadRng,
    ) -> (r: bool)
        requires
            self.wf(),
            rec_wf(rec@),
            ray_wf(r_in@),
            1 <= len_sq_spec(r_in@.dir),
        ensures
            (*self is Absorbing) ==> r == false && *final(attenuation) == *old(attenuation)
                && *final(scattered) == *old(scattered),
            !(*self is Absorbing) ==> ray_wf(final(scattered)@) && final(scattered)@.orig
                == rec@.p && color_wf(final(attenuation)@),
            (*self is Lambertian) ==> r == true,
            (*self is Dielectric) ==> r == true,
            *self matches Material::Metal(m) ==> (r == (dot_spec(
                final(scattered)@.dir,
                rec@.normal,
            ) > 0) && final(attenuation)@ == m.albedo@),
            scatter_outcome(*self, r_in@, rec@, r, final(attenuation)@, final(scattered)@),
    {
        match self {
            Material::Lambertian(l) => l.scatter(r_in, rec, attenuation, scattered, rng),
            Material::Metal(m) => m.scatter(r_in, rec, attenuation, scattered, rng),
            Material::Dielectric(d) => d.scatter(r_in, rec, attenuation, scattered, rng),
            Material::Absorbing => false,
        }
    }
}

} // verus!
