//! The thin-lens camera: normalized image-plane coordinates plus lens
//! jitter map to a world-space ray. The vertical field of view enters as
//! the tangent of its half angle (a fixed-point scalar), from which the
//! viewport is derived at the focal plane; an aperture of zero gives a
//! pinhole camera whose rays are a deterministic function of `(s, t)`.

use vstd::prelude::*;
use crate::fixed::{
    FX_ONE, fx_mul, fx_div, fx_mul_spec, fx_div_spec, lemma_mul_in_range, lemma_fx_mul_spec_bound,
    lemma_tdiv_bound, lemma_tdiv_sign,
};
use crate::vec::{
    Vec3, Point3, V3, v3_add, v3_sub, v3_div, v3_scale, v3_bounded, cross_spec, unit_spec,
    len_sq_spec, disk_sample, cross, unit_vector, random_in_unit_disk, lemma_cross_bound,
};
use crate::ray::{Ray, GRay, ray_wf};

verus! {

/// The camera: a position, the focal-plane viewport frame, the derived
/// orthonormal-like basis, and the lens radius.
#[derive(Clone, Copy)]
pub struct Camera {
    pub origin: Point3,
    pub lower_left_corner: Point3,
    pub horizontal: Vec3,
    pub vertical: Vec3,
    pub u: Vec3,
    pub v: Vec3,
    pub w: Vec3,
    pub lens_radius: i64,
}

/// The ray the camera produces for image-plane coordinates `(s, t)` and
/// lens-disk point `d`: the origin is offset within the lens, and the
/// direction retargets the same focal-plane point.
pub open spec fn get_ray_spec(c: Camera, s: int, t: int, d: V3) -> GRay {
    let rdx = fx_mul_spec(d.x, c.lens_radius as int);
    let rdy = fx_mul_spec(d.y, c.lens_radius as int);
    let offset = v3_add(v3_scale(c.u@, rdx), v3_scale(c.v@, rdy));
    let orig = v3_add(c.origin@, offset);
    let dir = v3_sub(
        v3_sub(v3_add(v3_add(c.lower_left_corner@, v3_scale(c.horizontal@, s)), v3_scale(c.vertical@, t)), c.origin@),
        offset,
    );
    GRay { orig, dir }
}

/// The deterministic pinhole ray for `(s, t)`: the lens point does not
/// matter when the lens radius is zero.
pub open spec fn primary_ray_spec(c: Camera, s: int, t: int) -> GRay {
    get_ray_spec(c, s, t, V3 { x: 0, y: 0, z: 0 })
}

/// Whether a look-from / look-at / up frame is fit for deriving a
/// camera basis: the view direction and the first basis cross product
/// must both be non-degenerate. This decides exactly the frame
/// preconditions of `Camera::new`, so callers can test before building.
pub fn camera_frame_ok(look_from: &Point3, look_at: &Point3, vup: &Vec3) -> (ok: bool)
    requires
        v3_bounded(look_from@, 0x100_0000),
        v3_bounded(look_at@, 0x100_0000),
        v3_bounded(vup@, 0x4_0000),
    ensures
        ok == (1 <= len_sq_spec(v3_sub(look_from@, look_at@)) && 1 <= len_sq_spec(
            cross_spec(vup@, unit_spec(v3_sub(look_from@, look_at@))),
        )),
{
    let diff = look_from.sub(look_at);
    let ls = diff.length_sqrd();
    if ls < 1 {
        return false;
    }
    let w = unit_vector(diff);
    proof {
        lemma_cross_bound(vup@, w@, 0x4_0000, 0x1_8100, 0x6_0400);
    }
    let cu = cross(vup, &w);
    cu.length_sqrd() >= 1
}

impl Camera {
    /// The field bounds that make every produced ray well formed.
    pub open spec fn wf(self) -> bool {
        &&& v3_bounded(self.origin@, 0x100_0000)
        &&& v3_bounded(self.lower_left_corner@, 0x1A0_0000)
        &&& v3_bounded(self.horizontal@, 0x31_0000)
        &&& v3_bounded(self.vertical@, 0xA0_0000)
        &&& v3_bounded(self.u@, 0x1_8100)
        &&& v3_bounded(self.v@, 0x5_0000)
        &&& 0 <= self.lens_radius <= FX_ONE
    }

    /// Derive a camera from the tangent of the half field of view, the
    /// aspect ratio, aperture, focus distance and the look-from /
    /// look-at / up frame. The viewport is scaled to the focal plane;
    /// the preconditions keep that plane within the coordinate bounds
    /// and rule out a degenerate frame.
    pub fn new(
        tan_half_vfov: i64,
        aspect_ratio: i64,
        aperture: i64,
        focus_dist: i64,
        look_from: Point3,
        look_at: Point3,
        vup: Vec3,
    ) -> (c: Camera)
        requires
            0 < tan_half_vfov <= 0x4_0000,
            0 < aspect_ratio <= 0x8_0000,
            0 <= aperture <= 2 * FX_ONE,
            0 < focus_dist <= 0x20_0000,
            v3_bounded(look_from@, 0x100_0000),
            v3_bounded(look_at@, 0x100_0000),
            v3_bounded(vup@, 0x4_0000),
            1 <= len_sq_spec(v3_sub(look_from@, look_at@)),
            1 <= len_sq_spec(
                cross_spec(vup@, unit_spec(v3_sub(look_from@, look_at@))),
            ),
            fx_mul_spec(focus_dist as int, 2 * tan_half_vfov) <= 0x20_0000,
            fx_mul_spec(
                focus_dist as int,
                fx_mul_spec(aspect_ratio as int, 2 * tan_half_vfov),
            ) <= 0x20_0000,
        ensures
            c.wf(),
            c.origin == look_from,
            c.w@ == unit_spec(v3_sub(look_from@, look_at@)),
            c.u@ == unit_spec(cross_spec(vup@, c.w@)),
            c.v@ == cross_spec(c.w@, c.u@),
            c.horizontal@ == v3_scale(
                c.u@,
                fx_mul_spec(
                    focus_dist as int,
                    fx_mul_spec(aspect_ratio as int, 2 * tan_half_vfov),
                ),
            ),
            c.vertical@ == v3_scale(
                c.v@,
                fx_mul_spec(focus_dist as int, 2 * tan_half_vfov),
            ),
            c.lower_left_corner@ == v3_sub(
                v3_sub(
                    v3_sub(look_from@, v3_div(c.horizontal@, 2 * FX_ONE as int)),
                    v3_div(c.vertical@, 2 * FX_ONE as int),
                ),
                v3_scale(c.w@, focus_dist as int),
            ),
            c.lens_radius == fx_div_spec(aperture as int, 2 * FX_ONE as int),
            aperture == 0 ==> c.lens_radius == 0,
    {
        let viewport_height = 2 * tan_half_vfov;
        proof {
            lemma_mul_in_range(aspect_ratio as int, viewport_height as int, 0x8_0000, 0x8_0000);
            lemma_fx_mul_spec_bound(
                aspect_ratio as int,
                viewport_height as int,
                0x8_0000,
                0x8_0000,
                0x40_0000,
            );
            lemma_tdiv_sign((aspect_ratio as int) * (viewport_height as int), FX_ONE as int);
            assert((aspect_ratio as int) * (viewport_height as int) >= 0) by (nonlinear_arith)
                requires
                    aspect_ratio > 0,
                    viewport_height > 0,
            ;
        }
        let viewport_width = fx_mul(aspect_ratio, viewport_height);
        let diff = look_from.sub(&look_at);
        let w = unit_vector(diff);
        proof {
            lemma_cross_bound(vup@, w@, 0x4_0000, 0x1_8100, 0x6_0400);
        }
        let cu = cross(&vup, &w);
        let u = unit_vector(cu);
        proof {
            lemma_cross_bound(w@, u@, 0x1_8100, 0x1_8100, 0x2_8000);
        }
        let v = cross(&w, &u);
        let origin = look_from;
        proof {
            lemma_mul_in_range(focus_dist as int, viewport_width as int, 0x20_0000, 0x40_0000);
            lemma_tdiv_sign((focus_dist as int) * (viewport_width as int), FX_ONE as int);
            assert((focus_dist as int) * (viewport_width as int) >= 0) by (nonlinear_arith)
                requires
                    focus_dist > 0,
                    viewport_width >= 0,
            ;
        }
        let fw = fx_mul(focus_dist, viewport_width);
        proof {
            lemma_fx_mul_spec_bound(u@.x, fw as int, 0x1_8100, 0x20_0000, 0x31_0000);
            lemma_fx_mul_spec_bound(u@.y, fw as int, 0x1_8100, 0x20_0000, 0x31_0000);
            lemma_fx_mul_spec_bound(u@.z, fw as int, 0x1_8100, 0x20_0000, 0x31_0000);
        }
        let horizontal = u.mul_s(fw);
        proof {
            lemma_mul_in_range(focus_dist as int, viewport_height as int, 0x20_0000, 0x8_0000);
            lemma_tdiv_sign((focus_dist as int) * (viewport_height as int), FX_ONE as int);
            assert((focus_dist as int) * (viewport_height as int) >= 0) by (nonlinear_arith)
                requires
                    focus_dist > 0,
                    viewport_height > 0,
            ;
        }
        let fh = fx_mul(focus_dist, viewport_height);
        proof {
            lemma_fx_mul_spec_bound(v@.x, fh as int, 0x5_0000, 0x20_0000, 0xA0_0000);
            lemma_fx_mul_spec_bound(v@.y, fh as int, 0x5_0000, 0x20_0000, 0xA0_0000);
            lemma_fx_mul_spec_bound(v@.z, fh as int, 0x5_0000, 0x20_0000, 0xA0_0000);
        }
        let vertical = v.mul_s(fh);
        proof {
            lemma_tdiv_bound(horizontal@.x * 65536, 2 * FX_ONE as int, 0x19_0000);
            lemma_tdiv_bound(horizontal@.y * 65536, 2 * FX_ONE as int, 0x19_0000);
            lemma_tdiv_bound(horizontal@.z * 65536, 2 * FX_ONE as int, 0x19_0000);
            lemma_tdiv_bound(vertical@.x * 65536, 2 * FX_ONE as int, 0x50_0000);
            lemma_tdiv_bound(vertical@.y * 65536, 2 * FX_ONE as int, 0x50_0000);
            lemma_tdiv_bound(vertical@.z * 65536, 2 * FX_ONE as int, 0x50_0000);
        }
        let half_h = horizontal.div_s(2 * FX_ONE);
        let half_v = vertical.div_s(2 * FX_ONE);
        proof {
            lemma_fx_mul_spec_bound(w@.x, focus_dist as int, 0x1_8100, 0x20_0000, 0x31_0000);
            lemma_fx_mul_spec_bound(w@.y, focus_dist as int, 0x1_8100, 0x20_0000, 0x31_0000);
            lemma_fx_mul_spec_bound(w@.z, focus_dist as int, 0x1_8100, 0x20_0000, 0x31_0000);
        }
        let fdw = w.mul_s(focus_dist);
        let l1 = origin.sub(&half_h);
        let l2 = l1.sub(&half_v);
        let lower_left_corner = l2.sub(&fdw);
        proof {
            lemma_tdiv_bound((aperture as int) * 65536, 2 * FX_ONE as int, FX_ONE as int);
            lemma_tdiv_sign((aperture as int) * 65536, 2 * FX_ONE as int);
        }
        let lens_radius = fx_div(aperture, 2 * FX_ONE);
        Camera { origin, lower_left_corner, horizontal, vertical, u, v, w, lens_radius }
    }

    /// The world-space ray for image-plane coordinates `(s, t)`, with a
    /// fresh lens sample. With an aperture of zero the result is the
    /// deterministic pinhole ray for `(s, t)`.
    pub fn get_ray(&self, s: i64, t: i64, rng: &mut rand::rngs::ThreadRng) -> (r: Ray)
        requires
            self.wf(),
            0 <= s <= FX_ONE,
            0 <= t <= FX_ONE,
        ensures
            ray_wf(r@),
            exists|d: V3| disk_sample(d) && r@ == get_ray_spec(*self, s as int, t as int, d),
            self.lens_radius == 0 ==> r@ == primary_ray_spec(*self, s as int, t as int),
    {
        let rd = random_in_unit_disk(rng);
        proof {
            lemma_mul_in_range(rd@.x, self.lens_radius as int, 0x1_0000, 0x1_0000);
            lemma_mul_in_range(rd@.y, self.lens_radius as int, 0x1_0000, 0x1_0000);
            lemma_fx_mul_spec_bound(rd@.x, self.lens_radius as int, 0x1_0000, 0x1_0000, 0x1_0000);
            lemma_fx_mul_spec_bound(rd@.y, self.lens_radius as int, 0x1_0000, 0x1_0000, 0x1_0000);
        }
        let rdx = fx_mul(rd.x, self.lens_radius);
        let rdy = fx_mul(rd.y, self.lens_radius);
        proof {
            lemma_fx_mul_spec_bound(self.u@.x, rdx as int, 0x1_8100, 0x1_0000, 0x1_8100);
            lemma_fx_mul_spec_bound(self.u@.y, rdx as int, 0x1_8100, 0x1_0000, 0x1_8100);
            lemma_fx_mul_spec_bound(self.u@.z, rdx as int, 0x1_8100, 0x1_0000, 0x1_8100);
            lemma_fx_mul_spec_bound(self.v@.x, rdy as int, 0x5_0000, 0x1_0000, 0x5_0000);
            lemma_fx_mul_spec_bound(self.v@.y, rdy as int, 0x5_0000, 0x1_0000, 0x5_0000);
            lemma_fx_mul_spec_bound(self.v@.z, rdy as int, 0x5_0000, 0x1_0000, 0x5_0000);
        }
        let o1 = self.u.mul_s(rdx);
        let o2 = self.v.mul_s(rdy);
        let offset = o1.add(&o2);
        let orig = self.origin.add(&offset);
        proof {
            lemma_fx_mul_spec_bound(self.horizontal@.x, s as int, 0x31_0000, 0x1_0000, 0x31_0000);
            lemma_fx_mul_spec_bound(self.horizontal@.y, s as int, 0x31_0000, 0x1_0000, 0x31_0000);
            lemma_fx_mul_spec_bound(self.horizontal@.z, s as int, 0x31_0000, 0x1_0000, 0x31_0000);
            lemma_fx_mul_spec_bound(self.vertical@.x, t as int, 0xA0_0000, 0x1_0000, 0xA0_0000);
            lemma_fx_mul_spec_bound(self.vertical@.y, t as int, 0xA0_0000, 0x1_0000, 0xA0_0000);
            lemma_fx_mul_spec_bound(self.vertical@.z, t as int, 0xA0_0000, 0x1_0000, 0xA0_0000);
        }
        let sh = self.horizontal.mul_s(s);
        let tv = self.vertical.mul_s(t);
        let d1 = self.lower_left_corner.add(&sh);
        let d2 = d1.add(&tv);
        let d3 = d2.sub(&self.origin);
        let dir = d3.sub(&offset);
        let r = Ray::new(&orig, &dir);
        proof {
            assert(disk_sample(rd@) && r@ == get_ray_spec(*self, s as int, t as int, rd@));
            if self.lens_radius == 0 {
                assert(fx_mul_spec(rd@.x, 0) == 0) by {
                    assert(rd@.x * 0 == 0) by (nonlinear_arith);
                }
                assert(fx_mul_spec(rd@.y, 0) == 0) by {
                    assert(rd@.y * 0 == 0) by (nonlinear_arith);
                }
                assert(fx_mul_spec(0int, 0int) == 0);
            }
        }
        r
    }
}

} // verus!
