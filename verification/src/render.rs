//! The radiance integrator and the color quantizer.
//!
//! `ray_color` recursively traces a ray: an exhausted depth budget or an
//! absorbed path contributes black, a miss contributes the background
//! gradient, and a scattered hit recurses and attenuates the result.
//! `encode_color` averages a pixel's accumulated color, applies the
//! gamma-2 tone curve and quantizes each channel to a byte.

use vstd::prelude::*;
use crate::fixed::{
    FX_ONE, fx_mul, fx_sqrt, fx_mul_spec, fx_sqrt_spec, tdiv, clamp, clamp_spec,
    lemma_mul_in_range, lemma_fx_mul_spec_bound, lemma_fx_mul_unit_interval, lemma_tdiv_ordered,
    lemma_tdiv_sign, 
};
use crate::vec::{
    Vec3, Color, V3, v3_cmul, color_wf, len_sq_spec, unit_spec, unit_vector,
};
use crate::ray::{Ray, GRay, ray_wf};
use crate::hittable::Hittable;
use crate::material::scatter_outcome;

verus! {

/// Hits nearer than this parameter are ignored (shadow-acne guard,
/// about one thousandth of a unit).
pub const T_NEAR: i64 = 66;

/// The far end of the search interval: 1024 units, the whole bounded
/// scene.
pub const T_FAR: i64 = 0x400_0000;

/// The background gradient for a normalized direction: a linear blend
/// from white at the horizon to sky blue at the zenith, each channel
/// clamped to `[0, 1]` to absorb normalization rounding.
pub open spec fn background_spec(u: V3) -> V3 {
    let t = fx_mul_spec(32768, u.y + (FX_ONE as int));
    let s = (FX_ONE as int) - t;
    V3 {
        x: clamp_spec(fx_mul_spec(FX_ONE as int, s) + fx_mul_spec(32768, t), 0, FX_ONE as int),
        y: clamp_spec(fx_mul_spec(FX_ONE as int, s) + fx_mul_spec(45875, t), 0, FX_ONE as int),
        z: clamp_spec(fx_mul_spec(FX_ONE as int, s) + fx_mul_spec(FX_ONE as int, t), 0, FX_ONE as int),
    }
}

/// The background color of a well-formed ray, computed from its
/// normalized direction.
fn background(r: &Ray) -> (c: Color)
    requires
        ray_wf(r@),
        1 <= len_sq_spec(r@.dir),
    ensures
        c@ == background_spec(unit_spec(r@.dir)),
        color_wf(c@),
{
    let unit_dir = unit_vector(r.dir);
    proof {
        lemma_mul_in_range(32768, unit_dir@.y + FX_ONE as int, 32768, 0x2_8100);
        lemma_fx_mul_spec_bound(32768, unit_dir@.y + FX_ONE as int, 32768, 0x2_8100, 0x1_4080);
    }
    let t = fx_mul(32768, unit_dir.y + FX_ONE);
    let s = FX_ONE - t;
    proof {
        lemma_mul_in_range(FX_ONE as int, s as int, 0x1_0000, 0x2_4080);
        lemma_fx_mul_spec_bound(FX_ONE as int, s as int, 0x1_0000, 0x2_4080, 0x2_4080);
        lemma_mul_in_range(32768, t as int, 32768, 0x1_4080);
        lemma_fx_mul_spec_bound(32768, t as int, 32768, 0x1_4080, 0x1_4080);
        lemma_mul_in_range(45875, t as int, 45875, 0x1_4080);
        lemma_fx_mul_spec_bound(45875, t as int, 45875, 0x1_4080, 0x1_4080);
        lemma_mul_in_range(FX_ONE as int, t as int, 0x1_0000, 0x1_4080);
        lemma_fx_mul_spec_bound(FX_ONE as int, t as int, 0x1_0000, 0x1_4080, 0x1_4080);
    }
    let wx = fx_mul(FX_ONE, s);
    let bx = clamp(wx + fx_mul(32768, t), 0, FX_ONE);
    let by = clamp(wx + fx_mul(45875, t), 0, FX_ONE);
    let bz = clamp(wx + fx_mul(FX_ONE, t), 0, FX_ONE);
    Vec3::new(bx, by, bz)
}

/// A light-transport path is admissible for a ray under a depth budget
/// when it is a chain of scatter steps the material contracts allow:
/// each step records the attenuation and scattered ray of some draw at
/// the hit the previous ray produced, and the path ends with the leaf
/// color — the background gradient on a miss, black on an exhausted
/// budget, a degenerate direction or an absorbed draw.
pub open spec fn transport_path_ok<T: Hittable>(
    world: T,
    r: GRay,
    depth: int,
    steps: Seq<(V3, GRay)>,
    leaf: V3,
) -> bool
    decreases steps.len(),
{
    if depth <= 0 {
        steps.len() == 0 && leaf == (V3 { x: 0, y: 0, z: 0 })
    } else if len_sq_spec(r.dir) < 1 {
        steps.len() == 0 && leaf == (V3 { x: 0, y: 0, z: 0 })
    } else {
        match world.hit_model(r, T_NEAR as int, T_FAR as int) {
            Option::None => steps.len() == 0 && leaf == background_spec(unit_spec(r.dir)),
            Option::Some(h) => if steps.len() == 0 {
                leaf == (V3 { x: 0, y: 0, z: 0 }) && exists|att: V3, sc: GRay|
                    #[trigger] scatter_outcome(h.mat, r, h, false, att, sc)
            } else {
                scatter_outcome(h.mat, r, h, true, steps[0].0, steps[0].1)
                    && transport_path_ok(
                    world,
                    steps[0].1,
                    depth - 1,
                    steps.subrange(1, steps.len() as int),
                    leaf,
                )
            },
        }
    }
}

/// The color a transport path yields: the leaf color attenuated by each
/// step's attenuation in turn — Beer's-law accumulation along the path.
pub open spec fn path_color(steps: Seq<(V3, GRay)>, leaf: V3) -> V3
    decreases steps.len(),
{
    if steps.len() == 0 {
        leaf
    } else {
        v3_cmul(steps[0].0, path_color(steps.subrange(1, steps.len() as int), leaf))
    }
}

/// The recursively estimated radiance along a ray.
///
/// Exactly black when the depth budget is exhausted or the ray's
/// direction is numerically degenerate; exactly the background gradient
/// when nothing in the scene is hit; otherwise the scattered recursion
/// attenuated by the material, which keeps every channel in `[0, 1]`.
/// In every case the result is the color of some admissible transport
/// path: a chain of scatter steps the material contracts allow, ending
/// in a leaf color, accumulated by `path_color`.
#[verifier::rlimit(50)]
pub fn ray_color<T: Hittable>(
    r: &Ray,
    world: &T,
    depth: usize,
    rng: &mut rand::rngs::ThreadRng,
) -> (color: Color)
    requires
        world.hittable_wf(),
        ray_wf(r@),
    ensures
        color_wf(color@),
        depth == 0 ==> color@ == (V3 { x: 0, y: 0, z: 0 }),
        depth > 0 && len_sq_spec(r@.dir) < 1 ==> color@ == (V3 { x: 0, y: 0, z: 0 }),
        depth > 0 && 1 <= len_sq_spec(r@.dir) && world.hit_model(
            r@,
            T_NEAR as int,
            T_FAR as int,
        ) is None ==> color@ == background_spec(unit_spec(r@.dir)),
        depth > 0 && 1 <= len_sq_spec(r@.dir) ==> (world.hit_model(
            r@,
            T_NEAR as int,
            T_FAR as int,
        ) matches Some(h) && h.mat is Absorbing ==> color@ == (V3 { x: 0, y: 0, z: 0 })),
        exists|steps: Seq<(V3, GRay)>, leaf: V3|
            #[trigger] transport_path_ok(*world, r@, depth as int, steps, leaf) && color@
                == path_color(steps, leaf),
    decreases depth,
{
    if depth == 0 {
        let black = Vec3::new(0, 0, 0);
        proof {
            let steps = Seq::<(V3, GRay)>::empty();
            assert(transport_path_ok(*world, r@, depth as int, steps, black@));
            assert(black@ == path_color(steps, black@));
        }
        return black;
    }
    let ls = r.dir.length_sqrd();
    if ls < 1 {
        let black = Vec3::new(0, 0, 0);
        proof {
            let steps = Seq::<(V3, GRay)>::empty();
            assert(transport_path_ok(*world, r@, depth as int, steps, black@));
            assert(black@ == path_color(steps, black@));
        }
        return black;
    }
    let hit = world.hit(r, T_NEAR, T_FAR);
    match hit {
        Some(rec) => {
            let zero = Vec3::new(0, 0, 0);
            let mut attenuation = zero;
            let mut scattered = Ray::new(&zero, &zero);
            if rec.mat.scatter(r, &rec, &mut attenuation, &mut scattered, rng) {
                let recursed = ray_color(&scattered, world, depth - 1, rng);
                proof {
                    lemma_fx_mul_unit_interval(attenuation@.x, recursed@.x, FX_ONE as int);
                    lemma_fx_mul_unit_interval(attenuation@.y, recursed@.y, FX_ONE as int);
                    lemma_fx_mul_unit_interval(attenuation@.z, recursed@.z, FX_ONE as int);
                }
                let product = attenuation.mul(&recursed);
                proof {
                    assert(scatter_outcome(rec@.mat, r@, rec@, true, attenuation@, scattered@));
                    assert(world.hit_model(r@, T_NEAR as int, T_FAR as int) == Option::Some(
                        rec@,
                    ));
                    let (tail, leaf) = choose|tail: Seq<(V3, GRay)>, leaf: V3|
                        #[trigger] transport_path_ok(
                            *world,
                            scattered@,
                            depth as int - 1,
                            tail,
                            leaf,
                        ) && recursed@ == path_color(tail, leaf);
                    let steps = seq![(attenuation@, scattered@)] + tail;
                    assert(steps.subrange(1, steps.len() as int) =~= tail);
                    assert(steps[0] == (attenuation@, scattered@));
                    assert(transport_path_ok(*world, r@, depth as int, steps, leaf));
                    assert(product@ == path_color(steps, leaf));
                }
                product
            } else {
                let black = Vec3::new(0, 0, 0);
                proof {
                    assert(scatter_outcome(rec@.mat, r@, rec@, false, attenuation@, scattered@));
                    assert(world.hit_model(r@, T_NEAR as int, T_FAR as int) == Option::Some(
                        rec@,
                    ));
                    let steps = Seq::<(V3, GRay)>::empty();
                    assert(transport_path_ok(*world, r@, depth as int, steps, black@));
                    assert(black@ == path_color(steps, black@));
                }
                black
            }
        },
        None => {
            let bg = background(r);
            proof {
                let steps = Seq::<(V3, GRay)>::empty();
                assert(transport_path_ok(*world, r@, depth as int, steps, bg@));
                assert(bg@ == path_color(steps, bg@));
            }
            bg
        },
    }
}

/// One quantized channel: average over the sample count, gamma-correct
/// with a square root, clamp just below 1 and scale to a byte.
pub open spec fn encode_channel_spec(x: int, n: int) -> int {
    let avg = tdiv(x, n);
    let g = fx_sqrt_spec(avg);
    let cl = clamp_spec(g, 0, 65470);
    tdiv(256 * cl, FX_ONE as int)
}

/// Quantize an accumulated pixel color to one byte per channel, exactly
/// as `encode_channel_spec` says of each.
pub fn encode_color(pixel_color: &Color, samples_per_pixel: usize) -> (rgb: (u8, u8, u8))
    requires
        0 <= pixel_color@.x,
        0 <= pixel_color@.y,
        0 <= pixel_color@.z,
        1 <= samples_per_pixel <= 0x1000_0000,
    ensures
        rgb.0 == encode_channel_spec(pixel_color@.x, samples_per_pixel as int),
        rgb.1 == encode_channel_spec(pixel_color@.y, samples_per_pixel as int),
        rgb.2 == encode_channel_spec(pixel_color@.z, samples_per_pixel as int),
{
    let n = samples_per_pixel as i64;
    let r = encode_channel(pixel_color.x, n);
    let g = encode_channel(pixel_color.y, n);
    let b = encode_channel(pixel_color.z, n);
    (r, g, b)
}

/// Quantize one channel.
fn encode_channel(x: i64, n: i64) -> (q: u8)
    requires
        0 <= x,
        1 <= n,
    ensures
        q == encode_channel_spec(x as int, n as int),
{
    let avg = x / n;
    let g = fx_sqrt(avg);
    let cl = clamp(g, 0, 65470);
    let q = (256 * cl) / FX_ONE;
    proof {
        lemma_tdiv_ordered(256 * (cl as int), (256 * 65470) as int, FX_ONE as int);
        lemma_tdiv_sign(256 * (cl as int), FX_ONE as int);
    }
    q as u8
}

} // verus!
