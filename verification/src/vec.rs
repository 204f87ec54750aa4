//! Three-component fixed-point vectors, used both as points in space and
//! as colors. The ghost type `V3` views a vector as a triple of unbounded
//! integers; every operation states its result exactly over that view.

use vstd::prelude::*;
use crate::fixed::{
    FX_ONE, fx_mul, fx_div, fx_sqrt, fx_mul_spec, fx_div_spec, fx_sqrt_spec, 
    lemma_mul_in_range, lemma_fx_mul_spec_bound, lemma_fx_square_nonneg, lemma_tdiv_bound,
    lemma_tdiv_remainder, lemma_isqrt_ordered, lemma_isqrt_unique, lemma_isqrt_props, tdiv, isqrt_spec,
};
use vstd::arithmetic::div_mod::lemma_fundamental_div_mod;
use crate::rng::{random_fx, random_fx_bounded};

verus! {

/// The mathematical view of a vector: three unbounded integers, each a
/// fixed-point scalar (`FX_ONE` stands for 1).
pub struct V3 {
    pub x: int,
    pub y: int,
    pub z: int,
}

/// A vector of three fixed-point scalars.
#[derive(Clone, Copy, Debug, PartialEq, Eq, Structural)]
pub struct Vec3 {
    pub x: i64,
    pub y: i64,
    pub z: i64,
}

/// A location in space.
pub type Point3 = Vec3;

/// An RGB color; a component of `FX_ONE` is full intensity.
pub type Color = Vec3;

impl View for Vec3 {
    type V = V3;

    open spec fn view(&self) -> V3 {
        V3 { x: self.x as int, y: self.y as int, z: self.z as int }
    }
}

/// Every component lies in `[-b, b]`.
pub open spec fn v3_bounded(v: V3, b: int) -> bool {
    &&& -b <= v.x <= b
    &&& -b <= v.y <= b
    &&& -b <= v.z <= b
}

pub open spec fn v3_add(a: V3, b: V3) -> V3 {
    V3 { x: a.x + b.x, y: a.y + b.y, z: a.z + b.z }
}

pub open spec fn v3_sub(a: V3, b: V3) -> V3 {
    V3 { x: a.x - b.x, y: a.y - b.y, z: a.z - b.z }
}

pub open spec fn v3_neg(a: V3) -> V3 {
    V3 { x: -a.x, y: -a.y, z: -a.z }
}

/// The component-wise fixed-point product (used for color attenuation).
pub open spec fn v3_cmul(a: V3, b: V3) -> V3 {
    V3 {
        x: fx_mul_spec(a.x, b.x),
        y: fx_mul_spec(a.y, b.y),
        z: fx_mul_spec(a.z, b.z),
    }
}

/// The vector scaled by a fixed-point scalar.
pub open spec fn v3_scale(a: V3, s: int) -> V3 {
    V3 { x: fx_mul_spec(a.x, s), y: fx_mul_spec(a.y, s), z: fx_mul_spec(a.z, s) }
}

/// The vector divided by a fixed-point scalar.
pub open spec fn v3_div(a: V3, s: int) -> V3 {
    V3 { x: fx_div_spec(a.x, s), y: fx_div_spec(a.y, s), z: fx_div_spec(a.z, s) }
}

/// The fixed-point dot product.
pub open spec fn dot_spec(a: V3, b: V3) -> int {
    fx_mul_spec(a.x, b.x) + fx_mul_spec(a.y, b.y) + fx_mul_spec(a.z, b.z)
}

/// The fixed-point cross product.
pub open spec fn cross_spec(a: V3, b: V3) -> V3 {
    V3 {
        x: fx_mul_spec(a.y, b.z) - fx_mul_spec(a.z, b.y),
        y: fx_mul_spec(a.z, b.x) - fx_mul_spec(a.x, b.z),
        z: fx_mul_spec(a.x, b.y) - fx_mul_spec(a.y, b.x),
    }
}

/// The squared length, `dot(v, v)`.
pub open spec fn len_sq_spec(v: V3) -> int {
    dot_spec(v, v)
}

/// The fixed-point length, the square root of the squared length.
pub open spec fn length_spec(v: V3) -> int {
    fx_sqrt_spec(len_sq_spec(v))
}

/// The vector scaled to (approximately) unit length.
pub open spec fn unit_spec(v: V3) -> V3 {
    v3_div(v, length_spec(v))
}

/// A well-formed color: every channel in `[0, 1]`.
pub open spec fn color_wf(c: V3) -> bool {
    &&& 0 <= c.x <= FX_ONE as int
    &&& 0 <= c.y <= FX_ONE as int
    &&& 0 <= c.z <= FX_ONE as int
}

/// A direction produced by normalizing an admissible vector: what the
/// unit-direction sampler guarantees of every draw. Its length is 1 to
/// within a quarter of a thousandth, and it normalizes some ball point
/// of squared length at least a quarter.
pub open spec fn unit_sample(u: V3) -> bool {
    &&& v3_bounded(u, 2 * (FX_ONE as int))
    &&& (FX_ONE as int) - 16 <= fx_sqrt_spec(len_sq_spec(u)) <= (FX_ONE as int) + 16
    &&& exists|p: V3| v3_bounded(p, FX_ONE as int) && 16384 <= len_sq_spec(p) && u == unit_spec(p)
}

/// A point of the unit disk in the xy-plane: what the lens sampler
/// guarantees of every draw.
pub open spec fn disk_sample(d: V3) -> bool {
    &&& v3_bounded(d, FX_ONE as int)
    &&& d.z == 0
    &&& len_sq_spec(d) < FX_ONE as int
}

/// A squared length is never negative.
pub proof fn lemma_len_sq_nonneg(v: V3)
    ensures
        0 <= len_sq_spec(v),
{
    lemma_fx_square_nonneg(v.x);
    lemma_fx_square_nonneg(v.y);
    lemma_fx_square_nonneg(v.z);
}

/// The dot product of vectors bounded by `ba` and `bb` is bounded by
/// `3 * rb` for any `rb` with `ba * bb <= rb * FX_ONE`.
pub proof fn lemma_dot_bound(a: V3, b: V3, ba: int, bb: int, rb: int)
    requires
        v3_bounded(a, ba),
        v3_bounded(b, bb),
        0 <= ba,
        0 <= bb,
        0 <= rb,
        ba * bb <= rb * (FX_ONE as int),
    ensures
        -(3 * rb) <= dot_spec(a, b) <= 3 * rb,
{
    lemma_fx_mul_spec_bound(a.x, b.x, ba, bb, rb);
    lemma_fx_mul_spec_bound(a.y, b.y, ba, bb, rb);
    lemma_fx_mul_spec_bound(a.z, b.z, ba, bb, rb);
}

/// The cross product of vectors bounded by `ba` and `bb` has components
/// bounded by `2 * rb` for any `rb` with `ba * bb <= rb * FX_ONE`.
pub proof fn lemma_cross_bound(a: V3, b: V3, ba: int, bb: int, rb: int)
    requires
        v3_bounded(a, ba),
        v3_bounded(b, bb),
        0 <= ba,
        0 <= bb,
        0 <= rb,
        ba * bb <= rb * (FX_ONE as int),
    ensures
        v3_bounded(cross_spec(a, b), 2 * rb),
{
    lemma_fx_mul_spec_bound(a.y, b.z, ba, bb, rb);
    lemma_fx_mul_spec_bound(a.z, b.y, ba, bb, rb);
    lemma_fx_mul_spec_bound(a.z, b.x, ba, bb, rb);
    lemma_fx_mul_spec_bound(a.x, b.z, ba, bb, rb);
    lemma_fx_mul_spec_bound(a.x, b.y, ba, bb, rb);
    lemma_fx_mul_spec_bound(a.y, b.x, ba, bb, rb);
}

/// Negating one argument negates the dot product.
pub proof fn lemma_dot_neg_left(a: V3, b: V3)
    ensures
        dot_spec(v3_neg(a), b) == -dot_spec(a, b),
{
    assert((-a.x) * b.x == -(a.x * b.x)) by (nonlinear_arith);
    assert((-a.y) * b.y == -(a.y * b.y)) by (nonlinear_arith);
    assert((-a.z) * b.z == -(a.z * b.z)) by (nonlinear_arith);
}

/// Negation preserves the squared length.
pub proof fn lemma_len_sq_neg(a: V3)
    ensures
        len_sq_spec(v3_neg(a)) == len_sq_spec(a),
{
    assert((-a.x) * (-a.x) == a.x * a.x) by (nonlinear_arith);
    assert((-a.y) * (-a.y) == a.y * a.y) by (nonlinear_arith);
    assert((-a.z) * (-a.z) == a.z * a.z) by (nonlinear_arith);
}

/// Negating the second argument negates the dot product.
pub proof fn lemma_dot_neg_right(a: V3, b: V3)
    ensures
        dot_spec(a, v3_neg(b)) == -dot_spec(a, b),
{
    assert(a.x * (-b.x) == -(a.x * b.x)) by (nonlinear_arith);
    assert(a.y * (-b.y) == -(a.y * b.y)) by (nonlinear_arith);
    assert(a.z * (-b.z) == -(a.z * b.z)) by (nonlinear_arith);
}

impl Vec3 {
    /// A vector from its three fixed-point components.
    pub fn new(x: i64, y: i64, z: i64) -> (r: Self)
        ensures
            r@ == (V3 { x: x as int, y: y as int, z: z as int }),
    {
        Self { x, y, z }
    }

    /// Component-wise sum.
    pub fn add(&self, other: &Vec3) -> (r: Vec3)
        requires
            i64::MIN <= self@.x + other@.x <= i64::MAX,
            i64::MIN <= self@.y + other@.y <= i64::MAX,
            i64::MIN <= self@.z + other@.z <= i64::MAX,
        ensures
            r@ == v3_add(self@, other@),
    {
        Vec3 { x: self.x + other.x, y: self.y + other.y, z: self.z + other.z }
    }

    /// Component-wise difference.
    pub fn sub(&self, other: &Vec3) -> (r: Vec3)
        requires
            i64::MIN <= self@.x - other@.x <= i64::MAX,
            i64::MIN <= self@.y - other@.y <= i64::MAX,
            i64::MIN <= self@.z - other@.z <= i64::MAX,
        ensures
            r@ == v3_sub(self@, other@),
    {
        Vec3 { x: self.x - other.x, y: self.y - other.y, z: self.z - other.z }
    }

    /// Component-wise negation.
    pub fn neg(&self) -> (r: Vec3)
        requires
            -(i64::MAX as int) <= self@.x,
            -(i64::MAX as int) <= self@.y,
            -(i64::MAX as int) <= self@.z,
        ensures
            r@ == v3_neg(self@),
    {
        Vec3 { x: -self.x, y: -self.y, z: -self.z }
    }

    /// Component-wise fixed-point product.
    pub fn mul(&self, other: &Vec3) -> (r: Vec3)
        requires
            v3_bounded(self@, 0x80_0000_0000),
            v3_bounded(other@, 0x80_0000_0000),
        ensures
            r@ == v3_cmul(self@, other@),
    {
        proof {
            lemma_mul_in_range(self@.x, other@.x, 0x80_0000_0000, 0x80_0000_0000);
            lemma_mul_in_range(self@.y, other@.y, 0x80_0000_0000, 0x80_0000_0000);
            lemma_mul_in_range(self@.z, other@.z, 0x80_0000_0000, 0x80_0000_0000);
        }
        Vec3 {
            x: fx_mul(self.x, other.x),
            y: fx_mul(self.y, other.y),
            z: fx_mul(self.z, other.z),
        }
    }

    /// The vector scaled by a fixed-point scalar.
    pub fn mul_s(&self, s: i64) -> (r: Vec3)
        requires
            v3_bounded(self@, 0x80_0000_0000),
            -0x80_0000_0000 <= s <= 0x80_0000_0000,
        ensures
            r@ == v3_scale(self@, s as int),
    {
        proof {
            lemma_mul_in_range(self@.x, s as int, 0x80_0000_0000, 0x80_0000_0000);
            lemma_mul_in_range(self@.y, s as int, 0x80_0000_0000, 0x80_0000_0000);
            lemma_mul_in_range(self@.z, s as int, 0x80_0000_0000, 0x80_0000_0000);
        }
        Vec3 { x: fx_mul(self.x, s), y: fx_mul(self.y, s), z: fx_mul(self.z, s) }
    }

    /// Component-wise fixed-point division by a vector with positive
    /// components.
    pub fn div(&self, other: &Vec3) -> (r: Vec3)
        requires
            other@.x > 0,
            other@.y > 0,
            other@.z > 0,
            v3_bounded(self@, 0x7fff_ffff_ffff),
        ensures
            r@.x == fx_div_spec(self@.x, other@.x),
            r@.y == fx_div_spec(self@.y, other@.y),
            r@.z == fx_div_spec(self@.z, other@.z),
    {
        Vec3 {
            x: fx_div(self.x, other.x),
            y: fx_div(self.y, other.y),
            z: fx_div(self.z, other.z),
        }
    }

    /// The vector divided by a positive fixed-point scalar.
    pub fn div_s(&self, s: i64) -> (r: Vec3)
        requires
            s > 0,
            v3_bounded(self@, 0x7fff_ffff_ffff),
        ensures
            r@ == v3_div(self@, s as int),
    {
        Vec3 { x: fx_div(self.x, s), y: fx_div(self.y, s), z: fx_div(self.z, s) }
    }

    /// The squared length of the vector.
    pub fn length_sqrd(&self) -> (r: i64)
        requires
            v3_bounded(self@, 0x1000_0000),
        ensures
            r == len_sq_spec(self@),
            0 <= r <= 0x300_0000_0000,
    {
        proof {
            lemma_len_sq_nonneg(self@);
        }
        dot(self, self)
    }

    /// The length of the vector.
    pub fn length(&self) -> (r: i64)
        requires
            v3_bounded(self@, 0x1000_0000),
        ensures
            r == length_spec(self@),
            0 <= r < 0x100_0000_0000,
    {
        let ls = self.length_sqrd();
        fx_sqrt(ls)
    }
}

/// The fixed-point dot product of two bounded vectors.
pub fn dot(v1: &Vec3, v2: &Vec3) -> (r: i64)
    requires
        v3_bounded(v1@, 0x1000_0000),
        v3_bounded(v2@, 0x1000_0000),
    ensures
        r == dot_spec(v1@, v2@),
        -0x300_0000_0000 <= r <= 0x300_0000_0000,
{
    proof {
        lemma_mul_in_range(v1@.x, v2@.x, 0x1000_0000, 0x1000_0000);
        lemma_mul_in_range(v1@.y, v2@.y, 0x1000_0000, 0x1000_0000);
        lemma_mul_in_range(v1@.z, v2@.z, 0x1000_0000, 0x1000_0000);
        lemma_fx_mul_spec_bound(v1@.x, v2@.x, 0x1000_0000, 0x1000_0000, 0x100_0000_0000);
        lemma_fx_mul_spec_bound(v1@.y, v2@.y, 0x1000_0000, 0x1000_0000, 0x100_0000_0000);
        lemma_fx_mul_spec_bound(v1@.z, v2@.z, 0x1000_0000, 0x1000_0000, 0x100_0000_0000);
    }
    let a = fx_mul(v1.x, v2.x);
    let b = fx_mul(v1.y, v2.y);
    let c = fx_mul(v1.z, v2.z);
    a + b + c
}

/// The fixed-point cross product of two bounded vectors.
pub fn cross(v1: &Vec3, v2: &Vec3) -> (r: Vec3)
    requires
        v3_bounded(v1@, 0x1000_0000),
        v3_bounded(v2@, 0x1000_0000),
    ensures
        r@ == cross_spec(v1@, v2@),
        v3_bounded(r@, 0x200_0000_0000),
{
    proof {
        lemma_mul_in_range(v1@.y, v2@.z, 0x1000_0000, 0x1000_0000);
        lemma_mul_in_range(v1@.z, v2@.y, 0x1000_0000, 0x1000_0000);
        lemma_mul_in_range(v1@.z, v2@.x, 0x1000_0000, 0x1000_0000);
        lemma_mul_in_range(v1@.x, v2@.z, 0x1000_0000, 0x1000_0000);
        lemma_mul_in_range(v1@.x, v2@.y, 0x1000_0000, 0x1000_0000);
        lemma_mul_in_range(v1@.y, v2@.x, 0x1000_0000, 0x1000_0000);
        lemma_fx_mul_spec_bound(v1@.y, v2@.z, 0x1000_0000, 0x1000_0000, 0x100_0000_0000);
        lemma_fx_mul_spec_bound(v1@.z, v2@.y, 0x1000_0000, 0x1000_0000, 0x100_0000_0000);
        lemma_fx_mul_spec_bound(v1@.z, v2@.x, 0x1000_0000, 0x1000_0000, 0x100_0000_0000);
        lemma_fx_mul_spec_bound(v1@.x, v2@.z, 0x1000_0000, 0x1000_0000, 0x100_0000_0000);
        lemma_fx_mul_spec_bound(v1@.x, v2@.y, 0x1000_0000, 0x1000_0000, 0x100_0000_0000);
        lemma_fx_mul_spec_bound(v1@.y, v2@.x, 0x1000_0000, 0x1000_0000, 0x100_0000_0000);
    }
    Vec3::new(
        fx_mul(v1.y, v2.z) - fx_mul(v1.z, v2.y),
        fx_mul(v1.z, v2.x) - fx_mul(v1.x, v2.z),
        fx_mul(v1.x, v2.y) - fx_mul(v1.y, v2.x),
    )
}

/// One component of a normalized vector: if `x` contributes `fx_mul_spec(x, x)`
/// to the squared length `ls`, and `len` is the integer square root of
/// `ls * FX_ONE`, then `x * FX_ONE / len` is at most 2 in magnitude.
proof fn lemma_unit_comp(x: int, rest: int, ls: int, len: int)
    requires
        fx_mul_spec(x, x) + rest == ls,
        0 <= rest,
        256 <= len,
        ls * 65536 < (len + 1) * (len + 1),
    ensures
        -0x1_8100 <= fx_div_spec(x, len) <= 0x1_8100,
{
    let q = fx_mul_spec(x, x);
    assert(x * x >= 0) by (nonlinear_arith);
    assert(q == (x * x) / 65536);
    lemma_fundamental_div_mod(x * x, 65536);
    assert(x * x <= 65536 * q + 65535);
    assert(65536 * ls < (len + 1) * (len + 1));
    assert(x * x <= (len + 1) * (len + 1) + 65535);
    assert(x * x <= (len + 129) * (len + 129)) by (nonlinear_arith)
        requires
            x * x <= (len + 1) * (len + 1) + 65535,
            len >= 256,
    ;
    assert(-(len + 129) <= x <= len + 129) by (nonlinear_arith)
        requires
            x * x <= (len + 129) * (len + 129),
            len >= 0,
    ;
    assert(-(0x1_8100 * len) <= x * 65536 <= 0x1_8100 * len) by (nonlinear_arith)
        requires
            -(len + 129) <= x <= len + 129,
            len >= 256,
    ;
    lemma_tdiv_bound(x * 65536, len, 0x1_8100int);
}

/// A vector of squared length at least the smallest positive scalar
/// normalizes to components of magnitude at most 2.
pub proof fn lemma_unit_bounded(v: V3)
    requires
        v3_bounded(v, 0x1000_0000),
        1 <= len_sq_spec(v),
    ensures
        v3_bounded(unit_spec(v), 0x1_8100),
        256 <= length_spec(v),
{
    let ls = len_sq_spec(v);
    let n = ls * (FX_ONE as int);
    let len = length_spec(v);
    lemma_isqrt_props(n);
    lemma_isqrt_ordered(65536, n);
    lemma_isqrt_unique(65536, 256);
    assert(len >= 256);
    lemma_fx_square_nonneg(v.x);
    lemma_fx_square_nonneg(v.y);
    lemma_fx_square_nonneg(v.z);
    lemma_unit_comp(v.x, fx_mul_spec(v.y, v.y) + fx_mul_spec(v.z, v.z), ls, len);
    lemma_unit_comp(v.y, fx_mul_spec(v.x, v.x) + fx_mul_spec(v.z, v.z), ls, len);
    lemma_unit_comp(v.z, fx_mul_spec(v.x, v.x) + fx_mul_spec(v.y, v.y), ls, len);
}

/// One component's contribution to the normalization error analysis:
/// `u = tdiv(v, len)` satisfies `u * len = v - e` with `|e| < len`, so
/// `u^2 * len^2` is within `2 * |v| * len + len^2` of `v^2`.
proof fn lemma_unit_comp_err(v: int, len: int, s: int)
    requires
        len >= 1,
        s == 65536,
        -(s * s) <= v <= s * s,
    ensures
        (tdiv(v, len) * tdiv(v, len)) * (len * len) <= v * v + 2 * (s * s) * len + len * len,
        (tdiv(v, len) * tdiv(v, len)) * (len * len) >= v * v - 2 * (s * s) * len,
{
    let u = tdiv(v, len);
    lemma_tdiv_remainder(v, len);
    let e = v - u * len;
    assert((u * u) * (len * len) == (v - e) * (v - e)) by (nonlinear_arith)
        requires
            u * len == v - e,
    ;
    assert((v - e) * (v - e) <= v * v + 2 * (s * s) * len + len * len) by (nonlinear_arith)
        requires
            -(len - 1) <= e <= len - 1,
            -(s * s) <= v <= s * s,
            len >= 1,
    ;
    assert((v - e) * (v - e) >= v * v - 2 * (s * s) * len) by (nonlinear_arith)
        requires
            -(len - 1) <= e <= len - 1,
            -(s * s) <= v <= s * s,
            len >= 1,
    ;
}

/// Normalizing a ball point of squared length at least a quarter gives a
/// vector whose fixed-point length is 1 to within `16 / FX_ONE`.
pub proof fn lemma_unit_length_band(p: V3)
    requires
        v3_bounded(p, FX_ONE as int),
        16384 <= len_sq_spec(p),
    ensures
        (FX_ONE as int) - 16 <= fx_sqrt_spec(len_sq_spec(unit_spec(p))) <= (FX_ONE as int) + 16,
{
    let s = FX_ONE as int;
    let ls = len_sq_spec(p);
    let n = ls * s;
    let len = length_spec(p);
    lemma_isqrt_props(n);
    lemma_isqrt_ordered(0x4000_0000int, n);
    lemma_isqrt_unique(0x4000_0000int, 32768int);
    assert(32768 <= len);

    // The true squared length of p brackets the computed one.
    let pp = p.x * p.x + p.y * p.y + p.z * p.z;
    assert(p.x * p.x >= 0 && p.y * p.y >= 0 && p.z * p.z >= 0) by (nonlinear_arith);
    lemma_tdiv_remainder(p.x * p.x, s);
    lemma_tdiv_remainder(p.y * p.y, s);
    lemma_tdiv_remainder(p.z * p.z, s);
    assert(s * ls <= pp <= s * ls + 3 * s) by {
        assert(fx_mul_spec(p.x, p.x) * s == s * fx_mul_spec(p.x, p.x)) by (nonlinear_arith);
        assert(fx_mul_spec(p.y, p.y) * s == s * fx_mul_spec(p.y, p.y)) by (nonlinear_arith);
        assert(fx_mul_spec(p.z, p.z) * s == s * fx_mul_spec(p.z, p.z)) by (nonlinear_arith);
    }
    assert(len * len <= n && n <= len * len + 2 * len) by (nonlinear_arith)
        requires
            len * len <= n < (len + 1) * (len + 1),
    ;
    assert(pp <= len * len + 2 * len + 3 * s);
    assert(pp >= len * len);

    // The scaled components v_i = p_i * s feed the per-component errors.
    let vx = p.x * s;
    let vy = p.y * s;
    let vz = p.z * s;
    assert(-(s * s) <= vx <= s * s && -(s * s) <= vy <= s * s && -(s * s) <= vz <= s * s)
        by (nonlinear_arith)
        requires
            -s <= p.x <= s && -s <= p.y <= s && -s <= p.z <= s && s == 65536 && vx == p.x * s && vy
                == p.y * s && vz == p.z * s,
    ;
    lemma_unit_comp_err(vx, len, s);
    lemma_unit_comp_err(vy, len, s);
    lemma_unit_comp_err(vz, len, s);
    let ux = tdiv(vx, len);
    let uy = tdiv(vy, len);
    let uz = tdiv(vz, len);
    let qq = ux * ux + uy * uy + uz * uz;
    assert(vx * vx == (s * s) * (p.x * p.x)) by (nonlinear_arith)
        requires
            vx == p.x * s,
    ;
    assert(vy * vy == (s * s) * (p.y * p.y)) by (nonlinear_arith)
        requires
            vy == p.y * s,
    ;
    assert(vz * vz == (s * s) * (p.z * p.z)) by (nonlinear_arith)
        requires
            vz == p.z * s,
    ;
    assert((s * s) * pp == (s * s) * (p.x * p.x) + (s * s) * (p.y * p.y) + (s * s) * (p.z * p.z))
        by (nonlinear_arith)
        requires
            pp == p.x * p.x + p.y * p.y + p.z * p.z,
    ;
    assert(qq * (len * len) == (ux * ux) * (len * len) + (uy * uy) * (len * len) + (uz * uz) * (len
        * len)) by (nonlinear_arith)
        requires
            qq == ux * ux + uy * uy + uz * uz,
    ;
    assert(qq * (len * len) <= (s * s) * pp + 6 * (s * s) * len + 3 * (len * len));
    assert(qq * (len * len) >= (s * s) * pp - 6 * (s * s) * len);

    // Plug in the bracket on pp and absorb the error terms.
    assert((s * s) * pp <= (s * s) * (len * len + 2 * len + 3 * s)) by (nonlinear_arith)
        requires
            pp <= len * len + 2 * len + 3 * s,
            s == 65536,
    ;
    assert((s * s) * pp >= (s * s) * (len * len)) by (nonlinear_arith)
        requires
            pp >= len * len,
            s == 65536,
    ;
    assert((s * s) * (len * len + 2 * len + 3 * s) + 6 * (s * s) * len + 3 * (len * len) <= (s * s
        + 29 * s) * (len * len)) by (nonlinear_arith)
        requires
            len >= 32768,
            s == 65536,
    ;
    assert((s * s) * (len * len) - 6 * (s * s) * len >= (s * s - 12 * s) * (len * len))
        by (nonlinear_arith)
        requires
            len >= 32768,
            s == 65536,
    ;
    assert(qq <= s * s + 29 * s) by (nonlinear_arith)
        requires
            qq * (len * len) <= (s * s + 29 * s) * (len * len),
            len >= 1,
    ;
    assert(qq >= s * s - 12 * s) by (nonlinear_arith)
        requires
            qq * (len * len) >= (s * s - 12 * s) * (len * len),
            len >= 1,
    ;

    // The computed squared length of the normalized vector brackets qq.
    let u = unit_spec(p);
    assert(u.x == ux && u.y == uy && u.z == uz);
    let lsu = len_sq_spec(u);
    lemma_tdiv_remainder(ux * ux, s);
    lemma_tdiv_remainder(uy * uy, s);
    lemma_tdiv_remainder(uz * uz, s);
    assert(ux * ux >= 0 && uy * uy >= 0 && uz * uz >= 0) by (nonlinear_arith);
    assert(s * lsu <= qq <= s * lsu + 3 * s) by {
        assert(fx_mul_spec(ux, ux) * s == s * fx_mul_spec(ux, ux)) by (nonlinear_arith);
        assert(fx_mul_spec(uy, uy) * s == s * fx_mul_spec(uy, uy)) by (nonlinear_arith);
        assert(fx_mul_spec(uz, uz) * s == s * fx_mul_spec(uz, uz)) by (nonlinear_arith);
    }
    assert(lsu <= s + 29);
    assert(lsu >= s - 15);

    // Translate the bracket through the square root.
    let m = lsu * s;
    lemma_isqrt_props(m);
    let r = isqrt_spec(m);
    assert(m <= (s + 29) * s && m >= (s - 15) * s) by (nonlinear_arith)
        requires
            s - 15 <= lsu <= s + 29,
            s == 65536,
            m == lsu * s,
    ;
    assert((s + 29) * s < (s + 15) * (s + 15)) by (nonlinear_arith)
        requires
            s == 65536,
    ;
    assert((s - 15) * s >= (s - 16) * (s - 16)) by (nonlinear_arith)
        requires
            s == 65536,
    ;
    assert(r < s + 15) by (nonlinear_arith)
        requires
            r * r <= m,
            m < (s + 15) * (s + 15),
            r >= 0,
            s == 65536,
    ;
    assert(r >= s - 16) by (nonlinear_arith)
        requires
            m < (r + 1) * (r + 1),
            m >= (s - 16) * (s - 16),
            r >= 0,
            s == 65536,
    ;
}

/// The vector scaled to unit length. The result's components are
/// near-unit fixed-point scalars, bounded by 2 in magnitude.
pub fn unit_vector(v: Vec3) -> (r: Vec3)
    requires
        v3_bounded(v@, 0x1000_0000),
        1 <= len_sq_spec(v@),
    ensures
        r@ == unit_spec(v@),
        v3_bounded(r@, 0x1_8100),
{
    proof {
        lemma_unit_bounded(v@);
    }
    let len = v.length();
    v.div_s(len)
}

/// The mirror reflection of `v` about the normal `n`:
/// `v - 2 * dot(v, n) * n`.
pub open spec fn reflect_spec(v: V3, n: V3) -> V3 {
    v3_sub(v, v3_scale(n, 2 * dot_spec(v, n)))
}

/// Reflect `v` about the normal `n`.
pub fn reflect(v: &Vec3, n: &Vec3) -> (r: Vec3)
    requires
        v3_bounded(v@, 0x4_0000),
        v3_bounded(n@, 0x4_0000),
    ensures
        r@ == reflect_spec(v@, n@),
        v3_bounded(r@, 0x200_0000),
{
    proof {
        lemma_dot_bound(v@, n@, 0x4_0000, 0x4_0000, 0x10_0000);
        let k = 2 * dot_spec(v@, n@);
        lemma_fx_mul_spec_bound(n@.x, k, 0x4_0000, 0x60_0000, 0x180_0000);
        lemma_fx_mul_spec_bound(n@.y, k, 0x4_0000, 0x60_0000, 0x180_0000);
        lemma_fx_mul_spec_bound(n@.z, k, 0x4_0000, 0x60_0000, 0x180_0000);
    }
    let d = dot(v, n);
    let k = 2 * d;
    let scaled = n.mul_s(k);
    v.sub(&scaled)
}

/// Snell refraction of the unit direction `uv` at the normal `n` with
/// relative refractive index `eta`, split into components parallel and
/// perpendicular to the surface. A negative radicand (possible only
/// through rounding near total internal reflection) is clamped to zero.
pub open spec fn refract_spec(uv: V3, n: V3, eta: int) -> V3 {
    let cos_theta = dot_spec(v3_neg(uv), n);
    let r_par = v3_scale(v3_add(uv, v3_scale(n, cos_theta)), eta);
    let k = if (FX_ONE as int) - len_sq_spec(r_par) >= 0 {
        (FX_ONE as int) - len_sq_spec(r_par)
    } else {
        0
    };
    v3_add(r_par, v3_scale(n, -fx_sqrt_spec(k)))
}

/// Refract `uv` at the normal `n` with relative index `eta`.
pub fn refract(uv: &Vec3, n: &Vec3, eta: i64) -> (r: Vec3)
    requires
        v3_bounded(uv@, 0x2_0000),
        v3_bounded(n@, 0x4_0000),
        0 < eta <= 0x8_0000,
    ensures
        r@ == refract_spec(uv@, n@, eta as int),
        v3_bounded(r@, 0x1000_0000),
{
    proof {
        lemma_dot_bound(v3_neg(uv@), n@, 0x2_0000, 0x4_0000, 0x8_0000);
    }
    let nuv = uv.neg();
    let cos_theta = dot(&nuv, n);
    proof {
        lemma_fx_mul_spec_bound(n@.x, cos_theta as int, 0x4_0000, 0x18_0000, 0x60_0000);
        lemma_fx_mul_spec_bound(n@.y, cos_theta as int, 0x4_0000, 0x18_0000, 0x60_0000);
        lemma_fx_mul_spec_bound(n@.z, cos_theta as int, 0x4_0000, 0x18_0000, 0x60_0000);
    }
    let sn = n.mul_s(cos_theta);
    let sum = uv.add(&sn);
    proof {
        lemma_fx_mul_spec_bound(sum@.x, eta as int, 0x62_0000, 0x8_0000, 0x620_0000);
        lemma_fx_mul_spec_bound(sum@.y, eta as int, 0x62_0000, 0x8_0000, 0x620_0000);
        lemma_fx_mul_spec_bound(sum@.z, eta as int, 0x62_0000, 0x8_0000, 0x620_0000);
    }
    let r_par = sum.mul_s(eta);
    let ls_par = r_par.length_sqrd();
    let k: i64 = if FX_ONE - ls_par >= 0 {
        FX_ONE - ls_par
    } else {
        0
    };
    let s = fx_sqrt(k);
    proof {
        lemma_isqrt_ordered((k as int) * (FX_ONE as int), (65536 * 65536) as int);
        lemma_isqrt_unique((65536 * 65536) as int, 65536int);
        assert(s <= 65536);
        lemma_fx_mul_spec_bound(n@.x, -(s as int), 0x4_0000, 0x1_0000, 0x4_0000);
        lemma_fx_mul_spec_bound(n@.y, -(s as int), 0x4_0000, 0x1_0000, 0x4_0000);
        lemma_fx_mul_spec_bound(n@.z, -(s as int), 0x4_0000, 0x1_0000, 0x4_0000);
    }
    let r_perp = n.mul_s(-s);
    r_par.add(&r_perp)
}

impl Vec3 {
    /// A vector with three independent uniform components in `[0, 1)`.
    pub fn random(rng: &mut rand::rngs::ThreadRng) -> (r: Vec3)
        ensures
            0 <= r@.x < FX_ONE as int,
            0 <= r@.y < FX_ONE as int,
            0 <= r@.z < FX_ONE as int,
    {
        let x = random_fx(rng);
        let y = random_fx(rng);
        let z = random_fx(rng);
        Vec3::new(x, y, z)
    }

    /// A vector with three independent uniform components in `[min, max)`.
    pub fn random_bounded(rng: &mut rand::rngs::ThreadRng, min: i64, max: i64) -> (r: Vec3)
        requires
            min < max,
        ensures
            min <= r@.x < max,
            min <= r@.y < max,
            min <= r@.z < max,
    {
        let x = random_fx_bounded(rng, min, max);
        let y = random_fx_bounded(rng, min, max);
        let z = random_fx_bounded(rng, min, max);
        Vec3::new(x, y, z)
    }
}

/// A point strictly inside the unit sphere, by rejection sampling over
/// the enclosing cube (with a deterministic center fallback after many
/// rejections, so that the function provably returns).
pub fn random_in_unit_sphere(rng: &mut rand::rngs::ThreadRng) -> (r: Vec3)
    ensures
        v3_bounded(r@, FX_ONE as int),
        len_sq_spec(r@) < FX_ONE as int,
{
    let mut attempts: u32 = 0;
    while attempts < 64
        invariant
            attempts <= 64,
        decreases 64 - attempts,
    {
        let p = Vec3::random_bounded(rng, -FX_ONE, FX_ONE);
        if p.length_sqrd() < FX_ONE {
            return p;
        }
        attempts = attempts + 1;
    }
    let origin = Vec3::new(0, 0, 0);
    proof {
        assert(len_sq_spec(origin@) == 0);
    }
    origin
}

/// A near-unit direction: a point of the unit ball pushed out to the
/// sphere's surface by normalization (the fallback after many degenerate
/// draws is a fixed axis direction, itself a unit vector).
pub fn random_unit_vector(rng: &mut rand::rngs::ThreadRng) -> (r: Vec3)
    ensures
        unit_sample(r@),
{
    let mut attempts: u32 = 0;
    while attempts < 64
        invariant
            attempts <= 64,
        decreases 64 - attempts,
    {
        let q = random_in_unit_sphere(rng);
        if q.length_sqrd() >= 16384 {
            let u = unit_vector(q);
            proof {
                lemma_unit_length_band(q@);
                assert(v3_bounded(q@, FX_ONE as int) && 16384 <= len_sq_spec(q@) && u@
                    == unit_spec(q@));
            }
            return u;
        }
        attempts = attempts + 1;
    }
    let axis = Vec3::new(0, 0, FX_ONE);
    proof {
        assert(fx_mul_spec(65536, 65536) == 65536);
        assert(len_sq_spec(axis@) == 65536);
        lemma_isqrt_unique((65536 * 65536) as int, 65536int);
        assert(length_spec(axis@) == 65536);
        assert(fx_sqrt_spec(len_sq_spec(axis@)) == 65536);
        assert(fx_div_spec(0, 65536) == 0);
        assert(fx_div_spec(65536, 65536) == 65536);
        assert(axis@ == unit_spec(axis@));
        assert(v3_bounded(axis@, FX_ONE as int) && 16384 <= len_sq_spec(axis@) && axis@
            == unit_spec(axis@));
    }
    axis
}

/// A point of the unit ball on the same side of the surface as `normal`:
/// the returned vector never has a negative dot product with `normal`.
pub fn random_in_hemisphere(rng: &mut rand::rngs::ThreadRng, normal: &Vec3) -> (r: Vec3)
    requires
        v3_bounded(normal@, 0x1000_0000),
    ensures
        v3_bounded(r@, FX_ONE as int),
        len_sq_spec(r@) < FX_ONE as int,
        dot_spec(r@, normal@) >= 0,
{
    let in_unit_sphere = random_in_unit_sphere(rng);
    let d = dot(&in_unit_sphere, normal);
    if d > 0 {
        in_unit_sphere
    } else {
        proof {
            lemma_dot_neg_left(in_unit_sphere@, normal@);
            lemma_len_sq_neg(in_unit_sphere@);
        }
        in_unit_sphere.neg()
    }
}

/// A point strictly inside the unit disk of the xy-plane, by rejection
/// sampling (with a deterministic center fallback after many rejections).
pub fn random_in_unit_disk(rng: &mut rand::rngs::ThreadRng) -> (r: Vec3)
    ensures
        disk_sample(r@),
{
    let mut attempts: u32 = 0;
    while attempts < 64
        invariant
            attempts <= 64,
        decreases 64 - attempts,
    {
        let x = random_fx_bounded(rng, -FX_ONE, FX_ONE);
        let y = random_fx_bounded(rng, -FX_ONE, FX_ONE);
        let p = Vec3::new(x, y, 0);
        if p.length_sqrd() < FX_ONE {
            return p;
        }
        attempts = attempts + 1;
    }
    let origin = Vec3::new(0, 0, 0);
    proof {
        assert(len_sq_spec(origin@) == 0);
    }
    origin
}

} // verus!
