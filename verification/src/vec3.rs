//! Three-component fixed-point vectors, used as points, directions and colors.

use crate::fx::{
    clamp_box, fx_mul, fx_sqrt, fxd, fxm, fxsqrt, isqrt, lemma_fxm_bound, lemma_fxm_neg,
    lemma_fxm_one, lemma_fxm_square_nonneg, lemma_isqrt_bounds, lemma_isqrt_monotone,
    lemma_isqrt_unique, lemma_tdiv_bounds, sadd, sat_add, sat_neg, sat_sub, sclamp, sneg, ssub,
    tdiv, FX_ONE,
};
use crate::rng::rand_unit;
use vstd::prelude::*;

verus! {

/// A vector of three fixed-point scalars (each an `i64` scaled by `FX_ONE`).
#[derive(Clone, Copy, Debug, PartialEq, Eq, Structural)]
pub struct Vec3(pub i64, pub i64, pub i64);

/// A point in space; the same representation as a vector.
pub type Point3 = Vec3;

/// Build a point from its three coordinates.
#[allow(non_snake_case)]
pub fn Point3(x: i64, y: i64, z: i64) -> (r: Point3)
    ensures
        r == Vec3(x, y, z),
{
    Vec3(x, y, z)
}

/// All three components lie in `[-m, m]`.
pub open spec fn v_in_box(v: Vec3, m: int) -> bool {
    &&& -m <= v.0 <= m
    &&& -m <= v.1 <= m
    &&& -m <= v.2 <= m
}

/// The exact componentwise saturating sum.
pub open spec fn v_add(a: Vec3, b: Vec3) -> Vec3 {
    Vec3(
        sadd(a.0 as int, b.0 as int) as i64,
        sadd(a.1 as int, b.1 as int) as i64,
        sadd(a.2 as int, b.2 as int) as i64,
    )
}

/// The exact componentwise saturating difference.
pub open spec fn v_sub(a: Vec3, b: Vec3) -> Vec3 {
    Vec3(
        ssub(a.0 as int, b.0 as int) as i64,
        ssub(a.1 as int, b.1 as int) as i64,
        ssub(a.2 as int, b.2 as int) as i64,
    )
}

/// The exact componentwise saturating negation.
pub open spec fn v_neg(a: Vec3) -> Vec3 {
    Vec3(sneg(a.0 as int) as i64, sneg(a.1 as int) as i64, sneg(a.2 as int) as i64)
}

/// The exact componentwise fixed-point scaling by `k`.
pub open spec fn v_scale(a: Vec3, k: int) -> Vec3 {
    Vec3(fxm(a.0 as int, k) as i64, fxm(a.1 as int, k) as i64, fxm(a.2 as int, k) as i64)
}

/// The exact componentwise fixed-point division by a positive `k`.
pub open spec fn v_div(a: Vec3, k: int) -> Vec3 {
    Vec3(fxd(a.0 as int, k) as i64, fxd(a.1 as int, k) as i64, fxd(a.2 as int, k) as i64)
}

/// The exact componentwise fixed-point product of two vectors (used for
/// color attenuation).
pub open spec fn v_mul_elem(a: Vec3, b: Vec3) -> Vec3 {
    Vec3(
        fxm(a.0 as int, b.0 as int) as i64,
        fxm(a.1 as int, b.1 as int) as i64,
        fxm(a.2 as int, b.2 as int) as i64,
    )
}

/// The exact fixed-point dot product (a saturating sum of three fixed-point
/// products).
pub open spec fn v_dot(a: Vec3, b: Vec3) -> int {
    sadd(sadd(fxm(a.0 as int, b.0 as int), fxm(a.1 as int, b.1 as int)), fxm(a.2 as int, b.2 as int))
}

/// The exact fixed-point cross product.
pub open spec fn v_cross(a: Vec3, b: Vec3) -> Vec3 {
    Vec3(
        ssub(fxm(a.1 as int, b.2 as int), fxm(a.2 as int, b.1 as int)) as i64,
        ssub(fxm(a.2 as int, b.0 as int), fxm(a.0 as int, b.2 as int)) as i64,
        ssub(fxm(a.0 as int, b.1 as int), fxm(a.1 as int, b.0 as int)) as i64,
    )
}

/// The exact squared length.
pub open spec fn v_len_sq(a: Vec3) -> int {
    v_dot(a, a)
}

/// The exact fixed-point length.
pub open spec fn v_len(a: Vec3) -> int {
    fxsqrt(v_len_sq(a))
}

/// The exact normalization: a vector of length close to one, or the `z` unit
/// vector when the input is too short to normalize (a numerical-degeneracy
/// fallback; such an input has length below one fixed-point step).
pub open spec fn v_unit(a: Vec3) -> Vec3 {
    if v_len_sq(a) < 1 {
        Vec3(0, 0, FX_ONE)
    } else {
        v_div(a, v_len(a))
    }
}

/// A squared length is never negative.
pub proof fn lemma_len_sq_nonneg(a: Vec3)
    ensures
        v_len_sq(a) >= 0,
{
    lemma_fxm_square_nonneg(a.0 as int);
    lemma_fxm_square_nonneg(a.1 as int);
    lemma_fxm_square_nonneg(a.2 as int);
}

/// Componentwise bound for the dot product of two boxed vectors, with the
/// saturating sums shown to be exact.
pub proof fn lemma_dot_bound(a: Vec3, b: Vec3, aa: int, bb: int)
    requires
        v_in_box(a, aa),
        v_in_box(b, bb),
        0 <= aa,
        0 <= bb,
        aa * bb <= 0x1000_0000_0000_0000_0000,
    ensures
        v_dot(a, b) == tdiv(a.0 as int * b.0 as int, FX_ONE as int) + tdiv(
            a.1 as int * b.1 as int,
            FX_ONE as int,
        ) + tdiv(a.2 as int * b.2 as int, FX_ONE as int),
        -3 * tdiv(aa * bb, FX_ONE as int) <= v_dot(a, b) <= 3 * tdiv(aa * bb, FX_ONE as int),
{
    lemma_fxm_bound(a.0 as int, b.0 as int, aa, bb);
    lemma_fxm_bound(a.1 as int, b.1 as int, aa, bb);
    lemma_fxm_bound(a.2 as int, b.2 as int, aa, bb);
    vstd::arithmetic::div_mod::lemma_div_is_ordered(
        aa * bb,
        0x1000_0000_0000_0000_0000,
        FX_ONE as int,
    );
}

/// Negating the second operand negates the dot product of boxed vectors.
pub proof fn lemma_dot_neg_right(a: Vec3, b: Vec3, aa: int, bb: int)
    requires
        v_in_box(a, aa),
        v_in_box(b, bb),
        0 <= aa <= i64::MAX as int,
        0 <= bb <= i64::MAX as int,
        aa * bb <= 0x1000_0000_0000_0000_0000,
    ensures
        v_dot(a, v_neg(b)) == -v_dot(a, b),
{
    lemma_dot_bound(a, b, aa, bb);
    lemma_dot_bound(a, v_neg(b), aa, bb);
    assert(a.0 as int * (v_neg(b).0 as int) == -(a.0 as int * b.0 as int)) by (nonlinear_arith)
        requires
            v_neg(b).0 as int == -(b.0 as int),
    ;
    assert(a.1 as int * (v_neg(b).1 as int) == -(a.1 as int * b.1 as int)) by (nonlinear_arith)
        requires
            v_neg(b).1 as int == -(b.1 as int),
    ;
    assert(a.2 as int * (v_neg(b).2 as int) == -(a.2 as int * b.2 as int)) by (nonlinear_arith)
        requires
            v_neg(b).2 as int == -(b.2 as int),
    ;
}

impl Vec3 {
    /// The first component.
    pub fn x(&self) -> (r: i64)
        ensures
            r == self.0,
    {
        self.0
    }

    /// The second component.
    pub fn y(&self) -> (r: i64)
        ensures
            r == self.1,
    {
        self.1
    }

    /// The third component.
    pub fn z(&self) -> (r: i64)
        ensures
            r == self.2,
    {
        self.2
    }

    /// Componentwise saturating sum.
    pub fn add(self, rhs: Vec3) -> (r: Vec3)
        ensures
            r == v_add(self, rhs),
    {
        Vec3(sat_add(self.0, rhs.0), sat_add(self.1, rhs.1), sat_add(self.2, rhs.2))
    }

    /// Componentwise saturating sum, in place.
    pub fn add_assign(&mut self, rhs: Vec3)
        ensures
            *final(self) == v_add(*old(self), rhs),
    {
        *self = self.add(rhs);
    }

    /// Componentwise saturating difference.
    pub fn sub(self, rhs: Vec3) -> (r: Vec3)
        ensures
            r == v_sub(self, rhs),
    {
        Vec3(sat_sub(self.0, rhs.0), sat_sub(self.1, rhs.1), sat_sub(self.2, rhs.2))
    }

    /// Componentwise saturating difference, in place.
    pub fn sub_assign(&mut self, rhs: Vec3)
        ensures
            *final(self) == v_sub(*old(self), rhs),
    {
        *self = self.sub(rhs);
    }

    /// Componentwise saturating negation.
    pub fn neg(self) -> (r: Vec3)
        ensures
            r == v_neg(self),
    {
        Vec3(sat_neg(self.0), sat_neg(self.1), sat_neg(self.2))
    }

    /// Scale by a fixed-point factor.
    pub fn mul(self, k: i64) -> (r: Vec3)
        ensures
            r == v_scale(self, k as int),
    {
        Vec3(fx_mul(self.0, k), fx_mul(self.1, k), fx_mul(self.2, k))
    }

    /// Divide by a positive fixed-point factor.
    pub fn div(self, k: i64) -> (r: Vec3)
        requires
            k >= 1,
        ensures
            r == v_div(self, k as int),
    {
        Vec3(
            crate::fx::fx_div(self.0, k),
            crate::fx::fx_div(self.1, k),
            crate::fx::fx_div(self.2, k),
        )
    }

    /// Componentwise fixed-point product (color attenuation).
    pub fn mul_elem(self, rhs: Vec3) -> (r: Vec3)
        ensures
            r == v_mul_elem(self, rhs),
    {
        Vec3(fx_mul(self.0, rhs.0), fx_mul(self.1, rhs.1), fx_mul(self.2, rhs.2))
    }

    /// The fixed-point length.
    pub fn length(&self) -> (r: i64)
        ensures
            r as int == v_len(*self),
            r >= 0,
    {
        proof {
            lemma_len_sq_nonneg(*self);
        }
        fx_sqrt(self.length_squared())
    }

    /// The fixed-point squared length.
    pub fn length_squared(&self) -> (r: i64)
        ensures
            r as int == v_len_sq(*self),
            r >= 0,
    {
        proof {
            lemma_len_sq_nonneg(*self);
        }
        dot(self, self)
    }

    /// True when every component is below one fixed-point step in magnitude
    /// (for integer scalars: the zero vector).
    pub fn near_zero(&self) -> (r: bool)
        ensures
            r == (self.0 == 0 && self.1 == 0 && self.2 == 0),
    {
        self.0 == 0 && self.1 == 0 && self.2 == 0
    }

    /// A vector with each component drawn uniformly from the given closed
    /// fixed-point interval, or from `[0, 1)` when no interval is given.
    pub fn random(interval: Option<(i64, i64)>) -> (r: Vec3)
        ensures
            match interval {
                Some((lo, hi)) => (lo <= hi && -0x100_0000_0000 <= lo && hi <= 0x100_0000_0000)
                    ==> (lo <= r.0 <= hi && lo <= r.1 <= hi && lo <= r.2 <= hi),
                None => 0 <= r.0 < FX_ONE && 0 <= r.1 < FX_ONE && 0 <= r.2 < FX_ONE,
            },
    {
        match interval {
            Some((lo, hi)) => {
                let w: i64 = sat_sub(hi, lo);
                let a: i64 = sat_add(lo, fx_mul(w, rand_unit()));
                let b: i64 = sat_add(lo, fx_mul(w, rand_unit()));
                let c: i64 = sat_add(lo, fx_mul(w, rand_unit()));
                proof {
                    if lo <= hi && -0x100_0000_0000 <= lo && hi <= 0x100_0000_0000 {
                        lemma_rand_component(lo as int, hi as int);
                    }
                }
                Vec3(a, b, c)
            },
            None => Vec3(rand_unit(), rand_unit(), rand_unit()),
        }
    }
}

/// A uniform draw scaled into `[lo, hi]` stays in `[lo, hi]` when the width
/// of the interval is moderate.
proof fn lemma_rand_component(lo: int, hi: int)
    requires
        lo <= hi,
        -0x100_0000_0000 <= lo,
        hi <= 0x100_0000_0000,
    ensures
        forall|u: int|
            0 <= u < FX_ONE as int ==> lo <= sadd(lo, #[trigger] fxm(ssub(hi, lo), u)) <= hi,
{
    let w = hi - lo;
    assert forall|u: int| 0 <= u < FX_ONE as int implies lo <= sadd(
        lo,
        #[trigger] fxm(ssub(hi, lo), u),
    ) <= hi by {
        lemma_fxm_bound(w, u, w, FX_ONE as int - 1);
        assert(0 <= w * u <= w * FX_ONE as int) by (nonlinear_arith)
            requires
                0 <= w,
                0 <= u <= FX_ONE as int,
        ;
        vstd::arithmetic::div_mod::lemma_div_pos_is_pos(w * u, FX_ONE as int);
        vstd::arithmetic::div_mod::lemma_div_is_ordered(w * u, w * FX_ONE as int, FX_ONE as int);
        vstd::arithmetic::div_mod::lemma_div_by_multiple(w, FX_ONE as int);
        assert(tdiv(w * u, FX_ONE as int) == w * u / FX_ONE as int);
        assert(0 <= fxm(w, u) <= w);
        assert(ssub(hi, lo) == w);
        assert(fxm(ssub(hi, lo), u) == fxm(w, u));
        assert(lo + fxm(w, u) <= hi);
        assert(sadd(lo, fxm(w, u)) == lo + fxm(w, u));
    }
}

/// The fixed-point dot product of two vectors.
pub fn dot(u: &Vec3, v: &Vec3) -> (r: i64)
    ensures
        r as int == v_dot(*u, *v),
{
    sat_add(sat_add(fx_mul(u.0, v.0), fx_mul(u.1, v.1)), fx_mul(u.2, v.2))
}

/// The fixed-point cross product of two vectors.
pub fn cross(u: &Vec3, v: &Vec3) -> (r: Vec3)
    ensures
        r == v_cross(*u, *v),
{
    Vec3(
        sat_sub(fx_mul(u.1, v.2), fx_mul(u.2, v.1)),
        sat_sub(fx_mul(u.2, v.0), fx_mul(u.0, v.2)),
        sat_sub(fx_mul(u.0, v.1), fx_mul(u.1, v.0)),
    )
}

/// The mirror reflection of `v` about the normal `n`.
pub open spec fn reflect_spec(v: Vec3, n: Vec3) -> Vec3 {
    v_sub(v, v_scale(n, sadd(v_dot(v, n), v_dot(v, n))))
}

/// The refracted direction of the unit vector `uv` at a surface with normal
/// `n` and relative refractive index `ri`.
pub open spec fn refract_spec(uv: Vec3, n: Vec3, ri: int) -> Vec3 {
    let cos = v_dot(v_neg(uv), n);
    let perp = v_scale(v_add(uv, v_scale(n, cos)), ri);
    let k = ssub(FX_ONE as int, v_len_sq(perp));
    let kabs = if k < 0 {
        sneg(k)
    } else {
        k
    };
    let par = v_scale(n, sneg(fxsqrt(kabs)));
    v_add(perp, par)
}

/// Negating the first operand negates the dot product of boxed vectors.
pub proof fn lemma_dot_neg_left(a: Vec3, b: Vec3, aa: int, bb: int)
    requires
        v_in_box(a, aa),
        v_in_box(b, bb),
        0 <= aa <= i64::MAX as int,
        0 <= bb <= i64::MAX as int,
        aa * bb <= 0x1000_0000_0000_0000_0000,
    ensures
        v_dot(v_neg(a), b) == -v_dot(a, b),
{
    lemma_dot_bound(a, b, aa, bb);
    lemma_dot_bound(v_neg(a), b, aa, bb);
    assert((v_neg(a).0 as int) * (b.0 as int) == -(a.0 as int * b.0 as int)) by (nonlinear_arith)
        requires
            v_neg(a).0 as int == -(a.0 as int),
    ;
    assert((v_neg(a).1 as int) * (b.1 as int) == -(a.1 as int * b.1 as int)) by (nonlinear_arith)
        requires
            v_neg(a).1 as int == -(a.1 as int),
    ;
    assert((v_neg(a).2 as int) * (b.2 as int) == -(a.2 as int * b.2 as int)) by (nonlinear_arith)
        requires
            v_neg(a).2 as int == -(a.2 as int),
    ;
}

/// Normalizing a moderately boxed vector of length at least one fixed-point
/// step yields components no larger than two.
pub proof fn lemma_unit_bound(v: Vec3)
    requires
        v_in_box(v, 0x10_0000_0000),
        v_len_sq(v) >= 1,
    ensures
        v_in_box(v_unit(v), 2 * FX_ONE as int),
{
    let s = FX_ONE as int;
    let q = v_len_sq(v);
    lemma_dot_bound(v, v, 0x10_0000_0000, 0x10_0000_0000);
    let t0 = tdiv(v.0 as int * v.0 as int, s);
    let t1 = tdiv(v.1 as int * v.1 as int, s);
    let t2 = tdiv(v.2 as int * v.2 as int, s);
    assert(v.0 as int * v.0 as int >= 0 && v.1 as int * v.1 as int >= 0 && v.2 as int * v.2 as int
        >= 0) by (nonlinear_arith);
    vstd::arithmetic::div_mod::lemma_div_pos_is_pos(v.0 as int * v.0 as int, s);
    vstd::arithmetic::div_mod::lemma_div_pos_is_pos(v.1 as int * v.1 as int, s);
    vstd::arithmetic::div_mod::lemma_div_pos_is_pos(v.2 as int * v.2 as int, s);
    vstd::arithmetic::div_mod::lemma_fundamental_div_mod(v.0 as int * v.0 as int, s);
    vstd::arithmetic::div_mod::lemma_fundamental_div_mod(v.1 as int * v.1 as int, s);
    vstd::arithmetic::div_mod::lemma_fundamental_div_mod(v.2 as int * v.2 as int, s);
    vstd::arithmetic::div_mod::lemma_mod_division_less_than_divisor(v.0 as int * v.0 as int, s);
    vstd::arithmetic::div_mod::lemma_mod_division_less_than_divisor(v.1 as int * v.1 as int, s);
    vstd::arithmetic::div_mod::lemma_mod_division_less_than_divisor(v.2 as int * v.2 as int, s);
    assert((q + 1) * s > v.0 as int * v.0 as int) by (nonlinear_arith)
        requires
            (t0 + 1) * s > v.0 as int * v.0 as int,
            t0 <= q,
            s > 0,
    ;
    assert((q + 1) * s > v.1 as int * v.1 as int) by (nonlinear_arith)
        requires
            (t1 + 1) * s > v.1 as int * v.1 as int,
            t1 <= q,
            s > 0,
    ;
    assert((q + 1) * s > v.2 as int * v.2 as int) by (nonlinear_arith)
        requires
            (t2 + 1) * s > v.2 as int * v.2 as int,
            t2 <= q,
            s > 0,
    ;
    let l = v_len(v);
    assert(l == isqrt((q * s) as nat) as int);
    lemma_isqrt_bounds((q * s) as nat);
    assert(q * s >= 65536) by (nonlinear_arith)
        requires
            q >= 1,
            s == 65536,
    ;
    lemma_isqrt_monotone(65536nat, (q * s) as nat);
    assert(256nat * 256nat <= 65536nat && 65536nat < (256nat + 1) * (256nat + 1))
        by (nonlinear_arith);
    lemma_isqrt_unique(65536nat, 256nat);
    assert(l >= 256);
    assert((q + 1) * s <= 4 * (l * l)) by (nonlinear_arith)
        requires
            l * l <= q * s,
            q * s < (l + 1) * (l + 1),
            l >= 256,
            s == 65536,
    ;
    lemma_unit_component(v.0 as int, q, l);
    lemma_unit_component(v.1 as int, q, l);
    lemma_unit_component(v.2 as int, q, l);
}

/// One component of a normalization stays within two once its square is
/// within the squared length.
proof fn lemma_unit_component(x: int, q: int, l: int)
    requires
        x * x < (q + 1) * (FX_ONE as int),
        (q + 1) * (FX_ONE as int) <= 4 * (l * l),
        l >= 256,
    ensures
        -2 * FX_ONE as int <= fxd(x, l) <= 2 * FX_ONE as int,
{
    let s = FX_ONE as int;
    assert(-2 * l < x && x < 2 * l) by (nonlinear_arith)
        requires
            x * x < 4 * (l * l),
            l >= 1,
    ;
    assert(-(2 * l * s) <= x * s <= 2 * l * s) by (nonlinear_arith)
        requires
            -2 * l <= x <= 2 * l,
            s > 0,
    ;
    lemma_tdiv_bounds(x * s, 2 * l * s, l);
    vstd::arithmetic::div_mod::lemma_div_by_multiple(2 * s, l);
    assert(2 * s * l == 2 * l * s) by (nonlinear_arith);
}

/// Normalize a vector (the zero-length fallback is the `z` unit vector).
pub fn unit_vector(v: &Vec3) -> (r: Vec3)
    ensures
        r == v_unit(*v),
        (v_in_box(*v, 0x10_0000_0000) && v_len_sq(*v) >= 1) ==> v_in_box(r, 2 * FX_ONE as int),
{
    let q = v.length_squared();
    if q < 1 {
        Vec3(0, 0, FX_ONE)
    } else {
        proof {
            lemma_isqrt_bounds((q as int * FX_ONE as int) as nat);
            assert(q as int * FX_ONE as int >= 65536) by (nonlinear_arith)
                requires
                    q >= 1,
            ;
            lemma_isqrt_monotone(65536nat, (q as int * FX_ONE as int) as nat);
            assert(256nat * 256nat <= 65536nat && 65536nat < (256nat + 1) * (256nat + 1))
                by (nonlinear_arith);
            lemma_isqrt_unique(65536nat, 256nat);
            if v_in_box(*v, 0x10_0000_0000) {
                lemma_unit_bound(*v);
            }
        }
        let l = fx_sqrt(q);
        v.div(l)
    }
}

/// The fixed-point mirror reflection of `v` about `n`.
pub fn reflect(v: &Vec3, n: &Vec3) -> (r: Vec3)
    ensures
        r == reflect_spec(*v, *n),
{
    let d = dot(v, n);
    v.sub(n.mul(sat_add(d, d)))
}

/// The fixed-point refraction of the unit vector `uv` at a surface with
/// normal `n` and relative refractive index `rel_index`.
pub fn refract(uv: &Vec3, n: &Vec3, rel_index: i64) -> (r: Vec3)
    ensures
        r == refract_spec(*uv, *n, rel_index as int),
{
    let cos_theta = dot(&uv.neg(), n);
    let r_out_perp = uv.add(n.mul(cos_theta)).mul(rel_index);
    let k = sat_sub(FX_ONE, r_out_perp.length_squared());
    let k_abs = if k < 0 {
        sat_neg(k)
    } else {
        k
    };
    let r_out_parallel = n.mul(sat_neg(fx_sqrt(k_abs)));
    r_out_perp.add(r_out_parallel)
}

/// The outcome set of the interior sampler: a vector strictly inside the
/// unit sphere, of squared length at least a sixteenth, with every
/// component below one.
pub open spec fn sphere_sample_ok(p: Vec3) -> bool {
    &&& 4096 <= v_len_sq(p) < FX_ONE as int
    &&& v_in_box(p, FX_ONE as int)
}

/// The outcome set of the unit sampler: the normalization of some interior
/// sample.
pub open spec fn unit_sample_ok(u: Vec3) -> bool {
    exists|p: Vec3| #[trigger] sphere_sample_ok(p) && u == v_unit(p)
}

/// The outcome set of the disk sampler: a vector strictly inside the unit
/// disk of the `xy` plane.
pub open spec fn disk_sample_ok(p: Vec3) -> bool {
    &&& v_len_sq(p) < FX_ONE as int
    &&& p.2 == 0
    &&& v_in_box(p, FX_ONE as int)
}

/// A random vector strictly inside the unit sphere (and, as a degeneracy
/// guard for normalization, of length at least one quarter); after a bounded
/// number of rejected draws it falls back to a fixed interior vector.
pub fn random_in_unit_sphere() -> (r: Vec3)
    ensures
        sphere_sample_ok(r),
        4096 <= v_len_sq(r) < FX_ONE as int,
        v_in_box(r, FX_ONE as int),
{
    let mut tries: u32 = 0;
    while tries < 64
        invariant
            true,
        decreases 64 - tries,
    {
        let p = Vec3::random(Some((-65536, 65536)));
        let q = p.length_squared();
        if 4096 <= q && q < 65536 {
            return p;
        }
        tries = tries + 1;
    }
    let f = Vec3(32768, 0, 0);
    proof {
        assert(v_len_sq(f) == 16384);
    }
    f
}

/// A random vector of length close to one, uniform in direction: the
/// normalization of an interior sample, with its squared length within a
/// few hundredths of one.
pub fn random_unit_vector() -> (r: Vec3)
    ensures
        unit_sample_ok(r),
        FX_ONE as int - 32 <= v_len_sq(r) <= FX_ONE as int + 512,
        v_in_box(r, 2 * FX_ONE as int),
{
    let p = random_in_unit_sphere();
    let r = unit_vector(&p);
    proof {
        assert(sphere_sample_ok(p) && r == v_unit(p));
        lemma_unit_near_unit(p);
    }
    r
}

/// A random vector in the unit disk of the `xy` plane; after a bounded
/// number of rejected draws it falls back to the disk center.
pub fn random_int_unit_disk() -> (r: Vec3)
    ensures
        disk_sample_ok(r),
        v_len_sq(r) < FX_ONE as int,
        r.2 == 0,
        v_in_box(r, FX_ONE as int),
{
    let mut tries: u32 = 0;
    while tries < 64
        invariant
            true,
        decreases 64 - tries,
    {
        let a: i64 = 2 * rand_unit() - 65536;
        let b: i64 = 2 * rand_unit() - 65536;
        let p = Vec3(a, b, 0);
        let q = p.length_squared();
        if q < 65536 {
            return p;
        }
        tries = tries + 1;
    }
    let f = Vec3(0, 0, 0);
    proof {
        assert(v_len_sq(f) == 0);
    }
    f
}

/// A random near-unit vector on the hemisphere around `normal`: a unit
/// sample, kept when it already points with the normal and negated
/// otherwise.
pub fn random_on_hemisphere(normal: &Vec3) -> (r: Vec3)
    ensures
        exists|s: Vec3|
            #[trigger] unit_sample_ok(s) && ((v_dot(s, *normal) > 0 && r == s) || (v_dot(s, *normal)
                <= 0 && r == v_neg(s))),
        FX_ONE as int - 32 <= v_len_sq(r) <= FX_ONE as int + 512,
        v_in_box(r, 2 * FX_ONE as int),
        v_in_box(*normal, 0x100_0000_0000) ==> v_dot(r, *normal) >= 0,
{
    let on_unit_sphere = random_unit_vector();
    if dot(&on_unit_sphere, normal) > 0 {
        on_unit_sphere
    } else {
        proof {
            if v_in_box(*normal, 0x100_0000_0000) {
                lemma_dot_neg_left(on_unit_sphere, *normal, 2 * FX_ONE as int, 0x100_0000_0000);
            }
            assert((2 * FX_ONE as int) * (2 * FX_ONE as int) <= 0x1000_0000_0000_0000_0000)
                by (nonlinear_arith);
            lemma_dot_neg_right(
                v_neg(on_unit_sphere),
                on_unit_sphere,
                2 * FX_ONE as int,
                2 * FX_ONE as int,
            );
            lemma_dot_neg_left(on_unit_sphere, on_unit_sphere, 2 * FX_ONE as int, 2 * FX_ONE as int);
            assert(v_len_sq(v_neg(on_unit_sphere)) == v_len_sq(on_unit_sphere));
        }
        on_unit_sphere.neg()
    }
}

/// The exact componentwise clamp into the box `[-m, m]`.
pub open spec fn v_clamp(v: Vec3, m: int) -> Vec3 {
    Vec3(sclamp(v.0 as int, m) as i64, sclamp(v.1 as int, m) as i64, sclamp(v.2 as int, m) as i64)
}

/// Clamp every component into the box `[-m, m]`.
pub fn clamp_vec(v: &Vec3, m: i64) -> (r: Vec3)
    requires
        m >= 0,
    ensures
        r == v_clamp(*v, m as int),
        v_in_box(r, m as int),
{
    Vec3(clamp_box(v.0, m), clamp_box(v.1, m), clamp_box(v.2, m))
}

/// One normalized component, sandwiched by its exact quotient: the scaled
/// component lies between `l m` and `l m + l - 1`, and its square between
/// `l^2 m^2` and `l^2 m^2 + 2 l (a s) + l^2`.
proof fn lemma_unit_comp_sandwich(a: int, l: int)
    requires
        0 <= a <= 65536,
        1 <= l <= 65536,
    ensures
        0 <= tdiv(a * 65536, l),
        l * tdiv(a * 65536, l) <= a * 65536,
        a * 65536 <= l * tdiv(a * 65536, l) + l - 1,
        (l * l) * (tdiv(a * 65536, l) * tdiv(a * 65536, l)) <= (a * a) * (65536 * 65536),
        (a * a) * (65536 * 65536) <= (l * l) * (tdiv(a * 65536, l) * tdiv(a * 65536, l)) + 2 * l
            * (a * 65536) + l * l,
{
    let x = a * 65536;
    assert(0 <= x <= 65536 * 65536) by (nonlinear_arith)
        requires
            x == a * 65536,
            0 <= a <= 65536,
    ;
    let m = tdiv(x, l);
    vstd::arithmetic::div_mod::lemma_fundamental_div_mod(x, l);
    vstd::arithmetic::div_mod::lemma_mod_division_less_than_divisor(x, l);
    vstd::arithmetic::div_mod::lemma_div_pos_is_pos(x, l);
    assert(x == l * (x / l) + x % l);
    assert(l * m <= x <= l * m + l - 1);
    assert((l * m) * (l * m) == (l * l) * (m * m)) by (nonlinear_arith);
    assert((l * m) * (l * m) <= x * x) by (nonlinear_arith)
        requires
            0 <= l * m <= x,
    ;
    assert(x * x == (a * a) * (65536 * 65536)) by (nonlinear_arith)
        requires
            x == a * 65536,
    ;
    assert(x * x <= (l * l) * (m * m) + 2 * l * x + l * l) by (nonlinear_arith)
        requires
            l * m <= x <= l * m + l - 1,
            l >= 1,
            m >= 0,
    ;
}

/// Normalizing an interior sample yields a vector whose squared length is
/// within a few hundredths of one.
pub proof fn lemma_unit_near_unit(p: Vec3)
    requires
        v_in_box(p, FX_ONE as int),
        4096 <= v_len_sq(p) < FX_ONE as int,
    ensures
        FX_ONE as int - 32 <= v_len_sq(v_unit(p)) <= FX_ONE as int + 512,
{
    let si = FX_ONE as int;
    let q = v_len_sq(p);
    lemma_dot_bound(p, p, si, si);
    let t0 = tdiv(p.0 as int * p.0 as int, si);
    let t1 = tdiv(p.1 as int * p.1 as int, si);
    let t2 = tdiv(p.2 as int * p.2 as int, si);
    assert(p.0 as int * p.0 as int >= 0 && p.1 as int * p.1 as int >= 0 && p.2 as int * p.2 as int
        >= 0) by (nonlinear_arith);
    vstd::arithmetic::div_mod::lemma_fundamental_div_mod(p.0 as int * p.0 as int, si);
    vstd::arithmetic::div_mod::lemma_fundamental_div_mod(p.1 as int * p.1 as int, si);
    vstd::arithmetic::div_mod::lemma_fundamental_div_mod(p.2 as int * p.2 as int, si);
    vstd::arithmetic::div_mod::lemma_mod_division_less_than_divisor(p.0 as int * p.0 as int, si);
    vstd::arithmetic::div_mod::lemma_mod_division_less_than_divisor(p.1 as int * p.1 as int, si);
    vstd::arithmetic::div_mod::lemma_mod_division_less_than_divisor(p.2 as int * p.2 as int, si);
    let pp = p.0 as int * p.0 as int + p.1 as int * p.1 as int + p.2 as int * p.2 as int;
    assert(si * q <= pp <= si * q + 3 * si - 3) by {
        assert(pp == si * t0 + (p.0 as int * p.0 as int) % si + si * t1 + (p.1 as int
            * p.1 as int) % si + si * t2 + (p.2 as int * p.2 as int) % si);
        assert(si * t0 + si * t1 + si * t2 == si * q) by (nonlinear_arith)
            requires
                q == t0 + t1 + t2,
        ;
    }
    let l = fxsqrt(q);
    crate::fx::lemma_isqrt_bounds((q * si) as nat);
    assert(l * l <= q * si && q * si < (l + 1) * (l + 1));
    assert(q * si >= 0x1000_0000 && q * si < si * si) by (nonlinear_arith)
        requires
            4096 <= q < si,
            si == 65536,
    ;
    crate::fx::lemma_isqrt_monotone(0x1000_0000nat, (q * si) as nat);
    assert(16384nat * 16384nat <= 0x1000_0000nat && (16384nat + 1) * (16384nat + 1)
        > 0x1000_0000nat) by (nonlinear_arith);
    crate::fx::lemma_isqrt_unique(0x1000_0000nat, 16384nat);
    assert(l >= 16384);
    assert(l <= 65536) by (nonlinear_arith)
        requires
            l * l <= q * si,
            q * si < si * si,
            si == 65536,
            l >= 0,
    ;
    // the unit vector takes the division branch, and no component saturates
    assert(v_unit(p) == v_div(p, l));
    let a0 = if p.0 as int >= 0 {
        p.0 as int
    } else {
        -(p.0 as int)
    };
    let a1 = if p.1 as int >= 0 {
        p.1 as int
    } else {
        -(p.1 as int)
    };
    let a2 = if p.2 as int >= 0 {
        p.2 as int
    } else {
        -(p.2 as int)
    };
    lemma_unit_comp_sandwich(a0, l);
    lemma_unit_comp_sandwich(a1, l);
    lemma_unit_comp_sandwich(a2, l);
    let m0 = tdiv(a0 * si, l);
    let m1 = tdiv(a1 * si, l);
    let m2 = tdiv(a2 * si, l);
    assert(tdiv(p.0 as int * si, l) == if p.0 as int >= 0 {
        m0
    } else {
        -m0
    });
    assert(tdiv(p.1 as int * si, l) == if p.1 as int >= 0 {
        m1
    } else {
        -m1
    });
    assert(tdiv(p.2 as int * si, l) == if p.2 as int >= 0 {
        m2
    } else {
        -m2
    });
    assert(m0 <= 0x40_0000 && m1 <= 0x40_0000 && m2 <= 0x40_0000) by {
        lemma_tdiv_bounds(a0 * si, si * si, l);
        lemma_tdiv_bounds(a1 * si, si * si, l);
        lemma_tdiv_bounds(a2 * si, si * si, l);
        assert(a0 * si <= si * si && a1 * si <= si * si && a2 * si <= si * si)
            by (nonlinear_arith)
            requires
                0 <= a0 <= si,
                0 <= a1 <= si,
                0 <= a2 <= si,
        ;
        assert(tdiv(si * si, l) <= tdiv(si * si, 16384)) by {
            vstd::arithmetic::div_mod::lemma_div_is_ordered_by_denominator(si * si, 16384, l);
        }
        assert(si * si == 0x1_0000_0000) by (nonlinear_arith)
            requires
                si == 65536,
        ;
    }
    let u = v_unit(p);
    assert(u.0 as int == tdiv(p.0 as int * si, l) && u.1 as int == tdiv(p.1 as int * si, l)
        && u.2 as int == tdiv(p.2 as int * si, l));
    let uu = u.0 as int * u.0 as int + u.1 as int * u.1 as int + u.2 as int * u.2 as int;
    assert(uu == m0 * m0 + m1 * m1 + m2 * m2) by (nonlinear_arith)
        requires
            uu == u.0 as int * u.0 as int + u.1 as int * u.1 as int + u.2 as int * u.2 as int,
            u.0 as int == m0 || u.0 as int == -m0,
            u.1 as int == m1 || u.1 as int == -m1,
            u.2 as int == m2 || u.2 as int == -m2,
    ;
    let w = v_len_sq(u);
    lemma_dot_bound(u, u, 0x40_0000, 0x40_0000);
    let w0 = tdiv(u.0 as int * u.0 as int, si);
    let w1 = tdiv(u.1 as int * u.1 as int, si);
    let w2 = tdiv(u.2 as int * u.2 as int, si);
    assert(u.0 as int * u.0 as int >= 0 && u.1 as int * u.1 as int >= 0 && u.2 as int
        * u.2 as int >= 0) by (nonlinear_arith);
    vstd::arithmetic::div_mod::lemma_fundamental_div_mod(u.0 as int * u.0 as int, si);
    vstd::arithmetic::div_mod::lemma_fundamental_div_mod(u.1 as int * u.1 as int, si);
    vstd::arithmetic::div_mod::lemma_fundamental_div_mod(u.2 as int * u.2 as int, si);
    vstd::arithmetic::div_mod::lemma_mod_division_less_than_divisor(u.0 as int * u.0 as int, si);
    vstd::arithmetic::div_mod::lemma_mod_division_less_than_divisor(u.1 as int * u.1 as int, si);
    vstd::arithmetic::div_mod::lemma_mod_division_less_than_divisor(u.2 as int * u.2 as int, si);
    assert(si * w <= uu <= si * w + 3 * si - 3) by {
        assert(si * w0 + si * w1 + si * w2 == si * w) by (nonlinear_arith)
            requires
                w == w0 + w1 + w2,
        ;
    }
    // upper bound: l^2 uu <= si^2 pp <= si^2 (si q + 3 si)
    let ll = l * l;
    assert(pp == a0 * a0 + a1 * a1 + a2 * a2) by (nonlinear_arith)
        requires
            a0 == p.0 as int || a0 == -(p.0 as int),
            a1 == p.1 as int || a1 == -(p.1 as int),
            a2 == p.2 as int || a2 == -(p.2 as int),
            pp == p.0 as int * p.0 as int + p.1 as int * p.1 as int + p.2 as int * p.2 as int,
    ;
    assert(ll * uu <= (si * si) * pp) by (nonlinear_arith)
        requires
            ll == l * l,
            uu == m0 * m0 + m1 * m1 + m2 * m2,
            pp == a0 * a0 + a1 * a1 + a2 * a2,
            (l * l) * (m0 * m0) <= (a0 * a0) * (si * si),
            (l * l) * (m1 * m1) <= (a1 * a1) * (si * si),
            (l * l) * (m2 * m2) <= (a2 * a2) * (si * si),
    ;
    assert(w <= si + 512) by {
        if w > si + 512 {
            assert(ll > si * (q - 3)) by (nonlinear_arith)
                requires
                    q * si < (l + 1) * (l + 1),
                    ll == l * l,
                    16384 <= l <= 65536,
                    si == 65536,
            ;
            assert(ll * (si * w) <= (si * si) * (si * q + 3 * si)) by (nonlinear_arith)
                requires
                    ll * uu <= (si * si) * pp,
                    si * w <= uu,
                    pp <= si * q + 3 * si - 3,
                    ll >= 0,
                    si > 0,
            ;
            assert(false) by (nonlinear_arith)
                requires
                    ll * (si * w) <= (si * si) * (si * q + 3 * si),
                    ll > si * (q - 3),
                    w >= si + 513,
                    4096 <= q < si,
                    si == 65536,
            ;
        }
    }
    // lower bound: l^2 uu >= si^2 pp - 2 si l (a0+a1+a2) - 3 l^2
    assert((a0 * a0) * (si * si) + (a1 * a1) * (si * si) + (a2 * a2) * (si * si) <= (l * l) * (m0
        * m0) + (l * l) * (m1 * m1) + (l * l) * (m2 * m2) + 2 * l * (a0 * si) + 2 * l * (a1 * si)
        + 2 * l * (a2 * si) + 3 * (l * l));
    assert((si * si) * pp == (a0 * a0) * (si * si) + (a1 * a1) * (si * si) + (a2 * a2) * (si * si))
        by (nonlinear_arith)
        requires
            pp == a0 * a0 + a1 * a1 + a2 * a2,
    ;
    assert(ll * uu == (l * l) * (m0 * m0) + (l * l) * (m1 * m1) + (l * l) * (m2 * m2))
        by (nonlinear_arith)
        requires
            ll == l * l,
            uu == m0 * m0 + m1 * m1 + m2 * m2,
    ;
    assert(2 * si * l * (a0 + a1 + a2) == 2 * l * (a0 * si) + 2 * l * (a1 * si) + 2 * l * (a2
        * si)) by (nonlinear_arith);
    assert(ll * uu >= (si * si) * pp - 2 * si * l * (a0 + a1 + a2) - 3 * ll);
    assert(w >= si - 32) by {
        if w < si - 32 {
            assert(l * si <= 4 * q * si) by (nonlinear_arith)
                requires
                    l * l <= q * si,
                    l >= 16384,
                    si == 65536,
                    q >= 4096,
            ;
            assert(ll * uu >= si * si * si * q - 6 * si * si * l - 3 * ll) by (nonlinear_arith)
                requires
                    ll * uu >= (si * si) * pp - 2 * si * l * (a0 + a1 + a2) - 3 * ll,
                    pp >= si * q,
                    0 <= a0 <= si,
                    0 <= a1 <= si,
                    0 <= a2 <= si,
                    l >= 1,
                    si > 0,
            ;
            assert(false) by (nonlinear_arith)
                requires
                    ll * uu >= si * si * si * q - 6 * si * si * l - 3 * ll,
                    uu <= si * w + 3 * si - 3,
                    w <= si - 33,
                    ll == l * l,
                    l * l <= q * si,
                    l * si <= 4 * q * si,
                    l >= 16384,
                    4096 <= q < si,
                    si == 65536,
            ;
        }
    }
}

/// At normal incidence (the unit incoming direction exactly opposite a unit
/// normal) refraction never bends the ray, whatever the index ratio: the
/// outgoing direction equals the incoming one.
pub proof fn lemma_refract_normal_incidence(n: Vec3, ri: int)
    requires
        v_in_box(n, 2 * FX_ONE as int),
        v_len_sq(n) == FX_ONE as int,
        0 <= ri <= 0x100_0000_0000,
    ensures
        refract_spec(v_neg(n), n, ri) == v_neg(n),
{
    let si = FX_ONE as int;
    let u = v_neg(n);
    assert((2 * si) * (2 * si) <= 0x1000_0000_0000_0000_0000) by (nonlinear_arith)
        requires
            si == 65536,
    ;
    lemma_dot_neg_left(n, n, 2 * si, 2 * si);
    assert(v_dot(v_neg(u), n) == v_len_sq(n)) by {
        assert(v_neg(u) == n);
    }
    let cos = v_dot(v_neg(u), n);
    assert(cos == si);
    lemma_fxm_one(n.0 as int);
    lemma_fxm_one(n.1 as int);
    lemma_fxm_one(n.2 as int);
    assert(v_scale(n, cos) == n);
    assert(v_add(u, v_scale(n, cos)) == Vec3(0i64, 0i64, 0i64));
    let perp = v_scale(v_add(u, v_scale(n, cos)), ri);
    assert(perp == Vec3(0i64, 0i64, 0i64)) by {
        assert(fxm(0, ri) == 0) by {
            assert(0 * ri == 0) by (nonlinear_arith);
        }
    }
    assert(v_len_sq(perp) == 0) by {
        assert(fxm(0, 0) == 0) by {
            assert(0int * 0 == 0) by (nonlinear_arith);
        }
    }
    let k = ssub(si, v_len_sq(perp));
    assert(k == si);
    assert(fxsqrt(si) == 65536) by {
        assert(65536nat * 65536nat <= (si * si) as nat && (65536nat + 1) * (65536nat + 1) > (si
            * si) as nat) by (nonlinear_arith)
            requires
                si == 65536,
        ;
        lemma_isqrt_unique((si * si) as nat, 65536nat);
    }
    let par = v_scale(n, sneg(fxsqrt(k)));
    assert(par == u) by {
        lemma_fxm_neg(n.0 as int, si);
        lemma_fxm_neg(n.1 as int, si);
        lemma_fxm_neg(n.2 as int, si);
    }
    assert(v_add(perp, par) == u);
}

} // verus!
