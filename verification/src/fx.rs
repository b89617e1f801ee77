//! Fixed-point scalars: an `i64` holds a real value scaled by `FX_ONE` (2^16).
//!
//! Multiplication, division and square root round toward zero and saturate at
//! the `i64` range, so every operation is total and its result is pinned
//! exactly by a spec function.

use vstd::prelude::*;

verus! {

/// The scaled representation of 1.0.
pub const FX_ONE: i64 = 65536;

/// Truncating division of `a` by a positive divisor `b` (rounds toward zero).
pub open spec fn tdiv(a: int, b: int) -> int {
    if a >= 0 {
        a / b
    } else {
        -((-a) / b)
    }
}

/// Clamp a mathematical integer into the `i64` range.
pub open spec fn sat64(x: int) -> int {
    if x > i64::MAX as int {
        i64::MAX as int
    } else if x < i64::MIN as int {
        i64::MIN as int
    } else {
        x
    }
}

/// The exact value computed by fixed-point multiplication.
pub open spec fn fxm(a: int, b: int) -> int {
    sat64(tdiv(a * b, FX_ONE as int))
}

/// The exact value computed by fixed-point division (divisor must be positive).
pub open spec fn fxd(a: int, b: int) -> int {
    sat64(tdiv(a * FX_ONE as int, b))
}

/// The exact value computed by saturating addition.
pub open spec fn sadd(a: int, b: int) -> int {
    sat64(a + b)
}

/// The exact value computed by saturating subtraction.
pub open spec fn ssub(a: int, b: int) -> int {
    sat64(a - b)
}

/// The exact value computed by saturating negation.
pub open spec fn sneg(a: int) -> int {
    sat64(-a)
}

/// The exact value computed by clamping into `[-m, m]`.
pub open spec fn sclamp(a: int, m: int) -> int {
    if a > m {
        m
    } else if a < -m {
        -m
    } else {
        a
    }
}

/// The integer square root: the largest `r` with `r * r <= n`.
pub closed spec fn isqrt(n: nat) -> nat
    decreases n,
{
    if n == 0 {
        0
    } else {
        let r = isqrt((n - 1) as nat);
        if (r + 1) * (r + 1) <= n {
            r + 1
        } else {
            r
        }
    }
}

/// `isqrt(n)` is the unique value whose square is at most `n` while the next
/// square exceeds `n`.
pub proof fn lemma_isqrt_bounds(n: nat)
    ensures
        isqrt(n) * isqrt(n) <= n,
        n < (isqrt(n) + 1) * (isqrt(n) + 1),
    decreases n,
{
    if n > 0 {
        lemma_isqrt_bounds((n - 1) as nat);
        let r = isqrt((n - 1) as nat);
        assert(isqrt(n) == if (r + 1) * (r + 1) <= n {
            r + 1
        } else {
            r
        });
        if (r + 1) * (r + 1) <= n {
            assert(n < (r + 2) * (r + 2)) by (nonlinear_arith)
                requires
                    n < (r + 1) * (r + 1) + 1,
                    r >= 0,
            ;
        }
    } else {
        assert((isqrt(n) + 1) * (isqrt(n) + 1) == 1) by (nonlinear_arith)
            requires
                isqrt(n) == 0,
        ;
    }
}

/// Any `r` with `r^2 <= n < (r+1)^2` equals `isqrt(n)`.
pub proof fn lemma_isqrt_unique(n: nat, r: nat)
    requires
        r * r <= n,
        n < (r + 1) * (r + 1),
    ensures
        r == isqrt(n),
{
    lemma_isqrt_bounds(n);
    let s = isqrt(n);
    if r < s {
        assert((r + 1) * (r + 1) <= s * s) by (nonlinear_arith)
            requires
                r + 1 <= s,
        ;
    }
    if s < r {
        assert((s + 1) * (s + 1) <= r * r) by (nonlinear_arith)
            requires
                s + 1 <= r,
        ;
    }
}

/// The integer square root is monotone.
pub proof fn lemma_isqrt_monotone(a: nat, b: nat)
    requires
        a <= b,
    ensures
        isqrt(a) <= isqrt(b),
{
    lemma_isqrt_bounds(a);
    lemma_isqrt_bounds(b);
    let ra = isqrt(a);
    let rb = isqrt(b);
    if rb < ra {
        assert((rb + 1) * (rb + 1) <= ra * ra) by (nonlinear_arith)
            requires
                rb + 1 <= ra,
        ;
    }
}

/// The exact value computed by the fixed-point square root: the result is the
/// scaled square root of the scaled operand, rounded down.
pub open spec fn fxsqrt(x: int) -> int {
    isqrt((x * FX_ONE as int) as nat) as int
}

/// Fixed-point product, rounded toward zero and saturated at the i64 range.
pub fn fx_mul(a: i64, b: i64) -> (r: i64)
    ensures
        r as int == fxm(a as int, b as int),
{
    let neg: bool = (a < 0) != (b < 0);
    let aa: u128 = if a >= 0 {
        a as u128
    } else {
        (-(a as i128)) as u128
    };
    let bb: u128 = if b >= 0 {
        b as u128
    } else {
        (-(b as i128)) as u128
    };
    proof {
        assert(aa * bb == (if a as int * b as int >= 0 {
            a as int * b as int
        } else {
            -(a as int * b as int)
        })) by (nonlinear_arith)
            requires
                aa == (if a as int >= 0 { a as int } else { -(a as int) }),
                bb == (if b as int >= 0 { b as int } else { -(b as int) }),
        ;
        assert((a as int * b as int >= 0 && !(a as int == 0 || b as int == 0)) ==> !neg)
            by (nonlinear_arith)
            requires
                neg == ((a < 0) != (b < 0)),
        ;
        assert((a as int * b as int <= 0) == (neg || a as int * b as int == 0)) by (nonlinear_arith)
            requires
                neg == ((a < 0) != (b < 0)),
        ;
        assert(aa <= 0x8000_0000_0000_0000u128 && bb <= 0x8000_0000_0000_0000u128);
        assert(aa * bb <= 0x8000_0000_0000_0000u128 * 0x8000_0000_0000_0000u128)
            by (nonlinear_arith)
            requires
                aa <= 0x8000_0000_0000_0000u128,
                bb <= 0x8000_0000_0000_0000u128,
        ;
    }
    let p: u128 = aa * bb;
    let q: u128 = p / 65536;
    if neg {
        if q >= 0x8000_0000_0000_0000u128 {
            i64::MIN
        } else {
            -(q as i64)
        }
    } else {
        if q > i64::MAX as u128 {
            i64::MAX
        } else {
            q as i64
        }
    }
}

/// Truncating division keeps the sign of the dividend and never grows its
/// magnitude faster than the exact quotient.
pub proof fn lemma_tdiv_bounds(a: int, q: int, b: int)
    requires
        b >= 1,
        -q <= a <= q,
        0 <= q,
    ensures
        -tdiv(q, b) <= tdiv(a, b) <= tdiv(q, b),
        0 <= tdiv(q, b) <= q,
        a >= 0 ==> tdiv(a, b) >= 0,
        a <= 0 ==> tdiv(a, b) <= 0,
{
    vstd::arithmetic::div_mod::lemma_div_pos_is_pos(q, b);
    vstd::arithmetic::div_mod::lemma_div_nonincreasing(q, b);
    if a >= 0 {
        vstd::arithmetic::div_mod::lemma_div_pos_is_pos(a, b);
        vstd::arithmetic::div_mod::lemma_div_is_ordered(a, q, b);
    } else {
        vstd::arithmetic::div_mod::lemma_div_pos_is_pos(-a, b);
        vstd::arithmetic::div_mod::lemma_div_is_ordered(-a, q, b);
    }
}

/// When the exact product stays below the saturation threshold, the
/// fixed-point product is the truncated quotient itself, bounded through the
/// bounds of its operands.
pub proof fn lemma_fxm_bound(a: int, b: int, aa: int, bb: int)
    requires
        -aa <= a <= aa,
        -bb <= b <= bb,
        0 <= aa,
        0 <= bb,
        aa * bb <= i64::MAX as int * FX_ONE as int,
    ensures
        fxm(a, b) == tdiv(a * b, FX_ONE as int),
        -tdiv(aa * bb, FX_ONE as int) <= fxm(a, b) <= tdiv(aa * bb, FX_ONE as int),
        0 <= tdiv(aa * bb, FX_ONE as int) <= aa * bb,
        tdiv(aa * bb, FX_ONE as int) == (aa * bb) / FX_ONE as int,
{
    assert(-(aa * bb) <= a * b <= aa * bb) by (nonlinear_arith)
        requires
            -aa <= a <= aa,
            -bb <= b <= bb,
            0 <= aa,
            0 <= bb,
    ;
    lemma_tdiv_bounds(a * b, aa * bb, FX_ONE as int);
    assert(tdiv(aa * bb, FX_ONE as int) <= i64::MAX as int) by {
        vstd::arithmetic::div_mod::lemma_div_is_ordered(
            aa * bb,
            i64::MAX as int * FX_ONE as int,
            FX_ONE as int,
        );
        vstd::arithmetic::div_mod::lemma_div_by_multiple(i64::MAX as int, FX_ONE as int);
    }
}

/// The fixed-point product of two values in `[0, 1]` stays in `[0, 1]` and
/// below each operand.
pub proof fn lemma_fxm_unit(a: int, b: int)
    requires
        0 <= a <= FX_ONE as int,
        0 <= b <= FX_ONE as int,
    ensures
        0 <= fxm(a, b) <= b,
        fxm(a, b) <= a,
{
    let s = FX_ONE as int;
    assert(a * b <= s * b && a * b <= a * s && 0 <= a * b) by (nonlinear_arith)
        requires
            0 <= a <= s,
            0 <= b <= s,
    ;
    lemma_tdiv_bounds(a * b, a * b, s);
    vstd::arithmetic::div_mod::lemma_div_is_ordered(a * b, s * b, s);
    vstd::arithmetic::div_mod::lemma_div_is_ordered(a * b, a * s, s);
    vstd::arithmetic::div_mod::lemma_div_by_multiple(b, s);
    vstd::arithmetic::div_mod::lemma_div_by_multiple(a, s);
    assert(s * b == b * s);
}

/// Multiplying by the fixed-point one is the identity.
pub proof fn lemma_fxm_one(a: int)
    requires
        i64::MIN as int <= a <= i64::MAX as int,
    ensures
        fxm(a, FX_ONE as int) == a,
{
    let s = FX_ONE as int;
    if a >= 0 {
        vstd::arithmetic::div_mod::lemma_div_by_multiple(a, s);
    } else {
        vstd::arithmetic::div_mod::lemma_div_by_multiple(-a, s);
        assert((-a) * s == -(a * s)) by (nonlinear_arith);
    }
}

/// A fixed-point square is never negative.
pub proof fn lemma_fxm_square_nonneg(a: int)
    ensures
        fxm(a, a) >= 0,
{
    assert(a * a >= 0) by (nonlinear_arith);
    lemma_tdiv_bounds(a * a, a * a, FX_ONE as int);
}

/// Negating one operand negates the unsaturated fixed-point product.
pub proof fn lemma_fxm_neg(a: int, b: int)
    requires
        -(i64::MAX as int * FX_ONE as int) <= a * b,
        a * b <= i64::MAX as int * FX_ONE as int,
    ensures
        fxm(a, -b) == -fxm(a, b),
{
    let s = FX_ONE as int;
    let p = a * b;
    let q = if p >= 0 {
        p
    } else {
        -p
    };
    assert(a * (-b) == -p) by (nonlinear_arith)
        requires
            p == a * b,
    ;
    lemma_tdiv_bounds(p, q, s);
    vstd::arithmetic::div_mod::lemma_div_is_ordered(q, i64::MAX as int * s, s);
    vstd::arithmetic::div_mod::lemma_div_by_multiple(i64::MAX as int, s);
    assert(tdiv(q, s) <= i64::MAX as int);
    assert(tdiv(-p, s) == -tdiv(p, s));
}

/// Fixed-point quotient over a positive divisor, rounded toward zero and
/// saturated at the i64 range.
pub fn fx_div(a: i64, b: i64) -> (r: i64)
    requires
        b >= 1,
    ensures
        r as int == fxd(a as int, b as int),
{
    let neg: bool = a < 0;
    let aa: u128 = if a >= 0 {
        a as u128
    } else {
        (-(a as i128)) as u128
    };
    let p: u128 = aa * 65536;
    let q: u128 = p / (b as u128);
    proof {
        let s = FX_ONE as int;
        assert(aa * 65536 == (if a as int * s >= 0 {
            a as int * s
        } else {
            -(a as int * s)
        })) by (nonlinear_arith)
            requires
                s == 65536,
                aa == (if a as int >= 0 { a as int } else { -(a as int) }),
        ;
        assert((a as int * s >= 0) == (a >= 0)) by (nonlinear_arith)
            requires
                s == 65536,
        ;
    }
    if neg {
        if q >= 0x8000_0000_0000_0000u128 {
            i64::MIN
        } else {
            -(q as i64)
        }
    } else {
        if q > i64::MAX as u128 {
            i64::MAX
        } else {
            q as i64
        }
    }
}

/// Saturating addition on scalars.
pub fn sat_add(a: i64, b: i64) -> (r: i64)
    ensures
        r as int == sadd(a as int, b as int),
{
    match a.checked_add(b) {
        Some(v) => v,
        None => if a >= 0 {
            i64::MAX
        } else {
            i64::MIN
        },
    }
}

/// Saturating subtraction on scalars.
pub fn sat_sub(a: i64, b: i64) -> (r: i64)
    ensures
        r as int == ssub(a as int, b as int),
{
    match a.checked_sub(b) {
        Some(v) => v,
        None => if a >= 0 {
            i64::MAX
        } else {
            i64::MIN
        },
    }
}

/// Saturating negation on scalars.
pub fn sat_neg(a: i64) -> (r: i64)
    ensures
        r as int == sneg(a as int),
{
    if a == i64::MIN {
        i64::MAX
    } else {
        -a
    }
}

/// Clamp a scalar into the symmetric box `[-m, m]`.
pub fn clamp_box(a: i64, m: i64) -> (r: i64)
    requires
        m >= 0,
    ensures
        r as int == sclamp(a as int, m as int),
{
    if a > m {
        m
    } else if a < -m {
        -m
    } else {
        a
    }
}

/// Fixed-point square root of a nonnegative scalar.
pub fn fx_sqrt(x: i64) -> (r: i64)
    requires
        x >= 0,
    ensures
        r as int == fxsqrt(x as int),
        r >= 0,
{
    let m: u128 = (x as u128) * 65536;
    proof {
        assert(x as int * FX_ONE as int == m) by (nonlinear_arith)
            requires
                x >= 0,
                m == x as u128 * 65536,
                FX_ONE == 65536,
        ;
    }
    let mut lo: u64 = 0;
    let mut hi: u64 = 0x100_0000_0000;
    proof {
        assert((0x100_0000_0000u128) * (0x100_0000_0000u128) > m) by (nonlinear_arith)
            requires
                m <= 0x8000_0000_0000_0000u128 * 65536,
        ;
    }
    while hi - lo > 1
        invariant
            lo < hi,
            hi <= 0x100_0000_0000,
            (lo as int) * (lo as int) <= m as int,
            (m as int) < (hi as int) * (hi as int),
        decreases hi - lo,
    {
        let mid: u64 = lo + (hi - lo) / 2;
        proof {
            assert((mid as u128) * (mid as u128) <= 0x100_0000_0000u128 * 0x100_0000_0000u128)
                by (nonlinear_arith)
                requires
                    mid as u128 <= 0x100_0000_0000u128,
            ;
        }
        if (mid as u128) * (mid as u128) <= m {
            lo = mid;
        } else {
            hi = mid;
        }
    }
    proof {
        assert(hi == lo + 1);
        assert((lo as int + 1) * (lo as int + 1) > m as int);
        lemma_isqrt_unique(m as nat, lo as nat);
    }
    lo as i64
}

} // verus!
