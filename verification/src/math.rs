//! Integer helpers for the fixed-point arithmetic of the simulation:
//! a sign-preserving scale-by-fraction and an integer square root.

use vstd::prelude::*;
use vstd::arithmetic::div_mod::{
    lemma_div_is_ordered, lemma_div_nonincreasing, lemma_div_pos_is_pos,
};
use vstd::arithmetic::mul::lemma_mul_inequality;

verus! {

/// Largest magnitude `scale_frac` accepts for its input value.
pub const SCALE_IN_MAX: i64 = 1_000_000_000_000_000;

/// Largest product of input magnitude and numerator `scale_frac` accepts.
pub const SCALE_PROD_MAX: i64 = 900_000_000_000_000_000;

/// Magnitude of `v` (mathematical integers).
pub open spec fn mag(v: int) -> int {
    if v >= 0 {
        v
    } else {
        -v
    }
}

/// `v` scaled by `m / d`, rounding the magnitude toward zero, keeping the sign.
/// This is exactly what truncating machine division does to `v * m / d`.
pub open spec fn scale_spec(v: int, m: int, d: int) -> int
    recommends
        m >= 0,
        d > 0,
{
    if v >= 0 {
        (v * m) / d
    } else {
        -(((-v) * m) / d)
    }
}

/// Scaling by `m / d` with `m <= d` does not grow the magnitude.
pub proof fn lemma_scale_shrinks(v: int, m: int, d: int)
    requires
        0 <= m <= d,
        0 < d,
    ensures
        mag(scale_spec(v, m, d)) <= mag(v),
        v >= 0 ==> scale_spec(v, m, d) >= 0,
        v < 0 ==> scale_spec(v, m, d) <= 0,
{
    let a = mag(v);
    lemma_mul_inequality(m, d, a);
    assert(a * m == m * a) by (nonlinear_arith);
    assert(a * d == d * a) by (nonlinear_arith);
    lemma_div_is_ordered(a * m, a * d, d);
    assert((a * d) / d == a) by (nonlinear_arith)
        requires
            d > 0,
    ;
    lemma_div_pos_is_pos(a * m, d);
    assert(a * m >= 0) by (nonlinear_arith)
        requires
            a >= 0,
            m >= 0,
    ;
}

/// Scaling a value of magnitude at most `d` by `m / d` yields magnitude at
/// most `m`.
pub proof fn lemma_scale_of_part(v: int, m: int, d: int)
    requires
        0 <= m,
        0 < d,
        mag(v) <= d,
    ensures
        mag(scale_spec(v, m, d)) <= m,
        v >= 0 ==> scale_spec(v, m, d) >= 0,
        v < 0 ==> scale_spec(v, m, d) <= 0,
{
    let a = mag(v);
    lemma_mul_inequality(a, d, m);
    lemma_div_is_ordered(a * m, d * m, d);
    assert((d * m) / d == m) by (nonlinear_arith)
        requires
            d > 0,
    ;
    lemma_div_pos_is_pos(a * m, d);
    assert(a * m >= 0) by (nonlinear_arith)
        requires
            a >= 0,
            m >= 0,
    ;
}

/// `v * m / d` with the magnitude truncated toward zero and the sign kept.
pub fn scale_frac(v: i64, m: i64, d: i64) -> (r: i64)
    requires
        0 < d,
        0 <= m,
        -SCALE_IN_MAX <= v <= SCALE_IN_MAX,
        mag(v as int) * (m as int) <= SCALE_PROD_MAX,
    ensures
        r as int == scale_spec(v as int, m as int, d as int),
{
    let a: u64 = if v < 0 {
        (-v) as u64
    } else {
        v as u64
    };
    assert(a as int == mag(v as int));
    assert((a as int) * (m as int) <= SCALE_PROD_MAX);
    let p: u64 = a * (m as u64);
    let q: u64 = p / (d as u64);
    proof {
        lemma_div_nonincreasing(p as int, d as int);
        lemma_div_pos_is_pos(p as int, d as int);
    }
    if v < 0 {
        -(q as i64)
    } else {
        q as i64
    }
}

/// The integer square root: the largest `r` with `r * r <= n`.
pub open spec fn isq(n: nat) -> nat
    decreases n,
{
    if n == 0 {
        0
    } else {
        let r = isq((n - 1) as nat);
        if (r + 1) * (r + 1) <= n {
            r + 1
        } else {
            r
        }
    }
}

/// `isq(n)` squared is at most `n`, and the next square is beyond `n`.
pub proof fn lemma_isq_bounds(n: nat)
    ensures
        isq(n) * isq(n) <= n,
        n < (isq(n) + 1) * (isq(n) + 1),
    decreases n,
{
    if n > 0 {
        lemma_isq_bounds((n - 1) as nat);
        let r = isq((n - 1) as nat);
        if (r + 1) * (r + 1) <= n {
            assert(isq(n) == r + 1);
            assert((r + 1) * (r + 1) > n - 1);
            assert(n == (r + 1) * (r + 1));
            assert((r + 1) * (r + 1) < (r + 2) * (r + 2)) by (nonlinear_arith);
            assert(n < (isq(n) + 1) * (isq(n) + 1));
        } else {
            assert(isq(n) == r);
            assert(r * r <= n - 1);
            assert(n < (r + 1) * (r + 1));
            assert(n < (isq(n) + 1) * (isq(n) + 1));
        }
    } else {
        assert(isq(0) == 0);
        assert((isq(n) + 1) * (isq(n) + 1) == 1) by (nonlinear_arith)
            requires
                isq(n) == 0,
        ;
        assert(n < (isq(n) + 1) * (isq(n) + 1));
    }
}

/// On naturals, strict order of squares implies strict order of the roots.
pub proof fn lemma_sq_strict_mono(a: nat, b: nat)
    requires
        a * a < b * b,
    ensures
        a < b,
{
    assert(a < b) by (nonlinear_arith)
        requires
            a >= 0,
            b >= 0,
            a * a < b * b,
    ;
}

/// Any `r` whose square brackets `n` is the integer square root of `n`.
pub proof fn lemma_isq_unique(n: nat, r: nat)
    requires
        r * r <= n,
        n < (r + 1) * (r + 1),
    ensures
        r == isq(n),
{
    lemma_isq_bounds(n);
    let s = isq(n);
    if r < s {
        assert((r + 1) * (r + 1) <= s * s) by (nonlinear_arith)
            requires
                r + 1 <= s,
        ;
    }
    if s < r {
        assert((s + 1) * (s + 1) <= r * r) by (nonlinear_arith)
            requires
                s + 1 <= r,
        ;
    }
}

/// The integer square root, by bisection.
pub fn isqrt(n: u64) -> (r: u64)
    ensures
        r as nat == isq(n as nat),
        (r as int) * (r as int) <= n as int,
        (n as int) < ((r as int) + 1) * ((r as int) + 1),
        r <= 0xFFFF_FFFF,
{
    let mut lo: u64 = 0;
    let mut hi: u64 = 0x1_0000_0000;
    assert((n as int) < (hi as int) * (hi as int)) by (nonlinear_arith)
        requires
            n <= 0xFFFF_FFFF_FFFF_FFFFu64,
            hi == 0x1_0000_0000u64,
    ;
    while hi - lo > 1
        invariant
            0 <= lo < hi <= 0x1_0000_0000,
            (lo as int) * (lo as int) <= n as int,
            (n as int) < (hi as int) * (hi as int),
        decreases hi - lo,
    {
        let mid: u64 = lo + (hi - lo) / 2;
        assert(lo < mid < hi);
        assert(mid * mid <= 0xFFFF_FFFE_0000_0001u64) by (nonlinear_arith)
            requires
                mid <= 0xFFFF_FFFFu64,
        ;
        if mid * mid <= n {
            lo = mid;
        } else {
            hi = mid;
        }
    }
    proof {
        lemma_isq_unique(n as nat, lo as nat);
    }
    lo
}

} // verus!
