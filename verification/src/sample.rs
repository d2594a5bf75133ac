//! Sources of uniform random samples for the launch distribution.
//!
//! Particle launches draw a speed, a direction and a hue. The engine takes
//! the source as a parameter so that a test can supply a deterministic
//! sequence; the production source draws from the process-wide generator.

use vstd::prelude::*;
use vstd::arithmetic::div_mod::{
    lemma_div_pos_is_pos, lemma_fundamental_div_mod, lemma_mod_bound,
};
use rand::Rng;
use crate::SCALE;
use crate::math::{isqrt, lemma_scale_of_part, mag, scale_frac};

verus! {

/// A source of uniform integer samples.
///
/// Every launch parameter is derived from `next_below`, which yields a value
/// below the given bound; nothing more is promised of a sample, so whatever
/// the source does, the engine's contracts hold of every outcome.
pub trait SampleSource {
    /// Draws a sample below `bound`.
    fn next_below(&mut self, bound: u64) -> (out: u64)
        requires
            bound >= 1,
        ensures
            out < bound,
    ;
}

/// A deterministic multiplicative-congruential source for tests and for
/// reproducible runs: the same seed always yields the same launch sequence.
pub struct FixedSeedSource {
    state: u64,
}

impl FixedSeedSource {
    /// A source that will replay the sequence belonging to `seed`.
    pub fn new(seed: u64) -> (out: FixedSeedSource) {
        FixedSeedSource { state: seed }
    }
}

impl SampleSource for FixedSeedSource {
    fn next_below(&mut self, bound: u64) -> (out: u64) {
        let wide: u128 = (self.state as u128) * 6364136223846793005u128 + 1442695040888963407u128;
        self.state = #[verifier::truncate] (wide as u64);
        (self.state >> 16) % bound
    }
}

/// Draws a `u64` below `bound` from the process-wide generator.
///
/// Relies on `rand::Rng::gen_range` over the range `0..bound`: the result
/// lies in the range, and the call panics only when the range is empty,
/// which the precondition rules out.
#[verifier::external_body]
fn os_sample_below(bound: u64) -> (out: u64)
    requires
        bound >= 1,
    ensures
        out < bound,
{
    rand::thread_rng().gen_range(0..bound)
}

/// The production source: samples from the process-wide generator.
pub struct OsSource {
}

impl OsSource {
    /// A handle on the process-wide generator.
    pub fn new() -> (out: OsSource) {
        OsSource {  }
    }
}

impl SampleSource for OsSource {
    fn next_below(&mut self, bound: u64) -> (out: u64) {
        os_sample_below(bound)
    }
}

/// A direction on the unit circle, as `SCALE`-scaled cosine and sine.
#[derive(Clone, Copy, PartialEq, Eq, Structural, Debug)]
pub struct Dir {
    pub cos: i64,
    pub sin: i64,
}

/// Whether both components of a direction are unit-bounded.
pub open spec fn dir_bounded(d: Dir) -> bool {
    &&& mag(d.cos as int) <= SCALE
    &&& mag(d.sin as int) <= SCALE
}

/// Whether a direction lies on the unit circle up to the truncation the
/// fixed-point normalization allows: its magnitude is within 7 units
/// (0.0007) of one on either side. In particular it is never the zero
/// vector.
pub open spec fn dir_near_unit(d: Dir) -> bool {
    &&& (SCALE - 7) * (SCALE - 7) <= (d.cos as int) * (d.cos as int) + (d.sin as int) * (
    d.sin as int)
    &&& (d.cos as int) * (d.cos as int) + (d.sin as int) * (d.sin as int) <= (SCALE + 7) * (SCALE
        + 7)
}

/// Smallest accepted squared radius of a raw sample: half a unit, squared.
const DIR_MIN_D2: u64 = 25_000_000;

/// Normalizing a pair from the accepted ring leaves its magnitude within 7
/// units of one full `SCALE` on either side: each truncated component
/// `(x * SCALE) / r` loses less than one unit, and the divisor
/// `r = isqrt(a*a + b*b)` is off the true radius by less than one.
proof fn lemma_norm_pair_window(a: int, b: int, r: int)
    requires
        5_000 <= r <= 10_000,
        0 <= a <= r,
        0 <= b <= r,
        r * r <= a * a + b * b,
        a * a + b * b < (r + 1) * (r + 1),
    ensures
        (SCALE - 7) * (SCALE - 7) <= ((a * SCALE) / r) * ((a * SCALE) / r) + ((b * SCALE) / r) * (
        (b * SCALE) / r),
        ((a * SCALE) / r) * ((a * SCALE) / r) + ((b * SCALE) / r) * ((b * SCALE) / r) <= (SCALE
            + 7) * (SCALE + 7),
{
    let s = SCALE as int;
    let qa = (a * s) / r;
    let qb = (b * s) / r;
    assert(a * s >= 0 && b * s >= 0) by (nonlinear_arith)
        requires
            a >= 0,
            b >= 0,
            s > 0,
    ;
    lemma_fundamental_div_mod(a * s, r);
    lemma_fundamental_div_mod(b * s, r);
    lemma_mod_bound(a * s, r);
    lemma_mod_bound(b * s, r);
    lemma_div_pos_is_pos(a * s, r);
    lemma_div_pos_is_pos(b * s, r);
    assert(r * qa <= a * s && a * s < r * qa + r);
    assert(r * qb <= b * s && b * s < r * qb + r);
    // Upper side: the components never overshoot the exact quotients, whose
    // squared sum is s * s * (a * a + b * b) <= (s * (r + 1))^2 - s * s.
    assert((r * qa) * (r * qa) + (r * qb) * (r * qb) <= s * s * (a * a + b * b))
        by (nonlinear_arith)
        requires
            0 <= r * qa,
            r * qa <= a * s,
            0 <= r * qb,
            r * qb <= b * s,
    ;
    assert(s * (r + 1) <= (s + 7) * r) by (nonlinear_arith)
        requires
            s == 10_000,
            r >= 5_000,
    ;
    assert(s * s * (a * a + b * b) < (s * (r + 1)) * (s * (r + 1))) by (nonlinear_arith)
        requires
            a * a + b * b < (r + 1) * (r + 1),
            s > 0,
    ;
    assert((s * (r + 1)) * (s * (r + 1)) <= ((s + 7) * r) * ((s + 7) * r)) by (nonlinear_arith)
        requires
            0 <= s * (r + 1),
            s * (r + 1) <= (s + 7) * r,
    ;
    assert(qa * qa + qb * qb <= (s + 7) * (s + 7)) by (nonlinear_arith)
        requires
            (r * qa) * (r * qa) + (r * qb) * (r * qb) < ((s + 7) * r) * ((s + 7) * r),
            r >= 1,
            qa >= 0,
            qb >= 0,
    ;
    // Lower side.
    if a == 0 {
        assert(b >= r) by (nonlinear_arith)
            requires
                b >= 0,
                r >= 0,
                b * b >= r * r,
        ;
        assert(b == r);
        assert((r * s) / r == s) by (nonlinear_arith)
            requires
                r >= 1,
        ;
        assert(qa == 0);
        assert(qa * qa + qb * qb == s * s) by (nonlinear_arith)
            requires
                qa == 0,
                qb == s,
        ;
        assert((s - 7) * (s - 7) <= s * s) by (nonlinear_arith)
            requires
                s == 10_000,
        ;
    } else if b == 0 {
        assert(a >= r) by (nonlinear_arith)
            requires
                a >= 0,
                r >= 0,
                a * a >= r * r,
        ;
        assert(a == r);
        assert((r * s) / r == s) by (nonlinear_arith)
            requires
                r >= 1,
        ;
        assert(qb == 0);
        assert(qa * qa + qb * qb == s * s) by (nonlinear_arith)
            requires
                qb == 0,
                qa == s,
        ;
        assert((s - 7) * (s - 7) <= s * s) by (nonlinear_arith)
            requires
                s == 10_000,
        ;
    } else {
        assert(a * s - r >= 0 && b * s - r >= 0) by (nonlinear_arith)
            requires
                a >= 1,
                b >= 1,
                s >= r,
                r >= 1,
        ;
        assert((r * qa) * (r * qa) >= (a * s - r) * (a * s - r)) by (nonlinear_arith)
            requires
                r * qa > a * s - r,
                a * s - r >= 0,
        ;
        assert((r * qb) * (r * qb) >= (b * s - r) * (b * s - r)) by (nonlinear_arith)
            requires
                r * qb > b * s - r,
                b * s - r >= 0,
        ;
        assert((a * s - r) * (a * s - r) + (b * s - r) * (b * s - r) >= ((s - 7) * r) * ((s - 7)
            * r)) by (nonlinear_arith)
            requires
                s == 10_000,
                5_000 <= r <= 10_000,
                1 <= a <= r,
                1 <= b <= r,
                a + b <= 2 * r,
                r * r <= a * a + b * b,
        ;
        assert(qa * qa + qb * qb >= (s - 7) * (s - 7)) by (nonlinear_arith)
            requires
                (r * qa) * (r * qa) + (r * qb) * (r * qb) >= ((s - 7) * r) * ((s - 7) * r),
                r >= 1,
                qa >= 0,
                qb >= 0,
    ;
    }
}

/// Draws a direction of uniformly distributed angle: a point is drawn
/// uniformly from the square around the origin and kept when it falls in the
/// ring between half a unit and one unit from the center (so the angle is
/// uniform and the normalization below stays sharp), then scaled out to the
/// unit circle. After a run of rejections the positive x axis is returned,
/// so the call completes on every source.
pub fn sample_dir<S: SampleSource>(source: &mut S) -> (out: Dir)
    ensures
        dir_bounded(out),
        dir_near_unit(out),
{
    let span: u64 = (2 * SCALE + 1) as u64;
    let mut tries: usize = 0;
    while tries < 64
        invariant
            span == 2 * SCALE + 1,
        decreases 64 - tries,
    {
        let a: i64 = (source.next_below(span) as i64) - SCALE;
        let b: i64 = (source.next_below(span) as i64) - SCALE;
        let ax: u64 = if a < 0 {
            (-a) as u64
        } else {
            a as u64
        };
        let ay: u64 = if b < 0 {
            (-b) as u64
        } else {
            b as u64
        };
        assert(ax <= 10_000 && ay <= 10_000);
        assert((ax as int) * (ax as int) + (ay as int) * (ay as int) <= 200_000_000)
            by (nonlinear_arith)
            requires
                ax <= 10_000u64,
                ay <= 10_000u64,
        ;
        let d2: u64 = ax * ax + ay * ay;
        if d2 >= DIR_MIN_D2 && d2 <= (SCALE * SCALE) as u64 {
            let r: u64 = isqrt(d2);
            proof {
                assert(5_000 <= r as int) by (nonlinear_arith)
                    requires
                        (d2 as int) < ((r as int) + 1) * ((r as int) + 1),
                        d2 as int >= 25_000_000,
                        r >= 0,
                ;
                assert(r as int <= 10_000) by (nonlinear_arith)
                    requires
                        (r as int) * (r as int) <= d2 as int,
                        d2 as int <= 100_000_000,
                        r >= 0,
                ;
                assert((ax as int) * (ax as int) <= d2 as int) by (nonlinear_arith)
                    requires
                        (ax as int) * (ax as int) + (ay as int) * (ay as int) == d2 as int,
                        ay >= 0,
                ;
                assert((ay as int) * (ay as int) <= d2 as int) by (nonlinear_arith)
                    requires
                        (ax as int) * (ax as int) + (ay as int) * (ay as int) == d2 as int,
                        ax >= 0,
                ;
                assert(ax as int <= r as int) by (nonlinear_arith)
                    requires
                        (ax as int) * (ax as int) <= (d2 as int),
                        (d2 as int) < ((r as int) + 1) * ((r as int) + 1),
                        ax >= 0,
                        r >= 0,
                ;
                assert(ay as int <= r as int) by (nonlinear_arith)
                    requires
                        (ay as int) * (ay as int) <= (d2 as int),
                        (d2 as int) < ((r as int) + 1) * ((r as int) + 1),
                        ay >= 0,
                        r >= 0,
                ;
                lemma_scale_of_part(a as int, SCALE as int, r as int);
                lemma_scale_of_part(b as int, SCALE as int, r as int);
                lemma_norm_pair_window(ax as int, ay as int, r as int);
            }
            let c: i64 = scale_frac(a, SCALE, r as i64);
            let s: i64 = scale_frac(b, SCALE, r as i64);
            proof {
                let qa = ((ax as int) * SCALE) / (r as int);
                let qb = ((ay as int) * SCALE) / (r as int);
                assert(c as int == qa || c as int == -qa);
                assert(s as int == qb || s as int == -qb);
                assert((c as int) * (c as int) == qa * qa) by (nonlinear_arith)
                    requires
                        c as int == qa || c as int == -qa,
                ;
                assert((s as int) * (s as int) == qb * qb) by (nonlinear_arith)
                    requires
                        s as int == qb || s as int == -qb,
                ;
            }
            return Dir { cos: c, sin: s };
        }
        tries = tries + 1;
    }
    proof {
        assert((SCALE - 7) * (SCALE - 7) <= SCALE * SCALE && SCALE * SCALE <= (SCALE + 7) * (SCALE
            + 7)) by (nonlinear_arith);
    }
    Dir { cos: SCALE, sin: 0 }
}

} // verus!
