//! A single particle and the two operators on it: the per-tick integration
//! step and the one-shot radial impulse.

use vstd::prelude::*;
use vstd::arithmetic::div_mod::{
    lemma_div_is_ordered, lemma_div_pos_is_pos, lemma_add_mod_noop, lemma_fundamental_div_mod,
    lemma_mod_bound, lemma_small_mod,
};
use crate::{
    BOUNCE_NUM, DIM_LIMIT, EXPLOSION_FORCE, EXPLOSION_RADIUS, FRAC_DEN, FRICTION_NUM, GRAVITY,
    HUE_STEP, HUE_WHEEL, LAUNCH_LIFT, LAUNCH_SPEED_SLACK, LAUNCH_VEL_MAX, SCALE, SPEED_MIN,
    SPEED_SPAN, VEL_LIMIT,
};
use crate::math::{
    isq, isqrt, lemma_isq_bounds, lemma_scale_of_part, lemma_scale_shrinks, lemma_sq_strict_mono,
    mag, scale_frac, scale_spec,
};
use crate::sample::{dir_bounded, sample_dir, SampleSource};

verus! {

/// A particle: position, velocity and hue, all `SCALE`-scaled.
#[derive(Clone, Copy, PartialEq, Eq, Structural, Debug)]
pub struct Particle {
    pub x: i64,
    pub y: i64,
    pub vx: i64,
    pub vy: i64,
    pub hue: u64,
}

/// The mathematical state of a particle.
pub ghost struct PState {
    pub x: int,
    pub y: int,
    pub vx: int,
    pub vy: int,
    pub hue: int,
}

impl View for Particle {
    type V = PState;

    open spec fn view(&self) -> PState {
        PState {
            x: self.x as int,
            y: self.y as int,
            vx: self.vx as int,
            vy: self.vy as int,
            hue: self.hue as int,
        }
    }
}

/// A velocity component reflected by a bounce: sign flipped, damped to 85%.
pub open spec fn bounced(v: int) -> int {
    -scale_spec(v, BOUNCE_NUM as int, FRAC_DEN as int)
}

/// A velocity component rubbed by the floor: damped to 98%, sign kept.
pub open spec fn with_friction(v: int) -> int {
    scale_spec(v, FRICTION_NUM as int, FRAC_DEN as int)
}

/// `v` forced into `[lo, hi]`.
pub open spec fn clamped(v: int, lo: int, hi: int) -> int {
    if v < lo {
        lo
    } else if v > hi {
        hi
    } else {
        v
    }
}

/// One tick of a particle on a `w` by `h` surface: gravity, integration,
/// boundary bounces (with friction at the floor only), and the hue advance.
pub open spec fn step_spec(p: PState, w: int, h: int) -> PState {
    let vy_g = p.vy + GRAVITY;
    let xi = p.x + p.vx;
    let yi = p.y + vy_g;
    let wall = xi < 0 || xi > w;
    let x1 = if wall {
        clamped(xi, 0, w)
    } else {
        xi
    };
    let vx1 = if wall {
        bounced(p.vx)
    } else {
        p.vx
    };
    let ceiling = yi < 0;
    let y1 = if ceiling {
        0
    } else {
        yi
    };
    let vy1 = if ceiling {
        bounced(vy_g)
    } else {
        vy_g
    };
    let floor = y1 > h;
    let y2 = if floor {
        h
    } else {
        y1
    };
    let vy2 = if floor {
        bounced(vy1)
    } else {
        vy1
    };
    let vx2 = if floor {
        with_friction(vx1)
    } else {
        vx1
    };
    PState { x: x1, y: y2, vx: vx2, vy: vy2, hue: (p.hue + HUE_STEP) % (HUE_WHEEL as int) }
}

/// `k` ticks of a particle.
pub open spec fn step_many(p: PState, w: int, h: int, k: nat) -> PState
    decreases k,
{
    if k == 0 {
        p
    } else {
        step_spec(step_many(p, w, h, (k - 1) as nat), w, h)
    }
}

/// Executes one tick of one particle.
pub fn step_particle(p: Particle, w: i64, h: i64) -> (q: Particle)
    requires
        0 <= w <= DIM_LIMIT,
        0 <= h <= DIM_LIMIT,
        0 <= p.x <= w,
        0 <= p.y <= h,
        mag(p@.vx) <= VEL_LIMIT,
        mag(p@.vy) <= VEL_LIMIT,
        p.hue < HUE_WHEEL as u64,
    ensures
        q@ == step_spec(p@, w as int, h as int),
{
    let vy_g: i64 = p.vy + GRAVITY;
    let xi: i64 = p.x + p.vx;
    let yi: i64 = p.y + vy_g;
    let wall = xi < 0 || xi > w;
    proof {
        lemma_scale_shrinks(p@.vx, BOUNCE_NUM as int, FRAC_DEN as int);
        lemma_scale_shrinks(p@.vy + GRAVITY, BOUNCE_NUM as int, FRAC_DEN as int);
    }
    let x1: i64 = if wall {
        if xi < 0 {
            0
        } else if xi > w {
            w
        } else {
            xi
        }
    } else {
        xi
    };
    let vx1: i64 = if wall {
        -scale_frac(p.vx, BOUNCE_NUM, FRAC_DEN)
    } else {
        p.vx
    };
    let ceiling = yi < 0;
    let y1: i64 = if ceiling {
        0
    } else {
        yi
    };
    let vy1: i64 = if ceiling {
        -scale_frac(vy_g, BOUNCE_NUM, FRAC_DEN)
    } else {
        vy_g
    };
    proof {
        lemma_scale_shrinks(vy1 as int, BOUNCE_NUM as int, FRAC_DEN as int);
        lemma_scale_shrinks(vx1 as int, FRICTION_NUM as int, FRAC_DEN as int);
    }
    let floor = y1 > h;
    let y2: i64 = if floor {
        h
    } else {
        y1
    };
    let vy2: i64 = if floor {
        -scale_frac(vy1, BOUNCE_NUM, FRAC_DEN)
    } else {
        vy1
    };
    let vx2: i64 = if floor {
        scale_frac(vx1, FRICTION_NUM, FRAC_DEN)
    } else {
        vx1
    };
    let hue: u64 = (p.hue + HUE_STEP as u64) % (HUE_WHEEL as u64);
    Particle { x: x1, y: y2, vx: vx2, vy: vy2, hue }
}

/// One tick keeps the position on the surface and the hue on the wheel, and
/// grows the velocity magnitude by at most the gravity increment.
pub proof fn lemma_step_bounds(p: PState, w: int, h: int, b: int)
    requires
        0 <= w,
        0 <= h,
        0 <= p.x <= w,
        0 <= p.y <= h,
        0 <= p.hue < HUE_WHEEL as int,
        0 <= b,
        mag(p.vx) <= b,
        mag(p.vy) <= b,
    ensures
        0 <= step_spec(p, w, h).x <= w,
        0 <= step_spec(p, w, h).y <= h,
        0 <= step_spec(p, w, h).hue < HUE_WHEEL as int,
        mag(step_spec(p, w, h).vx) <= b,
        mag(step_spec(p, w, h).vy) <= b + GRAVITY,
{
    lemma_scale_shrinks(p.vx, BOUNCE_NUM as int, FRAC_DEN as int);
    lemma_scale_shrinks(p.vy + GRAVITY, BOUNCE_NUM as int, FRAC_DEN as int);
    let vy_g = p.vy + GRAVITY;
    let yi = p.y + vy_g;
    let vy1 = if yi < 0 {
        bounced(vy_g)
    } else {
        vy_g
    };
    lemma_scale_shrinks(vy1, BOUNCE_NUM as int, FRAC_DEN as int);
    let xi = p.x + p.vx;
    let vx1 = if xi < 0 || xi > w {
        bounced(p.vx)
    } else {
        p.vx
    };
    lemma_scale_shrinks(vx1, FRICTION_NUM as int, FRAC_DEN as int);
    assert(0 <= (p.hue + HUE_STEP) % (HUE_WHEEL as int) < HUE_WHEEL as int) by {
        vstd::arithmetic::div_mod::lemma_mod_bound(p.hue + HUE_STEP, HUE_WHEEL as int);
    }
}

/// The distance squared between a particle and the impulse center.
pub open spec fn dist2_of(px: int, py: int, cx: int, cy: int) -> int {
    (px - cx) * (px - cx) + (py - cy) * (py - cy)
}

/// The velocity change a radial impulse centered at `(cx, cy)` gives a
/// particle at `(px, py)`: nothing at distance `EXPLOSION_RADIUS` or beyond,
/// otherwise a push of magnitude decaying linearly from `EXPLOSION_FORCE`,
/// directed from the center toward the particle. A particle exactly at the
/// center is pushed along the positive x axis.
pub open spec fn impulse_spec(px: int, py: int, cx: int, cy: int) -> (int, int) {
    let dx = px - cx;
    let dy = py - cy;
    let d2 = dist2_of(px, py, cx, cy);
    if d2 >= (EXPLOSION_RADIUS as int) * (EXPLOSION_RADIUS as int) {
        (0, 0)
    } else {
        let d = isq(d2 as nat) as int;
        let f = ((EXPLOSION_FORCE as int) * (EXPLOSION_RADIUS as int - d)) / (
        EXPLOSION_RADIUS as int);
        if d == 0 {
            (f, 0)
        } else {
            (scale_spec(dx, f, d), scale_spec(dy, f, d))
        }
    }
}

/// Each impulse component has magnitude at most `EXPLOSION_FORCE`.
pub proof fn lemma_impulse_bounds(px: int, py: int, cx: int, cy: int)
    ensures
        mag(impulse_spec(px, py, cx, cy).0) <= EXPLOSION_FORCE as int,
        mag(impulse_spec(px, py, cx, cy).1) <= EXPLOSION_FORCE as int,
{
    let dx = px - cx;
    let dy = py - cy;
    let d2 = dist2_of(px, py, cx, cy);
    let rr = EXPLOSION_RADIUS as int;
    let ff = EXPLOSION_FORCE as int;
    assert(dx * dx >= 0 && dy * dy >= 0) by (nonlinear_arith);
    if d2 < rr * rr {
        lemma_isq_bounds(d2 as nat);
        let d = isq(d2 as nat) as int;
        assert(d * d <= d2);
        lemma_sq_strict_mono(isq(d2 as nat), EXPLOSION_RADIUS as nat);
        assert(d < rr);
        let f = (ff * (rr - d)) / rr;
        assert(ff * (rr - d) <= ff * rr) by (nonlinear_arith)
            requires
                0 <= d < rr,
                ff > 0,
        ;
        lemma_div_is_ordered(ff * (rr - d), ff * rr, rr);
        assert((ff * rr) / rr == ff) by (nonlinear_arith)
            requires
                rr > 0,
        ;
        assert(ff * (rr - d) >= 0) by (nonlinear_arith)
            requires
                0 <= d < rr,
                ff > 0,
        ;
        lemma_div_pos_is_pos(ff * (rr - d), rr);
        if d != 0 {
            assert(dx * dx <= d2 && dy * dy <= d2) by (nonlinear_arith)
                requires
                    d2 == dx * dx + dy * dy,
                    dx * dx >= 0,
                    dy * dy >= 0,
            ;
            assert(mag(dx) * mag(dx) == dx * dx && mag(dy) * mag(dy) == dy * dy)
                by (nonlinear_arith);
            assert(mag(dx) <= d && mag(dy) <= d) by (nonlinear_arith)
                requires
                    mag(dx) * mag(dx) <= d2,
                    mag(dy) * mag(dy) <= d2,
                    d2 < (d + 1) * (d + 1),
                    mag(dx) >= 0,
                    mag(dy) >= 0,
                    d >= 0,
            ;
            lemma_scale_of_part(dx, f, d);
            lemma_scale_of_part(dy, f, d);
        }
    }
}

/// Applies the radial impulse centered at `(cx, cy)` to one particle.
pub fn kick(p: Particle, cx: i64, cy: i64) -> (q: Particle)
    requires
        0 <= p.x <= DIM_LIMIT,
        0 <= p.y <= DIM_LIMIT,
        0 <= cx <= DIM_LIMIT,
        0 <= cy <= DIM_LIMIT,
        mag(p@.vx) <= VEL_LIMIT,
        mag(p@.vy) <= VEL_LIMIT,
    ensures
        q.x == p.x,
        q.y == p.y,
        q.hue == p.hue,
        q@.vx == p@.vx + impulse_spec(p@.x, p@.y, cx as int, cy as int).0,
        q@.vy == p@.vy + impulse_spec(p@.x, p@.y, cx as int, cy as int).1,
{
    proof {
        lemma_impulse_bounds(p@.x, p@.y, cx as int, cy as int);
    }
    let dx: i64 = p.x - cx;
    let dy: i64 = p.y - cy;
    let ax: u64 = if dx < 0 {
        (-dx) as u64
    } else {
        dx as u64
    };
    let ay: u64 = if dy < 0 {
        (-dy) as u64
    } else {
        dy as u64
    };
    assert((ax as int) * (ax as int) + (ay as int) * (ay as int) <= 2_000_000_000_000_000_000)
        by (nonlinear_arith)
        requires
            ax <= 1_000_000_000u64,
            ay <= 1_000_000_000u64,
    ;
    let d2: u64 = ax * ax + ay * ay;
    proof {
        let dxi = p@.x - cx as int;
        let dyi = p@.y - cy as int;
        assert((ax as int) * (ax as int) == dxi * dxi && (ay as int) * (ay as int) == dyi * dyi)
            by (nonlinear_arith)
            requires
                ax as int == mag(dxi),
                ay as int == mag(dyi),
        ;
        assert(d2 as int == dist2_of(p@.x, p@.y, cx as int, cy as int));
    }
    if d2 >= (EXPLOSION_RADIUS * EXPLOSION_RADIUS) as u64 {
        p
    } else {
        let d: u64 = isqrt(d2);
        proof {
            lemma_sq_strict_mono(d as nat, EXPLOSION_RADIUS as nat);
            assert(d < EXPLOSION_RADIUS as u64);
        }
        let fnum: u64 = (EXPLOSION_FORCE as u64) * (EXPLOSION_RADIUS as u64 - d);
        let f: u64 = fnum / (EXPLOSION_RADIUS as u64);
        proof {
            let rr = EXPLOSION_RADIUS as int;
            let ff = EXPLOSION_FORCE as int;
            assert(ff * (rr - d as int) <= ff * rr) by (nonlinear_arith)
                requires
                    0 <= (d as int) && (d as int) < rr,
                    ff > 0,
            ;
            lemma_div_is_ordered(ff * (rr - d as int), ff * rr, rr);
            assert((ff * rr) / rr == ff) by (nonlinear_arith)
                requires
                    rr > 0,
            ;
        }
        if d == 0 {
            Particle { x: p.x, y: p.y, vx: p.vx + f as i64, vy: p.vy, hue: p.hue }
        } else {
            proof {
                let dxi = p@.x - cx as int;
                let dyi = p@.y - cy as int;
                assert(mag(dxi) * mag(dxi) == dxi * dxi && mag(dyi) * mag(dyi) == dyi * dyi)
                    by (nonlinear_arith);
                assert(mag(dxi) <= d as int && mag(dyi) <= d as int) by (nonlinear_arith)
                    requires
                        mag(dxi) * mag(dxi) <= d2 as int,
                        mag(dyi) * mag(dyi) <= d2 as int,
                        (d2 as int) < ((d as int) + 1) * ((d as int) + 1),
                        mag(dxi) >= 0,
                        mag(dyi) >= 0,
                        d >= 0,
                ;
                assert(mag(dxi) * (f as int) <= 2_000_000 * 80_000) by (nonlinear_arith)
                    requires
                        0 <= mag(dxi) <= 2_000_000,
                        0 <= f as int <= 80_000,
                ;
                assert(mag(dyi) * (f as int) <= 2_000_000 * 80_000) by (nonlinear_arith)
                    requires
                        0 <= mag(dyi) <= 2_000_000,
                        0 <= f as int <= 80_000,
                ;
                lemma_scale_of_part(dxi, f as int, d as int);
                lemma_scale_of_part(dyi, f as int, d as int);
            }
            let ix: i64 = scale_frac(dx, f as i64, d as i64);
            let iy: i64 = scale_frac(dy, f as i64, d as i64);
            Particle { x: p.x, y: p.y, vx: p.vx + ix, vy: p.vy + iy, hue: p.hue }
        }
    }
}

/// Scaling a near-unit pair by `sp / SCALE` with truncation leaves its
/// magnitude within `LAUNCH_SPEED_SLACK` units of `sp` on either side.
proof fn lemma_speed_pair_window(u: int, v: int, sp: int)
    requires
        10_000 <= sp <= 29_999,
        0 <= u <= 10_000,
        0 <= v <= 10_000,
        9_993 * 9_993 <= u * u + v * v,
        u * u + v * v <= 10_007 * 10_007,
    ensures
        (sp - 30) * (sp - 30) <= ((u * sp) / 10_000) * ((u * sp) / 10_000) + ((v * sp) / 10_000)
            * ((v * sp) / 10_000),
        ((u * sp) / 10_000) * ((u * sp) / 10_000) + ((v * sp) / 10_000) * ((v * sp) / 10_000) <= (
        sp + 30) * (sp + 30),
{
    let d = 10_000int;
    let qa = (u * sp) / d;
    let qb = (v * sp) / d;
    assert(u * sp >= 0 && v * sp >= 0) by (nonlinear_arith)
        requires
            u >= 0,
            v >= 0,
            sp > 0,
    ;
    lemma_fundamental_div_mod(u * sp, d);
    lemma_fundamental_div_mod(v * sp, d);
    lemma_mod_bound(u * sp, d);
    lemma_mod_bound(v * sp, d);
    lemma_div_pos_is_pos(u * sp, d);
    lemma_div_pos_is_pos(v * sp, d);
    assert(d * qa <= u * sp && u * sp < d * qa + d);
    assert(d * qb <= v * sp && v * sp < d * qb + d);
    // Upper side.
    assert((d * qa) * (d * qa) + (d * qb) * (d * qb) <= sp * sp * (u * u + v * v))
        by (nonlinear_arith)
        requires
            0 <= d * qa,
            d * qa <= u * sp,
            0 <= d * qb,
            d * qb <= v * sp,
    ;
    assert(sp * 10_007 <= (sp + 30) * 10_000);
    assert(sp * sp * (u * u + v * v) <= (sp * 10_007) * (sp * 10_007)) by (nonlinear_arith)
        requires
            u * u + v * v <= 10_007 * 10_007,
            sp >= 0,
    ;
    assert((sp * 10_007) * (sp * 10_007) <= ((sp + 30) * 10_000) * ((sp + 30) * 10_000))
        by (nonlinear_arith)
        requires
            0 <= sp * 10_007,
            sp * 10_007 <= (sp + 30) * 10_000,
    ;
    assert(qa * qa + qb * qb <= (sp + 30) * (sp + 30)) by (nonlinear_arith)
        requires
            (d * qa) * (d * qa) + (d * qb) * (d * qb) <= ((sp + 30) * d) * ((sp + 30) * d),
            d >= 1,
            qa >= 0,
            qb >= 0,
    ;
    // Lower side.
    if u == 0 {
        assert(v >= 9_993) by (nonlinear_arith)
            requires
                v >= 0,
                v * v >= 9_993 * 9_993,
        ;
        assert(d * qb > v * sp - d);
        assert(v * sp >= 9_993 * sp) by (nonlinear_arith)
            requires
                v >= 9_993,
                sp >= 0,
        ;
        assert(d * qb >= (sp - 30) * d);
        assert(qa == 0);
        assert(qb >= sp - 30) by (nonlinear_arith)
            requires
                d * qb >= (sp - 30) * d,
                d >= 1,
        ;
        assert(qa * qa + qb * qb >= (sp - 30) * (sp - 30)) by (nonlinear_arith)
            requires
                qa == 0,
                qb >= sp - 30,
                sp - 30 >= 0,
        ;
    } else if v == 0 {
        assert(u >= 9_993) by (nonlinear_arith)
            requires
                u >= 0,
                u * u >= 9_993 * 9_993,
        ;
        assert(d * qa > u * sp - d);
        assert(u * sp >= 9_993 * sp) by (nonlinear_arith)
            requires
                u >= 9_993,
                sp >= 0,
        ;
        assert(d * qa >= (sp - 30) * d);
        assert(qb == 0);
        assert(qa >= sp - 30) by (nonlinear_arith)
            requires
                d * qa >= (sp - 30) * d,
                d >= 1,
        ;
        assert(qa * qa + qb * qb >= (sp - 30) * (sp - 30)) by (nonlinear_arith)
            requires
                qb == 0,
                qa >= sp - 30,
                sp - 30 >= 0,
        ;
    } else {
        assert(u * sp - d >= 0 && v * sp - d >= 0) by (nonlinear_arith)
            requires
                u >= 1,
                v >= 1,
                sp >= d,
                d >= 1,
    ;
        assert((d * qa) * (d * qa) >= (u * sp - d) * (u * sp - d)) by (nonlinear_arith)
            requires
                d * qa > u * sp - d,
                u * sp - d >= 0,
        ;
        assert((d * qb) * (d * qb) >= (v * sp - d) * (v * sp - d)) by (nonlinear_arith)
            requires
                d * qb > v * sp - d,
                v * sp - d >= 0,
        ;
        let pa = u * sp;
        let pb = v * sp;
        let s2 = sp * sp;
        assert((pa - d) * (pa - d) + (pb - d) * (pb - d) == pa * pa + pb * pb - 2 * d * (pa + pb)
            + 2 * (d * d)) by (nonlinear_arith);
        assert(pa * pa == s2 * (u * u)) by (nonlinear_arith)
            requires
                pa == u * sp,
                s2 == sp * sp,
        ;
        assert(pb * pb == s2 * (v * v)) by (nonlinear_arith)
            requires
                pb == v * sp,
                s2 == sp * sp,
        ;
        assert(pa + pb == sp * (u + v)) by (nonlinear_arith)
            requires
                pa == u * sp,
                pb == v * sp,
        ;
        assert(s2 * (u * u) + s2 * (v * v) == s2 * (u * u + v * v)) by (nonlinear_arith);
        assert((u * sp - d) * (u * sp - d) + (v * sp - d) * (v * sp - d) == sp * sp * (u * u + v
            * v) - 2 * d * (sp * (u + v)) + 2 * (d * d));
        assert(((sp - 30) * d) * ((sp - 30) * d) == (sp - 30) * (sp - 30) * (d * d))
            by (nonlinear_arith);
        assert(sp * sp * (u * u + v * v) >= sp * sp * (9_993 * 9_993)) by (nonlinear_arith)
            requires
                u * u + v * v >= 9_993 * 9_993,
        ;
        assert(sp * (u + v) <= sp * 20_000) by (nonlinear_arith)
            requires
                u + v <= 20_000,
                sp >= 0,
        ;
        assert(sp * sp * (9_993 * 9_993) - 400_000_000 * sp + 200_000_000 >= (sp - 30) * (sp - 30)
            * 100_000_000) by (nonlinear_arith)
            requires
                10_000 <= sp <= 29_999,
        ;
        assert((u * sp - d) * (u * sp - d) + (v * sp - d) * (v * sp - d) >= ((sp - 30) * d) * ((
        sp - 30) * d));
        assert(qa * qa + qb * qb >= (sp - 30) * (sp - 30)) by (nonlinear_arith)
            requires
                (d * qa) * (d * qa) + (d * qb) * (d * qb) >= ((sp - 30) * d) * ((sp - 30) * d),
                d >= 1,
                qa >= 0,
                qb >= 0,
        ;
    }
}

/// Launches one particle from the cannon origin `(w/2, h/4)`: a speed drawn
/// uniformly from `[1.0, 3.0)`, a direction of uniform angle, a constant
/// upward bias on the vertical velocity, and a hue drawn uniformly from the
/// wheel. Removing the bias leaves a vector whose magnitude is the drawn
/// speed up to `LAUNCH_SPEED_SLACK` units of truncation.
pub fn spawn_particle<S: SampleSource>(source: &mut S, w: i64, h: i64) -> (p: Particle)
    requires
        0 <= w <= DIM_LIMIT,
        0 <= h <= DIM_LIMIT,
    ensures
        p@.x == w as int / 2,
        p@.y == h as int / 4,
        0 <= p@.hue < HUE_WHEEL as int,
        mag(p@.vx) <= SPEED_MIN + SPEED_SPAN,
        mag(p@.vy) <= LAUNCH_VEL_MAX,
        mag(p@.vy + LAUNCH_LIFT) < SPEED_MIN + SPEED_SPAN,
        (SPEED_MIN - LAUNCH_SPEED_SLACK) * (SPEED_MIN - LAUNCH_SPEED_SLACK) <= p@.vx * p@.vx + (
        p@.vy + LAUNCH_LIFT) * (p@.vy + LAUNCH_LIFT),
        p@.vx * p@.vx + (p@.vy + LAUNCH_LIFT) * (p@.vy + LAUNCH_LIFT) <= (SPEED_MIN + SPEED_SPAN
            + LAUNCH_SPEED_SLACK) * (SPEED_MIN + SPEED_SPAN + LAUNCH_SPEED_SLACK),
{
    let dir = sample_dir(source);
    let sp: u64 = source.next_below(SPEED_SPAN as u64) + SPEED_MIN as u64;
    let hue: u64 = source.next_below(HUE_WHEEL as u64);
    proof {
        lemma_scale_of_part(dir.cos as int, sp as int, SCALE as int);
        lemma_scale_of_part(dir.sin as int, sp as int, SCALE as int);
    }
    let vx: i64 = scale_frac(dir.cos, sp as i64, SCALE);
    let vy0: i64 = scale_frac(dir.sin, sp as i64, SCALE);
    proof {
        let u = mag(dir.cos as int);
        let v = mag(dir.sin as int);
        assert(u * u == (dir.cos as int) * (dir.cos as int)) by (nonlinear_arith)
            requires
                u == dir.cos as int || u == -(dir.cos as int),
        ;
        assert(v * v == (dir.sin as int) * (dir.sin as int)) by (nonlinear_arith)
            requires
                v == dir.sin as int || v == -(dir.sin as int),
        ;
        lemma_speed_pair_window(u, v, sp as int);
        let qa = (u * (sp as int)) / 10_000;
        let qb = (v * (sp as int)) / 10_000;
        assert(vx as int == qa || vx as int == -qa);
        assert(vy0 as int == qb || vy0 as int == -qb);
        assert((vx as int) * (vx as int) == qa * qa) by (nonlinear_arith)
            requires
                vx as int == qa || vx as int == -qa,
        ;
        assert((vy0 as int) * (vy0 as int) == qb * qb) by (nonlinear_arith)
            requires
                vy0 as int == qb || vy0 as int == -qb,
        ;
        assert((sp as int - 30) * (sp as int - 30) >= (SPEED_MIN - LAUNCH_SPEED_SLACK) * (
        SPEED_MIN - LAUNCH_SPEED_SLACK)) by (nonlinear_arith)
            requires
                sp >= 10_000u64,
        ;
        assert((sp as int + 30) * (sp as int + 30) <= (SPEED_MIN + SPEED_SPAN
            + LAUNCH_SPEED_SLACK) * (SPEED_MIN + SPEED_SPAN + LAUNCH_SPEED_SLACK))
            by (nonlinear_arith)
            requires
                sp <= 29_999u64,
        ;
    }
    let vy: i64 = vy0 - LAUNCH_LIFT;
    let x: i64 = ((w as u64) / 2) as i64;
    let y: i64 = ((h as u64) / 4) as i64;
    Particle { x, y, vx, vy, hue }
}

/// After any run of ticks the hue has advanced by the tick count times the
/// hue step, reduced to the wheel: hue animation is exact over whole runs.
pub proof fn lemma_hue_cycles(p: PState, w: int, h: int, k: nat)
    requires
        0 <= p.hue < HUE_WHEEL as int,
    ensures
        step_many(p, w, h, k).hue == (p.hue + k * HUE_STEP) % (HUE_WHEEL as int),
    decreases k,
{
    let wheel = HUE_WHEEL as int;
    if k == 0 {
        lemma_small_mod(p.hue as nat, HUE_WHEEL as nat);
    } else {
        lemma_hue_cycles(p, w, h, (k - 1) as nat);
        let prev = step_many(p, w, h, (k - 1) as nat);
        assert(prev.hue == (p.hue + (k - 1) * HUE_STEP) % wheel);
        assert(step_many(p, w, h, k).hue == (prev.hue + HUE_STEP) % wheel);
        lemma_small_mod(HUE_STEP as nat, HUE_WHEEL as nat);
        lemma_add_mod_noop(p.hue + (k - 1) * HUE_STEP, HUE_STEP as int, wheel);
        assert(p.hue + (k - 1) * HUE_STEP + HUE_STEP == p.hue + k * HUE_STEP) by (nonlinear_arith);
    }
}

/// A wall crossing on the right ends the tick exactly on the wall, with the
/// horizontal velocity reflected and damped, when no floor or ceiling
/// contact happens the same tick.
pub proof fn lemma_wall_bounce_right(p: PState, w: int, h: int)
    requires
        0 <= w,
        0 <= h,
        p.x + p.vx > w,
        0 <= p.y + p.vy + GRAVITY <= h,
    ensures
        step_spec(p, w, h).x == w,
        step_spec(p, w, h).vx == bounced(p.vx),
{
}

/// A floor crossing ends the tick exactly on the floor, with the vertical
/// velocity reflected and damped and the horizontal velocity rubbed by
/// friction, when no wall crossing happens the same tick.
pub proof fn lemma_floor_contact(p: PState, w: int, h: int)
    requires
        0 <= h,
        0 <= p.x + p.vx <= w,
        p.y + p.vy + GRAVITY > h,
    ensures
        step_spec(p, w, h).y == h,
        step_spec(p, w, h).vy == bounced(p.vy + GRAVITY),
        step_spec(p, w, h).vx == with_friction(p.vx),
{
}

/// An impulse centered exactly on a particle pushes it along the positive x
/// axis with the full force: the direction is fixed, never undefined.
pub proof fn lemma_impulse_at_center(px: int, py: int)
    ensures
        impulse_spec(px, py, px, py) == (EXPLOSION_FORCE as int, 0int),
{
    let rr = EXPLOSION_RADIUS as int;
    let ff = EXPLOSION_FORCE as int;
    assert(dist2_of(px, py, px, py) == 0) by (nonlinear_arith);
    assert(rr * rr > 0) by (nonlinear_arith)
        requires
            rr > 0,
    ;
    assert(isq(0nat) == 0);
    assert((ff * (rr - 0)) / rr == ff) by (nonlinear_arith)
        requires
            rr > 0,
    ;
}

/// A particle at distance `EXPLOSION_RADIUS` or beyond is left untouched by
/// an impulse.
pub proof fn lemma_impulse_out_of_range(px: int, py: int, cx: int, cy: int)
    requires
        dist2_of(px, py, cx, cy) >= (EXPLOSION_RADIUS as int) * (EXPLOSION_RADIUS as int),
    ensures
        impulse_spec(px, py, cx, cy) == (0int, 0int),
{
}

} // verus!
