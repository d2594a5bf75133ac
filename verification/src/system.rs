//! The particle system: the authoritative population of particles, advanced
//! one tick at a time, struck by radial impulses, and projected into the
//! per-frame data both rendering backends consume.

use vstd::prelude::*;
use crate::{
    DIM_LIMIT, EXPLOSION_FORCE, GRAVITY, HUE_WHEEL, LAUNCH_LIFT, LAUNCH_SPEED_SLACK,
    LAUNCH_VEL_MAX, MAX_COUNT, MAX_DIM, SCALE, SPEED_MIN, SPEED_SPAN, VEL_LIMIT,
};
use crate::color::{byte_of, blue_of, channel_byte, green_of, hsl_to_rgb, red_of};
use crate::math::mag;
use crate::particle::{
    impulse_spec, kick, lemma_impulse_bounds, lemma_step_bounds, spawn_particle, step_particle,
    step_spec, Particle, PState,
};
use crate::sample::SampleSource;

verus! {

/// What a rendering backend draws for one particle on the software path:
/// its position and its display color bytes.
#[derive(Clone, Copy, PartialEq, Eq, Structural, Debug)]
pub struct Sprite {
    pub x: i64,
    pub y: i64,
    pub red: u8,
    pub green: u8,
    pub blue: u8,
}

/// A freshly launched particle: at the cannon origin, hue on the wheel,
/// velocity within the launch bounds. Taking the constant upward bias off
/// the vertical velocity leaves the launch vector, whose magnitude is a
/// speed from the drawn range `[1.0, 3.0)` up to `LAUNCH_SPEED_SLACK` units
/// of fixed-point truncation on either side.
pub open spec fn spawned_ok(p: PState, w: int, h: int) -> bool {
    &&& p.x == w / 2
    &&& p.y == h / 4
    &&& 0 <= p.hue < HUE_WHEEL as int
    &&& mag(p.vx) <= SPEED_MIN + SPEED_SPAN
    &&& mag(p.vy) <= LAUNCH_VEL_MAX
    &&& mag(p.vy + LAUNCH_LIFT) < SPEED_MIN + SPEED_SPAN
    &&& (SPEED_MIN - LAUNCH_SPEED_SLACK) * (SPEED_MIN - LAUNCH_SPEED_SLACK) <= p.vx * p.vx + (p.vy
        + LAUNCH_LIFT) * (p.vy + LAUNCH_LIFT)
    &&& p.vx * p.vx + (p.vy + LAUNCH_LIFT) * (p.vy + LAUNCH_LIFT) <= (SPEED_MIN + SPEED_SPAN
        + LAUNCH_SPEED_SLACK) * (SPEED_MIN + SPEED_SPAN + LAUNCH_SPEED_SLACK)
}

/// A particle on the surface, hue on the wheel, velocity under `cap`.
pub open spec fn particle_ok(p: PState, w: int, h: int, cap: int) -> bool {
    &&& 0 <= p.x <= w
    &&& 0 <= p.y <= h
    &&& 0 <= p.hue < HUE_WHEEL as int
    &&& mag(p.vx) <= cap
    &&& mag(p.vy) <= cap
}

/// How an impulse centered at `(cx, cy)` turns particle `p` into `q`: the
/// position and hue are kept, the velocity gains the impulse.
pub open spec fn kicked_rel(p: PState, q: PState, cx: int, cy: int) -> bool {
    &&& q.x == p.x
    &&& q.y == p.y
    &&& q.hue == p.hue
    &&& q.vx == p.vx + impulse_spec(p.x, p.y, cx, cy).0
    &&& q.vy == p.vy + impulse_spec(p.x, p.y, cx, cy).1
}

/// The x coordinate normalized to `[-1, 1]` device space, scaled.
pub open spec fn norm_x(x: int, w: int) -> int {
    (2 * SCALE * x) / w - SCALE
}

/// The y coordinate normalized to `[-1, 1]` device space with the vertical
/// axis flipped, scaled.
pub open spec fn norm_y(y: int, h: int) -> int {
    SCALE - (2 * SCALE * y) / h
}

/// The particle population on its surface.
pub struct ParticleSystem {
    particles: Vec<Particle>,
    width: i64,
    height: i64,
    frame_count: u32,
    particle_count: usize,
    impulse_count: u32,
}

impl ParticleSystem {
    /// The mathematical state of every particle, in storage order.
    pub closed spec fn model(&self) -> Seq<PState> {
        self.particles@.map_values(|p: Particle| p@)
    }

    /// The scaled surface width.
    pub closed spec fn width_s(&self) -> int {
        self.width as int
    }

    /// The scaled surface height.
    pub closed spec fn height_s(&self) -> int {
        self.height as int
    }

    /// Ticks since construction or the last reset.
    pub closed spec fn frames(&self) -> int {
        self.frame_count as int
    }

    /// Impulses since construction or the last reset.
    pub closed spec fn impulses(&self) -> int {
        self.impulse_count as int
    }

    /// The configured population size, kept for reset.
    pub closed spec fn config_count(&self) -> int {
        self.particle_count as int
    }

    /// No reachable velocity magnitude exceeds this: launches start within
    /// `LAUNCH_VEL_MAX`, a tick adds at most the gravity increment, an
    /// impulse at most the explosion force, and bounces only damp.
    pub closed spec fn vel_cap(&self) -> int {
        LAUNCH_VEL_MAX + GRAVITY * (self.frame_count as int) + EXPLOSION_FORCE * (
        self.impulse_count as int)
    }

    /// Well-formedness: the population matches the configured count, the
    /// surface is a positive size within the model's limits, and every
    /// particle sits on the surface with its hue on the wheel and its
    /// velocity under the running cap.
    pub closed spec fn wf(&self) -> bool {
        &&& self.particles@.len() == self.particle_count
        &&& 1 <= self.particle_count <= MAX_COUNT
        &&& SCALE <= self.width <= DIM_LIMIT
        &&& SCALE <= self.height <= DIM_LIMIT
        &&& forall|i: int|
            0 <= i < self.model().len() ==> particle_ok(
                #[trigger] self.model()[i],
                self.width as int,
                self.height as int,
                self.vel_cap(),
            )
    }

    /// The running velocity cap stays under the machine safety bound.
    proof fn lemma_cap_in_limit(&self)
        ensures
            self.vel_cap() <= VEL_LIMIT,
    {
        assert(self.frame_count as int <= 0xFFFF_FFFF);
        assert(self.impulse_count as int <= 0xFFFF_FFFF);
    }

    /// Builds and populates a system of `count` particles on a surface of
    /// `width` by `height` pixels, launching every particle from the cannon
    /// origin with samples from `source`.
    pub fn new<S: SampleSource>(width: u32, height: u32, count: usize, source: &mut S) -> (sys:
        ParticleSystem)
        requires
            1 <= width <= MAX_DIM,
            1 <= height <= MAX_DIM,
            1 <= count <= MAX_COUNT,
        ensures
            sys.wf(),
            sys.frames() == 0,
            sys.impulses() == 0,
            sys.width_s() == width * SCALE,
            sys.height_s() == height * SCALE,
            sys.config_count() == count,
            sys.model().len() == count,
            forall|i: int|
                0 <= i < count ==> spawned_ok(
                    #[trigger] sys.model()[i],
                    width * SCALE,
                    height * SCALE,
                ),
    {
        let w: i64 = (width as i64) * SCALE;
        let h: i64 = (height as i64) * SCALE;
        let particles = populate(source, w, h, count);
        ParticleSystem {
            particles,
            width: w,
            height: h,
            frame_count: 0,
            particle_count: count,
            impulse_count: 0,
        }
    }

    /// Discards the population and relaunches the configured count from the
    /// cannon origin, restarting the tick count: the state after a reset is
    /// one a fresh construction could have produced.
    pub fn reset<S: SampleSource>(&mut self, source: &mut S)
        requires
            old(self).wf(),
        ensures
            final(self).wf(),
            final(self).frames() == 0,
            final(self).impulses() == 0,
            final(self).width_s() == old(self).width_s(),
            final(self).height_s() == old(self).height_s(),
            final(self).config_count() == old(self).config_count(),
            final(self).model().len() == old(self).config_count(),
            forall|i: int|
                0 <= i < final(self).model().len() ==> spawned_ok(
                    #[trigger] final(self).model()[i],
                    old(self).width_s(),
                    old(self).height_s(),
                ),
    {
        let w: i64 = self.width;
        let h: i64 = self.height;
        let count: usize = self.particle_count;
        self.particles = populate(source, w, h, count);
        self.frame_count = 0;
        self.impulse_count = 0;
    }

    /// Advances every particle one tick, independently and in storage order,
    /// then counts the tick.
    pub fn update(&mut self)
        requires
            old(self).wf(),
            old(self).frames() < u32::MAX as int,
        ensures
            final(self).wf(),
            final(self).frames() == old(self).frames() + 1,
            final(self).impulses() == old(self).impulses(),
            final(self).width_s() == old(self).width_s(),
            final(self).height_s() == old(self).height_s(),
            final(self).config_count() == old(self).config_count(),
            final(self).model().len() == old(self).model().len(),
            forall|i: int|
                0 <= i < old(self).model().len() ==> #[trigger] final(self).model()[i]
                    == step_spec(old(self).model()[i], old(self).width_s(), old(self).height_s()),
    {
        let ghost m0 = self.model();
        let ghost cap0 = self.vel_cap();
        proof {
            self.lemma_cap_in_limit();
        }
        let w: i64 = self.width;
        let h: i64 = self.height;
        let n: usize = self.particles.len();
        let mut i: usize = 0;
        while i < n
            invariant
                n == m0.len(),
                self.particles@.len() == n,
                i <= n,
                self.width == old(self).width,
                self.height == old(self).height,
                self.frame_count == old(self).frame_count,
                self.impulse_count == old(self).impulse_count,
                self.particle_count == old(self).particle_count,
                w == old(self).width,
                h == old(self).height,
                old(self).wf(),
                m0 == old(self).model(),
                cap0 == old(self).vel_cap(),
                forall|j: int| i <= j < n ==> #[trigger] self.particles@[j]@ == m0[j],
                forall|j: int|
                    0 <= j < i ==> #[trigger] self.particles@[j]@ == step_spec(
                        m0[j],
                        w as int,
                        h as int,
                    ),
            decreases n - i,
        {
            proof {
                old(self).lemma_cap_in_limit();
                assert(self.particles@[i as int]@ == m0[i as int]);
                assert(0 <= m0[i as int].x <= w as int);
            }
            let p: Particle = self.particles[i];
            let q: Particle = step_particle(p, w, h);
            self.particles[i] = q;
            i = i + 1;
        }
        self.frame_count = self.frame_count + 1;
        proof {
            assert forall|j: int| 0 <= j < n implies particle_ok(
                #[trigger] self.model()[j],
                self.width as int,
                self.height as int,
                self.vel_cap(),
            ) by {
                lemma_step_bounds(m0[j], w as int, h as int, cap0);
            }
        }
    }

    /// Applies a one-shot radial impulse centered at the scaled surface
    /// point `(cx, cy)` to every particle within its radius; positions,
    /// hues and the tick count are untouched.
    pub fn explode(&mut self, cx: i64, cy: i64)
        requires
            old(self).wf(),
            0 <= cx <= old(self).width_s(),
            0 <= cy <= old(self).height_s(),
            old(self).impulses() < u32::MAX as int,
        ensures
            final(self).wf(),
            final(self).frames() == old(self).frames(),
            final(self).impulses() == old(self).impulses() + 1,
            final(self).width_s() == old(self).width_s(),
            final(self).height_s() == old(self).height_s(),
            final(self).config_count() == old(self).config_count(),
            final(self).model().len() == old(self).model().len(),
            forall|i: int|
                0 <= i < old(self).model().len() ==> kicked_rel(
                    old(self).model()[i],
                    #[trigger] final(self).model()[i],
                    cx as int,
                    cy as int,
                ),
    {
        let ghost m0 = self.model();
        let ghost cap0 = self.vel_cap();
        proof {
            self.lemma_cap_in_limit();
        }
        let n: usize = self.particles.len();
        let mut i: usize = 0;
        while i < n
            invariant
                n == m0.len(),
                self.particles@.len() == n,
                i <= n,
                self.width == old(self).width,
                self.height == old(self).height,
                self.frame_count == old(self).frame_count,
                self.impulse_count == old(self).impulse_count,
                self.particle_count == old(self).particle_count,
                0 <= cx <= self.width,
                0 <= cy <= self.height,
                old(self).wf(),
                m0 == old(self).model(),
                cap0 == old(self).vel_cap(),
                forall|j: int| i <= j < n ==> #[trigger] self.particles@[j]@ == m0[j],
                forall|j: int|
                    0 <= j < i ==> kicked_rel(
                        m0[j],
                        #[trigger] self.particles@[j]@,
                        cx as int,
                        cy as int,
                    ),
            decreases n - i,
        {
            proof {
                old(self).lemma_cap_in_limit();
                assert(self.particles@[i as int]@ == m0[i as int]);
            }
            let p: Particle = self.particles[i];
            let q: Particle = kick(p, cx, cy);
            self.particles[i] = q;
            i = i + 1;
        }
        self.impulse_count = self.impulse_count + 1;
        proof {
            assert forall|j: int| 0 <= j < n implies particle_ok(
                #[trigger] self.model()[j],
                self.width as int,
                self.height as int,
                self.vel_cap(),
            ) by {
                lemma_impulse_bounds(m0[j].x, m0[j].y, cx as int, cy as int);
            }
        }
    }

    /// The tick count since construction or the last reset.
    pub fn get_frame_count(&self) -> (out: u32)
        ensures
            out as int == self.frames(),
    {
        self.frame_count
    }

    /// The number of impulses applied since construction or the last reset.
    pub fn num_impulses(&self) -> (out: u32)
        ensures
            out as int == self.impulses(),
    {
        self.impulse_count
    }

    /// The number of particles in the population.
    pub fn num_particles(&self) -> (out: usize)
        ensures
            out as int == self.model().len(),
    {
        self.particles.len()
    }

    /// A read-only snapshot of one particle.
    pub fn particle_at(&self, i: usize) -> (out: Particle)
        requires
            i < self.model().len(),
        ensures
            out@ == self.model()[i as int],
    {
        self.particles[i]
    }

    /// The scaled surface width.
    pub fn surface_width(&self) -> (out: i64)
        ensures
            out as int == self.width_s(),
    {
        self.width
    }

    /// The scaled surface height.
    pub fn surface_height(&self) -> (out: i64)
        ensures
            out as int == self.height_s(),
    {
        self.height
    }

    /// The batched path's position buffer: two normalized device coordinates
    /// per particle, in storage order.
    pub fn position_attributes(&self) -> (out: Vec<i64>)
        requires
            self.wf(),
        ensures
            out@.len() == 2 * self.model().len(),
            forall|i: int|
                0 <= i < self.model().len() ==> {
                    let p = #[trigger] self.model()[i];
                    &&& out@[2 * i] == norm_x(p.x, self.width_s())
                    &&& out@[2 * i + 1] == norm_y(p.y, self.height_s())
                },
    {
        let n: usize = self.particles.len();
        let mut out: Vec<i64> = Vec::new();
        let mut i: usize = 0;
        while i < n
            invariant
                self.wf(),
                n == self.model().len(),
                i <= n,
                out@.len() == 2 * i,
                forall|j: int|
                    0 <= j < i ==> {
                        let p = #[trigger] self.model()[j];
                        &&& out@[2 * j] == norm_x(p.x, self.width_s())
                        &&& out@[2 * j + 1] == norm_y(p.y, self.height_s())
                    },
            decreases n - i,
        {
            let p: Particle = self.particles[i];
            proof {
                assert(p@ == self.model()[i as int]);
                assert(particle_ok(
                    self.model()[i as int],
                    self.width as int,
                    self.height as int,
                    self.vel_cap(),
                ));
            }
            let nx: i64 = norm_coord(p.x, self.width);
            let flipped: i64 = norm_coord(p.y, self.height);
            let ny: i64 = -flipped;
            assert(ny as int == norm_y(p@.y, self.height_s()));
            out.push(nx);
            out.push(ny);
            i = i + 1;
        }
        out
    }

    /// The batched path's color buffer: three `SCALE`-scaled RGB channels
    /// per particle, in storage order.
    pub fn color_attributes(&self) -> (out: Vec<i64>)
        requires
            self.wf(),
        ensures
            out@.len() == 3 * self.model().len(),
            forall|i: int|
                0 <= i < self.model().len() ==> {
                    let p = #[trigger] self.model()[i];
                    &&& out@[3 * i] == red_of(p.hue)
                    &&& out@[3 * i + 1] == green_of(p.hue)
                    &&& out@[3 * i + 2] == blue_of(p.hue)
                },
    {
        let n: usize = self.particles.len();
        let mut out: Vec<i64> = Vec::new();
        let mut i: usize = 0;
        while i < n
            invariant
                self.wf(),
                n == self.model().len(),
                i <= n,
                out@.len() == 3 * i,
                forall|j: int|
                    0 <= j < i ==> {
                        let p = #[trigger] self.model()[j];
                        &&& out@[3 * j] == red_of(p.hue)
                        &&& out@[3 * j + 1] == green_of(p.hue)
                        &&& out@[3 * j + 2] == blue_of(p.hue)
                    },
            decreases n - i,
        {
            let p: Particle = self.particles[i];
            proof {
                assert(p@ == self.model()[i as int]);
                assert(particle_ok(
                    self.model()[i as int],
                    self.width as int,
                    self.height as int,
                    self.vel_cap(),
                ));
            }
            let rgb = hsl_to_rgb(p.hue);
            out.push(rgb.red);
            out.push(rgb.green);
            out.push(rgb.blue);
            i = i + 1;
        }
        out
    }

    /// The software path's draw list: one sprite per particle, in storage
    /// order (later sprites occlude earlier ones), each with its position
    /// and display color bytes.
    pub fn sprites(&self) -> (out: Vec<Sprite>)
        requires
            self.wf(),
        ensures
            out@.len() == self.model().len(),
            forall|i: int|
                0 <= i < self.model().len() ==> {
                    let p = #[trigger] self.model()[i];
                    &&& out@[i].x == p.x
                    &&& out@[i].y == p.y
                    &&& out@[i].red as int == byte_of(red_of(p.hue))
                    &&& out@[i].green as int == byte_of(green_of(p.hue))
                    &&& out@[i].blue as int == byte_of(blue_of(p.hue))
                },
    {
        let n: usize = self.particles.len();
        let mut out: Vec<Sprite> = Vec::new();
        let mut i: usize = 0;
        while i < n
            invariant
                self.wf(),
                n == self.model().len(),
                i <= n,
                out@.len() == i,
                forall|j: int|
                    0 <= j < i ==> {
                        let p = #[trigger] self.model()[j];
                        &&& out@[j].x == p.x
                        &&& out@[j].y == p.y
                        &&& out@[j].red as int == byte_of(red_of(p.hue))
                        &&& out@[j].green as int == byte_of(green_of(p.hue))
                        &&& out@[j].blue as int == byte_of(blue_of(p.hue))
                    },
            decreases n - i,
        {
            let p: Particle = self.particles[i];
            proof {
                assert(p@ == self.model()[i as int]);
                assert(particle_ok(
                    self.model()[i as int],
                    self.width as int,
                    self.height as int,
                    self.vel_cap(),
                ));
            }
            let rgb = hsl_to_rgb(p.hue);
            let sprite = Sprite {
                x: p.x,
                y: p.y,
                red: channel_byte(rgb.red),
                green: channel_byte(rgb.green),
                blue: channel_byte(rgb.blue),
            };
            out.push(sprite);
            i = i + 1;
        }
        out
    }
}

/// One coordinate normalized to `[-1, 1]` device space, scaled: the batched
/// path maps `c` in `[0, side]` to `(c / side) * 2 - 1`.
fn norm_coord(c: i64, side: i64) -> (out: i64)
    requires
        SCALE <= side <= DIM_LIMIT,
        0 <= c <= side,
    ensures
        out as int == norm_x(c as int, side as int),
        -SCALE <= out <= SCALE,
{
    let num: u64 = (2 * SCALE) as u64 * (c as u64);
    let q: u64 = num / (side as u64);
    proof {
        vstd::arithmetic::mul::lemma_mul_inequality(c as int, side as int, 2 * SCALE as int);
        assert(2 * (SCALE as int) * (c as int) == (c as int) * (2 * SCALE as int))
            by (nonlinear_arith);
        assert((side as int) * (2 * SCALE as int) == 2 * (SCALE as int) * (side as int))
            by (nonlinear_arith);
        vstd::arithmetic::div_mod::lemma_div_is_ordered(
            2 * (SCALE as int) * (c as int),
            2 * (SCALE as int) * (side as int),
            side as int,
        );
        assert((2 * (SCALE as int) * (side as int)) / (side as int) == 2 * SCALE)
            by (nonlinear_arith)
            requires
                side as int > 0,
        ;
        vstd::arithmetic::div_mod::lemma_div_pos_is_pos(2 * (SCALE as int) * (c as int), side as int);
    }
    (q as i64) - SCALE
}

/// Launches `count` particles from the cannon origin.
fn populate<S: SampleSource>(source: &mut S, w: i64, h: i64, count: usize) -> (out: Vec<Particle>)
    requires
        SCALE <= w <= DIM_LIMIT,
        SCALE <= h <= DIM_LIMIT,
    ensures
        out@.len() == count,
        forall|i: int| 0 <= i < count ==> spawned_ok((#[trigger] out@[i])@, w as int, h as int),
{
    let mut v: Vec<Particle> = Vec::new();
    let mut i: usize = 0;
    while i < count
        invariant
            v@.len() == i,
            i <= count,
            SCALE <= w <= DIM_LIMIT,
            SCALE <= h <= DIM_LIMIT,
            forall|j: int| 0 <= j < i ==> spawned_ok((#[trigger] v@[j])@, w as int, h as int),
        decreases count - i,
    {
        let p = spawn_particle(source, w, h);
        v.push(p);
        i = i + 1;
    }
    v
}

} // verus!
