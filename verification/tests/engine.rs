//! The simulation engine: launching, ticking, impulses, reset.
//!
//! Everything is in fixed-point units: 10_000 units per pixel or degree.

use particle_sim::sample::{sample_dir, FixedSeedSource, OsSource};
use particle_sim::system::ParticleSystem;

const S: i64 = 10_000;
const WHEEL: u64 = 3_600_000;

#[test]
fn spawn_is_at_cannon_origin_with_bounded_launch() {
    let mut src = FixedSeedSource::new(42);
    let sys = ParticleSystem::new(800, 600, 3, &mut src);
    assert_eq!(sys.num_particles(), 3);
    assert_eq!(sys.get_frame_count(), 0);
    assert_eq!(sys.surface_width(), 800 * S);
    assert_eq!(sys.surface_height(), 600 * S);
    for i in 0..3 {
        let p = sys.particle_at(i);
        assert_eq!(p.x, 400 * S);
        assert_eq!(p.y, 150 * S);
        assert!(p.hue < WHEEL);
        assert!(p.vx.abs() <= 30_000);
        assert!(p.vy.abs() <= 60_000);
        // Removing the upward bias leaves the launch vector, whose magnitude
        // is the drawn speed from [1.0, 3.0) up to truncation slack.
        let speed2 = p.vx * p.vx + (p.vy + 30_000) * (p.vy + 30_000);
        assert!(9_970 * 9_970 <= speed2);
        assert!(speed2 <= 30_029 * 30_029);
    }
}

#[test]
fn update_moves_each_particle_by_velocity_plus_gravity() {
    let mut src = FixedSeedSource::new(7);
    let mut sys = ParticleSystem::new(800, 600, 3, &mut src);
    let before: Vec<_> = (0..3).map(|i| sys.particle_at(i)).collect();
    sys.update();
    assert_eq!(sys.get_frame_count(), 1);
    for i in 0..3 {
        let p = &before[i];
        let q = sys.particle_at(i);
        assert_eq!(q.x, p.x + p.vx);
        assert_eq!(q.y, p.y + p.vy + 2);
        assert_eq!(q.vx, p.vx);
        assert_eq!(q.vy, p.vy + 2);
        assert_eq!(q.hue, (p.hue + 3_000) % WHEEL);
    }
}

#[test]
fn hue_advances_three_tenths_of_a_degree_every_tick() {
    let mut src = FixedSeedSource::new(3);
    let mut sys = ParticleSystem::new(800, 600, 1, &mut src);
    let start = sys.particle_at(0).hue;
    for k in 1..=10u64 {
        let before = sys.particle_at(0).hue;
        sys.update();
        let after = sys.particle_at(0).hue;
        assert_eq!(after, (before + 3_000) % WHEEL);
        assert_eq!(after, (start + k * 3_000) % WHEEL);
    }
}

#[test]
fn right_wall_crossing_clamps_and_reflects_damped() {
    let mut src = FixedSeedSource::new(11);
    // A one-pixel-wide surface: after a strong rightward impulse the next
    // tick must cross the right wall.
    let mut sys = ParticleSystem::new(1, 100, 1, &mut src);
    let w = sys.surface_width();
    assert_eq!(w, S);
    // Center at the left edge, level with the particle: distance 5_000,
    // impulse (8.0 * (1 - 5_000 / 2_000_000)) = 7.98 px/frame, rightward.
    sys.explode(0, sys.particle_at(0).y);
    let p = sys.particle_at(0);
    assert!(p.vx >= 49_800);
    assert!(p.x + p.vx > w);
    sys.update();
    let q = sys.particle_at(0);
    assert_eq!(q.x, w);
    assert_eq!(q.vx, -(p.vx * 85 / 100));
    assert!(q.vx < 0);
    assert_eq!(q.y, p.y + p.vy + 2);
}

#[test]
fn floor_crossing_lands_exactly_with_damping_and_friction() {
    let mut src = FixedSeedSource::new(13);
    // A four-pixel-tall surface: two strong downward impulses make the next
    // tick cross the floor.
    let mut sys = ParticleSystem::new(200, 4, 1, &mut src);
    let h = sys.surface_height();
    assert_eq!(h, 4 * S);
    let spawn = sys.particle_at(0);
    assert_eq!(spawn.x, 100 * S);
    assert_eq!(spawn.y, S);
    sys.explode(spawn.x, spawn.y - 5_000);
    sys.explode(spawn.x, spawn.y - 5_000);
    let p = sys.particle_at(0);
    assert!(p.vy >= 99_600);
    assert!(p.y + p.vy + 2 > h);
    sys.update();
    let q = sys.particle_at(0);
    assert_eq!(q.y, h);
    assert_eq!(q.vy, -((p.vy + 2) * 85 / 100));
    assert!(q.vy < 0);
    assert_eq!(q.vx, p.vx * 98 / 100);
    assert_eq!(q.x, p.x + p.vx);
}

#[test]
fn explosion_at_exact_location_pushes_with_full_force() {
    let mut src = FixedSeedSource::new(21);
    let mut sys = ParticleSystem::new(800, 600, 3, &mut src);
    let before: Vec<_> = (0..3).map(|i| sys.particle_at(i)).collect();
    // All three particles sit exactly at the cannon origin.
    sys.explode(400 * S, 150 * S);
    assert_eq!(sys.get_frame_count(), 0);
    for i in 0..3 {
        let p = &before[i];
        let q = sys.particle_at(i);
        // Impulse of magnitude exactly 8.0 px/frame along the positive x
        // axis: the degenerate direction is fixed, never undefined.
        assert_eq!(q.vx, p.vx + 80_000);
        assert_eq!(q.vy, p.vy);
        assert_eq!(q.x, p.x);
        assert_eq!(q.y, p.y);
        assert_eq!(q.hue, p.hue);
    }
}

#[test]
fn explosion_force_decays_linearly_with_distance() {
    let mut src = FixedSeedSource::new(41);
    let mut sys = ParticleSystem::new(800, 600, 1, &mut src);
    let p = sys.particle_at(0);
    // Center 100 pixels left of the particle: half the radius away, so the
    // impulse is half the full force, 4.0 px/frame, rightward.
    sys.explode(p.x - 100 * S, p.y);
    let q = sys.particle_at(0);
    assert_eq!(q.vx, p.vx + 40_000);
    assert_eq!(q.vy, p.vy);
}

#[test]
fn explosion_at_radius_or_beyond_leaves_velocity_unchanged() {
    let mut src = FixedSeedSource::new(23);
    let mut sys = ParticleSystem::new(800, 600, 2, &mut src);
    let before: Vec<_> = (0..2).map(|i| sys.particle_at(i)).collect();
    // Exactly 200 pixels left of the spawn point: distance == the radius.
    sys.explode(200 * S, 150 * S);
    // And farther still.
    sys.explode(100 * S, 150 * S);
    for i in 0..2 {
        let p = &before[i];
        let q = sys.particle_at(i);
        assert_eq!(q.vx, p.vx);
        assert_eq!(q.vy, p.vy);
    }
}

#[test]
fn reset_restores_count_and_zeroes_the_frame_counter() {
    let mut src = FixedSeedSource::new(31);
    let mut sys = ParticleSystem::new(800, 600, 5, &mut src);
    sys.update();
    sys.update();
    sys.explode(400 * S, 150 * S);
    sys.update();
    assert_eq!(sys.get_frame_count(), 3);
    sys.reset(&mut src);
    assert_eq!(sys.num_particles(), 5);
    assert_eq!(sys.get_frame_count(), 0);
    for i in 0..5 {
        let p = sys.particle_at(i);
        assert_eq!(p.x, 400 * S);
        assert_eq!(p.y, 150 * S);
        assert!(p.hue < WHEEL);
        assert!(p.vx.abs() <= 30_000);
        assert!(p.vy.abs() <= 60_000);
        let speed2 = p.vx * p.vx + (p.vy + 30_000) * (p.vy + 30_000);
        assert!(9_970 * 9_970 <= speed2);
        assert!(speed2 <= 30_029 * 30_029);
    }
}

#[test]
fn same_seed_replays_the_same_launch() {
    let mut a = FixedSeedSource::new(99);
    let mut b = FixedSeedSource::new(99);
    let sys_a = ParticleSystem::new(640, 480, 8, &mut a);
    let sys_b = ParticleSystem::new(640, 480, 8, &mut b);
    for i in 0..8 {
        assert_eq!(sys_a.particle_at(i), sys_b.particle_at(i));
    }
}

#[test]
fn os_backed_source_launches_within_the_contract() {
    let mut src = OsSource::new();
    let mut sys = ParticleSystem::new(640, 480, 4, &mut src);
    assert_eq!(sys.num_particles(), 4);
    for i in 0..4 {
        let p = sys.particle_at(i);
        assert_eq!(p.x, 320 * S);
        assert_eq!(p.y, 120 * S);
        assert!(p.hue < WHEEL);
        assert!(p.vx.abs() <= 30_000);
        assert!(p.vy.abs() <= 60_000);
    }
    sys.update();
    assert_eq!(sys.get_frame_count(), 1);
}

#[test]
fn sampled_directions_are_unit_bounded() {
    let mut src = FixedSeedSource::new(5);
    for _ in 0..32 {
        let d = sample_dir(&mut src);
        assert!(d.cos.abs() <= S);
        assert!(d.sin.abs() <= S);
        // The direction lies on the unit circle up to truncation: its
        // magnitude is within 7 units of one, so never the zero vector.
        let m2 = d.cos * d.cos + d.sin * d.sin;
        assert!((S - 7) * (S - 7) <= m2);
        assert!(m2 <= (S + 7) * (S + 7));
    }
}
