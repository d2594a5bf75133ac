//! The render adapter's data shaping: normalized position buffers, color
//! buffers, and the software path's sprite list.

use particle_sim::color::{channel_byte, hsl_to_rgb};
use particle_sim::sample::FixedSeedSource;
use particle_sim::system::ParticleSystem;

const S: i64 = 10_000;

#[test]
fn position_buffer_normalizes_to_device_space() {
    let mut src = FixedSeedSource::new(17);
    let sys = ParticleSystem::new(800, 600, 2, &mut src);
    let pos = sys.position_attributes();
    assert_eq!(pos.len(), 4);
    for i in 0..2 {
        // The spawn point (W/2, H/4) maps to x = 0 and y = +1/2 (the
        // vertical axis is flipped for the device convention).
        assert_eq!(pos[2 * i], 0);
        assert_eq!(pos[2 * i + 1], S / 2);
    }
}

#[test]
fn position_buffer_tracks_movement() {
    let mut src = FixedSeedSource::new(19);
    let mut sys = ParticleSystem::new(100, 100, 1, &mut src);
    sys.update();
    let p = sys.particle_at(0);
    let pos = sys.position_attributes();
    let w = sys.surface_width();
    let h = sys.surface_height();
    assert_eq!(pos[0], (2 * S * p.x) / w - S);
    assert_eq!(pos[1], S - (2 * S * p.y) / h);
}

#[test]
fn color_buffer_matches_the_shared_mapping() {
    let mut src = FixedSeedSource::new(29);
    let sys = ParticleSystem::new(320, 240, 3, &mut src);
    let colors = sys.color_attributes();
    assert_eq!(colors.len(), 9);
    for i in 0..3 {
        let rgb = hsl_to_rgb(sys.particle_at(i).hue);
        assert_eq!(colors[3 * i], rgb.red);
        assert_eq!(colors[3 * i + 1], rgb.green);
        assert_eq!(colors[3 * i + 2], rgb.blue);
    }
}

#[test]
fn large_population_keeps_buffers_in_range() {
    let mut src = FixedSeedSource::new(1);
    let mut sys = ParticleSystem::new(1920, 1080, 100_000, &mut src);
    sys.update();
    sys.explode(960 * S, 270 * S);
    sys.update();
    assert_eq!(sys.num_particles(), 100_000);
    assert_eq!(sys.get_frame_count(), 2);
    let pos = sys.position_attributes();
    assert_eq!(pos.len(), 200_000);
    for v in &pos {
        assert!(-S <= *v && *v <= S);
    }
    let colors = sys.color_attributes();
    assert_eq!(colors.len(), 300_000);
    for v in &colors {
        assert!(0 <= *v && *v <= S);
    }
}

#[test]
fn sprites_carry_positions_and_display_bytes() {
    let mut src = FixedSeedSource::new(37);
    let mut sys = ParticleSystem::new(320, 240, 4, &mut src);
    sys.update();
    let sprites = sys.sprites();
    assert_eq!(sprites.len(), 4);
    for i in 0..4 {
        let p = sys.particle_at(i);
        let rgb = hsl_to_rgb(p.hue);
        assert_eq!(sprites[i].x, p.x);
        assert_eq!(sprites[i].y, p.y);
        assert_eq!(sprites[i].red, channel_byte(rgb.red));
        assert_eq!(sprites[i].green, channel_byte(rgb.green));
        assert_eq!(sprites[i].blue, channel_byte(rgb.blue));
        assert_eq!(sprites[i].red as i64, rgb.red * 255 / S);
    }
}
