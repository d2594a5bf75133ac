//! The HSL to RGB mapping at full saturation and half lightness, and the
//! integer helpers under it.

use particle_sim::color::{channel_byte, hsl_to_rgb, Rgb};
use particle_sim::math::isqrt;

const S: i64 = 10_000;

#[test]
fn primary_hues_map_to_pure_channels() {
    // hue 0 -> red, 120 -> green, 240 -> blue, 60 -> yellow.
    assert_eq!(hsl_to_rgb(0), Rgb { red: S, green: 0, blue: 0 });
    assert_eq!(hsl_to_rgb(1_200_000), Rgb { red: 0, green: S, blue: 0 });
    assert_eq!(hsl_to_rgb(2_400_000), Rgb { red: 0, green: 0, blue: S });
    assert_eq!(hsl_to_rgb(600_000), Rgb { red: S, green: S, blue: 0 });
}

#[test]
fn intermediate_hue_interpolates_linearly() {
    // hue 30 degrees: halfway through the first sextant.
    assert_eq!(hsl_to_rgb(300_000), Rgb { red: S, green: S / 2, blue: 0 });
    // hue 300 degrees: magenta, at the start of the last sextant.
    assert_eq!(hsl_to_rgb(3_000_000), Rgb { red: S, green: 0, blue: S });
}

#[test]
fn wheel_end_wraps_toward_red() {
    let almost = hsl_to_rgb(3_599_999);
    assert_eq!(almost.red, S);
    assert_eq!(almost.green, 0);
    assert!(almost.blue < 10);
}

#[test]
fn channel_bytes_truncate_to_display_range() {
    assert_eq!(channel_byte(0), 0);
    assert_eq!(channel_byte(S), 255);
    assert_eq!(channel_byte(S / 2), 127);
    assert_eq!(channel_byte(1), 0);
}

#[test]
fn integer_square_root_brackets_its_input() {
    assert_eq!(isqrt(0), 0);
    assert_eq!(isqrt(1), 1);
    assert_eq!(isqrt(3), 1);
    assert_eq!(isqrt(4), 2);
    assert_eq!(isqrt(2_000_000 * 2_000_000), 2_000_000);
    assert_eq!(isqrt(u64::MAX), 4_294_967_295);
    for n in 0..2_000u64 {
        let r = isqrt(n);
        assert!(r * r <= n);
        assert!(n < (r + 1) * (r + 1));
    }
}
