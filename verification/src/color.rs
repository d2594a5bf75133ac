//! HSL to RGB conversion for the particle colors, in fixed point.
//!
//! The simulation colors every particle with full saturation and half
//! lightness, so the chroma is exactly one and the lightness offset is zero:
//! only the hue varies. Channels are `SCALE`-scaled values in `[0, 1]`.

use vstd::prelude::*;
use vstd::arithmetic::div_mod::{lemma_div_is_ordered, lemma_div_pos_is_pos};
use crate::{HUE_WHEEL, SCALE};
use crate::math::mag;

verus! {

/// One sextant of the hue wheel (60 degrees), scaled.
pub const HUE_SIXTH: i64 = 600_000;

/// Two sextants of the hue wheel (120 degrees), scaled.
pub const HUE_THIRD: i64 = 1_200_000;

/// A color as three `SCALE`-scaled channels in `[0, 1]`.
#[derive(Clone, Copy, PartialEq, Eq, Structural, Debug)]
pub struct Rgb {
    pub red: i64,
    pub green: i64,
    pub blue: i64,
}

/// The triangular secondary component `X = 1 - |(H' mod 2) - 1|`, scaled.
pub open spec fn x_of(h: int) -> int {
    SCALE - mag(h % (HUE_THIRD as int) - HUE_SIXTH) / 60
}

/// The red channel for hue `h` at full saturation and half lightness.
pub open spec fn red_of(h: int) -> int {
    let sextant = h / (HUE_SIXTH as int);
    if sextant == 0 || sextant == 5 {
        SCALE as int
    } else if sextant == 1 || sextant == 4 {
        x_of(h)
    } else {
        0
    }
}

/// The green channel for hue `h` at full saturation and half lightness.
pub open spec fn green_of(h: int) -> int {
    let sextant = h / (HUE_SIXTH as int);
    if sextant == 1 || sextant == 2 {
        SCALE as int
    } else if sextant == 0 || sextant == 3 {
        x_of(h)
    } else {
        0
    }
}

/// The blue channel for hue `h` at full saturation and half lightness.
pub open spec fn blue_of(h: int) -> int {
    let sextant = h / (HUE_SIXTH as int);
    if sextant == 3 || sextant == 4 {
        SCALE as int
    } else if sextant == 2 || sextant == 5 {
        x_of(h)
    } else {
        0
    }
}

/// Converts a hue to its RGB triple at full saturation and half lightness.
pub fn hsl_to_rgb(h: u64) -> (out: Rgb)
    requires
        h < HUE_WHEEL as u64,
    ensures
        out.red as int == red_of(h as int),
        out.green as int == green_of(h as int),
        out.blue as int == blue_of(h as int),
        0 <= out.red <= SCALE,
        0 <= out.green <= SCALE,
        0 <= out.blue <= SCALE,
{
    let sextant: u64 = h / (HUE_SIXTH as u64);
    proof {
        lemma_div_is_ordered(h as int, HUE_WHEEL - 1, HUE_SIXTH as int);
        assert(sextant <= 5);
    }
    let rem: u64 = h % (HUE_THIRD as u64);
    let diff: u64 = if rem >= HUE_SIXTH as u64 {
        rem - HUE_SIXTH as u64
    } else {
        HUE_SIXTH as u64 - rem
    };
    assert(diff as int == mag(h as int % (HUE_THIRD as int) - HUE_SIXTH));
    let x: i64 = SCALE - (diff / 60) as i64;
    assert(0 <= x <= SCALE);
    assert(x as int == x_of(h as int));
    let full: i64 = SCALE;
    if sextant == 0 {
        Rgb { red: full, green: x, blue: 0 }
    } else if sextant == 1 {
        Rgb { red: x, green: full, blue: 0 }
    } else if sextant == 2 {
        Rgb { red: 0, green: full, blue: x }
    } else if sextant == 3 {
        Rgb { red: 0, green: x, blue: full }
    } else if sextant == 4 {
        Rgb { red: x, green: 0, blue: full }
    } else {
        assert(sextant == 5);
        Rgb { red: full, green: 0, blue: x }
    }
}

/// The display byte a unit channel maps to: `c * 255 / SCALE`, truncated
/// toward zero.
pub open spec fn byte_of(c: int) -> int {
    (c * 255) / (SCALE as int)
}

/// Maps a `SCALE`-scaled unit channel to its display byte.
pub fn channel_byte(c: i64) -> (out: u8)
    requires
        0 <= c <= SCALE,
    ensures
        out as int == byte_of(c as int),
{
    let p: u64 = (c as u64) * 255;
    proof {
        lemma_div_is_ordered(p as int, 255 * SCALE as int, SCALE as int);
        lemma_div_pos_is_pos(p as int, SCALE as int);
    }
    (p / (SCALE as u64)) as u8
}

} // verus!
