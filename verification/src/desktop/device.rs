//! What the device says of its screen and its gestures.

use vstd::prelude::*;

use crate::numbers::{dec, dec_int, to_dec_int};

verus! {

/// The density at which a screen is not scaled.
pub const BASELINE_DPI: i32 = 160;

/// The density of the screen, where it was measured.
pub fn density_dpi(measured: Option<i32>) -> (r: i32)
    ensures
        r == (match measured {
            Some(d) => d,
            None => BASELINE_DPI,
        }),
{
    match measured {
        Some(d) => d,
        None => BASELINE_DPI,
    }
}

/// How far a finger may travel before it scrolls, in pixels.
pub fn touch_slop_px(measured: Option<i32>) -> (r: i32)
    ensures
        r == (match measured {
            Some(d) => d,
            None => 24i32,
        }),
{
    match measured {
        Some(d) => d,
        None => 24,
    }
}

/// How long a finger must stay put for a long press, in milliseconds.
pub fn long_press_timeout_ms(measured: Option<i32>) -> (r: u64)
    ensures
        r == (match measured {
            Some(t) => if t < 0 {
                0
            } else {
                t as int
            },
            None => 500,
        }),
{
    match measured {
        Some(t) => if t < 0 {
            0
        } else {
            t as u64
        },
        None => 500,
    }
}

/// A number, and at least one.
pub open spec fn at_least_one(n: int) -> int {
    if n < 1 {
        1
    } else {
        n
    }
}

/// The whole number nearest to the density over that of a screen that is not
/// scaled, and at least one. Halves go up.
pub open spec fn surface_scale(density: int) -> int {
    at_least_one((density + 80) / 160)
}

/// The whole number nearest to a tenth more than the density asks for, and at
/// least one. Halves go up.
pub open spec fn font_scale(density: int) -> int {
    at_least_one((11 * density + 800) / 1600)
}

/// The whole number by which the guest scales its surfaces.
pub fn guest_scale(density_dpi: i32) -> (r: i32)
    ensures
        r == surface_scale(density_dpi as int),
{
    if density_dpi < 0 {
        return 1;
    }
    let q: i64 = (density_dpi as i64 + 80) / 160;
    if q < 1 {
        1
    } else {
        q as i32
    }
}

/// The whole number by which the desktop of the guest scales its fonts: a tenth
/// more than the density asks for.
pub fn android_ui_scale(density_dpi: i32) -> (r: i32)
    ensures
        r == font_scale(density_dpi as int),
{
    if density_dpi < 0 {
        return 1;
    }
    let q: i64 = (11 * density_dpi as i64 + 800) / 1600;
    if q < 1 {
        1
    } else {
        q as i32
    }
}

/// The file that tells the guest the geometry of the window.
pub open spec fn output_state(width: int, height: int, scale: int) -> Seq<char> {
    "LOCALDESKTOP_OUTPUT_MODE="@ + dec_int(width) + "x"@ + dec_int(height)
        + "\nLOCALDESKTOP_OUTPUT_SCALE="@ + dec_int(scale) + "\n"@
}

/// What to write so that the guest knows the geometry of the window; nothing
/// where there is no window.
pub fn write_guest_output_state(width: i32, height: i32, scale: i32) -> (r: Option<String>)
    ensures
        match r {
            Some(s) => width > 0 && height > 0 && scale > 0 && s@ == output_state(
                width as int,
                height as int,
                scale as int,
            ),
            None => width <= 0 || height <= 0 || scale <= 0,
        },
{
    if width <= 0 || height <= 0 || scale <= 0 {
        return None;
    }
    let w = to_dec_int(width as i64);
    let h = to_dec_int(height as i64);
    let n = to_dec_int(scale as i64);
    let mut s = "LOCALDESKTOP_OUTPUT_MODE=".to_owned();
    s.append(w.as_str());
    s.append("x");
    s.append(h.as_str());
    s.append("\nLOCALDESKTOP_OUTPUT_SCALE=");
    s.append(n.as_str());
    s.append("\n");
    Some(s)
}

/// Scales are at least one, and a denser screen is never scaled less.
pub proof fn law_scales_rise_with_density(a: int, b: int)
    requires
        a <= b,
    ensures
        1 <= surface_scale(a) <= surface_scale(b),
        1 <= font_scale(a) <= font_scale(b),
{
}

/// Scales are the nearest whole numbers: surfaces are scaled by the density over
/// that of a screen that is not scaled, fonts by a tenth more. Below that, both
/// are one.
pub proof fn law_scales_are_nearest(density: int)
    ensures
        density >= 80 ==> 160 * surface_scale(density) - 80 <= density < 160 * surface_scale(
            density,
        ) + 80,
        density < 240 ==> surface_scale(density) == 1,
        11 * density >= 800 ==> 1600 * font_scale(density) - 800 <= 11 * density < 1600
            * font_scale(density) + 800,
        11 * density < 2400 ==> font_scale(density) == 1,
{
}

/// The guest reads the geometry of the window back: its size and its scale, each
/// on a line of its own.
pub proof fn law_the_guest_is_told_the_geometry(width: nat, height: nat, scale: nat)
    ensures
        output_state(width as int, height as int, scale as int)
            == "LOCALDESKTOP_OUTPUT_MODE="@ + dec(width) + "x"@ + dec(height)
            + "\nLOCALDESKTOP_OUTPUT_SCALE="@ + dec(scale) + "\n"@,
{
}

} // verus!
