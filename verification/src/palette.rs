//! Mapping of 24-bit colours onto the 256-colour terminal palette.

use vstd::prelude::*;

verus! {

/// Index of the colour cube entry for channel levels in `0..=5`.
pub open spec fn cube_index(r: int, g: int, b: int) -> int {
    16 + 36 * r + 6 * g + b
}

/// One of the six levels of a colour cube axis that a channel value falls on.
pub open spec fn cube_level(v: int) -> int {
    v * 5 / 255
}

/// The entry of the 256-colour palette that stands for the colour `(r, g, b)`.
///
/// Greys go to the 24-step ramp at 232..=255, with black and white taken from
/// the colour cube; every other colour goes to its cell of the 6x6x6 cube.
pub open spec fn ansi256(r: u8, g: u8, b: u8) -> int {
    if r == g && g == b {
        if r < 8 {
            16
        } else if r > 248 {
            231
        } else {
            (r - 8) * 24 / 247 + 232
        }
    } else {
        cube_index(cube_level(r as int), cube_level(g as int), cube_level(b as int))
    }
}

/// Picks the entry of the 256-colour palette for the colour `(r, g, b)`.
pub fn rgb_to_ansi256(r: u8, g: u8, b: u8) -> (idx: u8)
    ensures
        idx == ansi256(r, g, b),
{
    if r == g && g == b {
        if r < 8 {
            16
        } else if r > 248 {
            231
        } else {
            let step: u16 = (r as u16 - 8) * 24 / 247;
            step as u8 + 232
        }
    } else {
        let r6: u8 = (r as u16 * 5 / 255) as u8;
        let g6: u8 = (g as u16 * 5 / 255) as u8;
        let b6: u8 = (b as u16 * 5 / 255) as u8;
        16 + 36 * r6 + 6 * g6 + b6
    }
}

} // verus!
