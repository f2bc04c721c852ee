//! Color samples and packing of a sample into a display pixel word.

use vstd::prelude::*;

verus! {

/// A packed display pixel: `0x00RRGGBB`.
pub type PackedColor = u32;

/// A linear-light color sample, one word per channel. A channel value of
/// `0` stands for no intensity and `u32::MAX` for full intensity; the
/// gamma curve and the quantization to 8 bits per channel live outside
/// the engine.
#[derive(Clone, Copy, PartialEq, Eq, Structural, Debug)]
pub struct Color {
    pub x: u32,
    pub y: u32,
    pub z: u32,
}

impl Color {
    pub fn new(x: u32, y: u32, z: u32) -> (c: Color)
        ensures
            c == (Color { x, y, z }),
    {
        Color { x, y, z }
    }
}

impl Default for Color {
    /// The all-zero (black) sample that freshly allocated pixel buffers
    /// hold.
    fn default() -> (c: Color)
        ensures
            c == (Color { x: 0, y: 0, z: 0 }),
    {
        Color { x: 0, y: 0, z: 0 }
    }
}

/// Packs three 8-bit channels into one display pixel word as
/// `(r << 16) | (g << 8) | b`.
pub fn packed_color_from_u8_rgb(r: u8, g: u8, b: u8) -> (p: PackedColor)
    ensures
        p == (r as int) * 0x10000 + (g as int) * 0x100 + (b as int),
        p <= 0xFFFFFF,
{
    let r32: u32 = r as u32;
    let g32: u32 = g as u32;
    let b32: u32 = b as u32;
    let p: u32 = (r32 << 16u32) | (g32 << 8u32) | b32;
    proof {
        assert(p == r32 * 0x10000 + g32 * 0x100 + b32 && p <= 0xFFFFFF) by (bit_vector)
            requires
                r32 < 256,
                g32 < 256,
                b32 < 256,
                p == (r32 << 16u32) | (g32 << 8u32) | b32,
        ;
    }
    p
}

} // verus!
