//! 8-bit RGB colour.

use vstd::prelude::*;

verus! {

/// An 8-bit-per-channel RGB colour.
#[derive(Clone, Copy, Debug, PartialEq, Eq, Structural, Hash)]
pub struct RgbColor {
    pub r: u8,
    pub g: u8,
    pub b: u8,
}

/// The opaque `0xAARRGGBB` packing of a colour.
pub open spec fn argb_spec(c: RgbColor) -> u32 {
    (0xFF00_0000 + c.r as int * 0x1_0000 + c.g as int * 0x100 + c.b as int) as u32
}

impl RgbColor {
    pub fn new(r: u8, g: u8, b: u8) -> (c: RgbColor)
        ensures
            c.r == r,
            c.g == g,
            c.b == b,
    {
        RgbColor { r, g, b }
    }

    pub fn white() -> (c: RgbColor)
        ensures
            c == (RgbColor { r: 255, g: 255, b: 255 }),
    {
        RgbColor { r: 255, g: 255, b: 255 }
    }

    pub fn black() -> (c: RgbColor)
        ensures
            c == (RgbColor { r: 0, g: 0, b: 0 }),
    {
        RgbColor { r: 0, g: 0, b: 0 }
    }

    /// Pack as `0xAARRGGBB` with a fully opaque alpha byte.
    pub fn to_argb(self) -> (v: u32)
        ensures
            v == argb_spec(self),
    {
        let r = self.r as u32;
        let g = self.g as u32;
        let b = self.b as u32;
        let v = 0xFF00_0000u32 | r << 16 | g << 8 | b;
        assert(v == 0xFF00_0000u32 + r * 0x1_0000 + g * 0x100 + b) by (bit_vector)
            requires
                r < 256,
                g < 256,
                b < 256,
                v == 0xFF00_0000u32 | r << 16 | g << 8 | b,
        ;
        v
    }
}

} // verus!
