//! Screen-space color: display bytes with an alpha channel.

use vstd::prelude::*;

verus! {

use crate::drawing::color::unit_to_u8;
use crate::drawing::color::unit_to_u8_spec;
use crate::math::vector::Vector;

/// A display color with alpha.
#[derive(Clone, Copy, PartialEq, Eq, Structural, Debug)]
pub struct ScreenSpaceColor {
    pub r: u8,
    pub g: u8,
    pub b: u8,
    pub a: u8,
}

impl ScreenSpaceColor {
    /// The fully opaque color with the given channels.
    pub fn rgb(r: u8, g: u8, b: u8) -> (c: ScreenSpaceColor)
        ensures
            c == (ScreenSpaceColor { r, g, b, a: 255u8 }),
    {
        ScreenSpaceColor { r, g, b, a: 255 }
    }

    /// The channels packed into one word: red, green, blue from the top
    /// byte down, lowest byte clear.
    pub fn as_rgb_u32(&self) -> (w: u32)
        ensures
            w == self.r * 0x100_0000 + self.g * 0x1_0000 + self.b * 0x100,
    {
        let w = ((self.r as u32) << 24) | ((self.g as u32) << 16) | ((self.b as u32) << 8);
        proof {
            let r = self.r;
            let g = self.g;
            let b = self.b;
            assert((((r as u32) << 24) | ((g as u32) << 16) | ((b as u32) << 8)) == r as u32
                * 0x100_0000 + g as u32 * 0x1_0000 + b as u32 * 0x100) by (bit_vector);
        }
        w
    }

    /// The display color of a unit-range vector, channel by channel.
    pub fn from_vector(v: &Vector) -> (c: ScreenSpaceColor)
        ensures
            c.r == unit_to_u8_spec(v.x@),
            c.g == unit_to_u8_spec(v.y@),
            c.b == unit_to_u8_spec(v.z@),
            c.a == 255,
    {
        ScreenSpaceColor::rgb(unit_to_u8(v.x), unit_to_u8(v.y), unit_to_u8(v.z))
    }
}

} // verus!
