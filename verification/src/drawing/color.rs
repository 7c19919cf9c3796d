//! Display colors: 8-bit channels packed into one word.

use vstd::prelude::*;

verus! {

use crate::math::scalar::SCALE;
use crate::math::scalar::Scalar;
use crate::math::vector::Vector;

/// The display byte for a unit-range channel: `(c + 1) / 2 * 255`, rounded
/// to nearest and saturated into `[0, 255]`.
pub open spec fn unit_to_u8_spec(c: int) -> int {
    if c <= -SCALE {
        0
    } else if c >= SCALE {
        255
    } else {
        ((c + SCALE) * 255 + SCALE) / (2 * SCALE)
    }
}

/// Map a unit-range channel to its display byte.
pub fn unit_to_u8(unit: Scalar) -> (r: u8)
    ensures
        r == unit_to_u8_spec(unit@),
{
    if unit.raw <= -SCALE {
        0
    } else if unit.raw >= SCALE {
        255
    } else {
        let num = (unit.raw + SCALE) * 255 + SCALE;
        proof {
            assert(0 <= num < 2 * SCALE * 256);
            vstd::arithmetic::div_mod::lemma_div_is_ordered(
                num as int,
                2 * SCALE * 256 - 1,
                2 * SCALE,
            );
            vstd::arithmetic::div_mod::lemma_div_pos_is_pos(num as int, 2 * (SCALE as int));
        }
        (num / (2 * SCALE)) as u8
    }
}

/// An opaque display color.
#[derive(Clone, Copy, PartialEq, Eq, Structural, Debug)]
pub struct Color {
    pub r: u8,
    pub g: u8,
    pub b: u8,
}

impl Color {
    /// The color with the given channels.
    pub fn rgb(r: u8, g: u8, b: u8) -> (c: Color)
        ensures
            c == (Color { r, g, b }),
    {
        Color { r, g, b }
    }

    /// The channels packed into one word: red, green, blue from the top
    /// byte down, lowest byte clear.
    pub fn as_rgb_u32(&self) -> (w: u32)
        ensures
            w == self.r * 0x100_0000 + self.g * 0x1_0000 + self.b * 0x100,
    {
        let w = ((self.r as u32) << 24) | ((self.g as u32) << 16) | ((self.b as u32) << 8);
        proof {
            let r = self.r;
            let g = self.g;
            let b = self.b;
            assert((((r as u32) << 24) | ((g as u32) << 16) | ((b as u32) << 8)) == r as u32
                * 0x100_0000 + g as u32 * 0x1_0000 + b as u32 * 0x100) by (bit_vector);
        }
        w
    }

    /// The display color of a unit-range vector, channel by channel.
    pub fn from_vector(v: &Vector) -> (c: Color)
        ensures
            c.r == unit_to_u8_spec(v.x@),
            c.g == unit_to_u8_spec(v.y@),
            c.b == unit_to_u8_spec(v.z@),
    {
        Color { r: unit_to_u8(v.x), g: unit_to_u8(v.y), b: unit_to_u8(v.z) }
    }
}

} // verus!
