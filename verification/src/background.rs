//! Solid-color backgrounds and the packed-pixel color type.

use vstd::prelude::*;

verus! {

/// An RGBA color with 8-bit channels.
#[derive(Debug, Clone, Copy, PartialEq, Eq, Structural)]
pub struct Color {
    pub r: u8,
    pub g: u8,
    pub b: u8,
    pub a: u8,
}

/// The packed `0x00RRGGBB` form of a color, alpha dropped.
pub open spec fn spec_pack_rgb(c: Color) -> int {
    c.r as int * 0x10000 + c.g as int * 0x100 + c.b as int
}

impl Color {
    pub fn new(r: u8, g: u8, b: u8, a: u8) -> (c: Color)
        ensures
            c == (Color { r, g, b, a }),
    {
        Color { r, g, b, a }
    }

    /// Packs the color as `0x00RRGGBB`, dropping alpha.
    pub fn to_u32(self) -> (p: u32)
        ensures
            p == spec_pack_rgb(self),
    {
        self.r as u32 * 0x10000 + self.g as u32 * 0x100 + self.b as u32
    }
}

/// A background fill.
#[derive(Debug, Clone, Copy, PartialEq, Eq, Structural)]
pub enum Background {
    /// A solid color.
    Color(Color),
}

impl From<Color> for Background {
    fn from(color: Color) -> Background {
        Background::Color(color)
    }
}

impl vstd::std_specs::convert::FromSpecImpl<Color> for Background {
    open spec fn obeys_from_spec() -> bool {
        true
    }

    open spec fn from_spec(color: Color) -> Background {
        Background::Color(color)
    }
}

} // verus!
