//! Pixel values.

use vstd::prelude::*;

verus! {

/// One RGBA pixel. Two colors are the same exactly when all four channels
/// are the same; there is no tolerance and no color-space conversion.
#[derive(Clone, Copy, Debug, PartialEq, Eq, Structural)]
pub struct Color {
    pub r: u8,
    pub g: u8,
    pub b: u8,
    pub a: u8,
}

impl Color {
    /// The pixel every fresh grid is filled with: all channels zero.
    pub open spec fn transparent() -> Color {
        Color { r: 0, g: 0, b: 0, a: 0 }
    }

    /// The color with the given channels.
    pub fn new(r: u8, g: u8, b: u8, a: u8) -> (c: Color)
        ensures
            c == (Color { r, g, b, a }),
    {
        Color { r, g, b, a }
    }

    /// The empty pixel, as an executable value.
    pub fn empty() -> (c: Color)
        ensures
            c == Color::transparent(),
    {
        Color { r: 0, g: 0, b: 0, a: 0 }
    }
}

} // verus!
