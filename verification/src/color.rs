//! RGB pixel colors, the unit a tile's pixel buffer is made of.

use vstd::prelude::*;

verus! {

/// One pixel: red, green and blue channels, each `0..=255`.
#[derive(Clone, Copy, Debug, PartialEq, Eq, Structural)]
pub struct Color {
    pub r: u8,
    pub g: u8,
    pub b: u8,
}

impl Color {
    /// Builds a color from its three channels.
    pub fn rgb(r: u8, g: u8, b: u8) -> (c: Self)
        ensures
            c == (Color { r, g, b }),
    {
        Self { r, g, b }
    }
}

} // verus!
