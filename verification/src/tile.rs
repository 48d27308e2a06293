//! Tiles: fixed-size pixel buffers, the unit of device-side image upload.

use vstd::prelude::*;

use crate::color::Color;

verus! {

/// Mathematical content of a tile: its dimensions and its pixel sequence in
/// row-major order.
#[verifier::ext_equal]
pub ghost struct TileView {
    pub width: int,
    pub height: int,
    pub pixels: Seq<Color>,
}

impl TileView {
    /// A complete tile holds exactly one pixel per cell.
    pub open spec fn wf(self) -> bool {
        self.pixels.len() == self.width * self.height
    }

    /// The device uploads tiles of exactly 8 x 8 pixels.
    pub open spec fn is_8x8(self) -> bool {
        self.width == 8 && self.height == 8 && self.wf()
    }
}

/// A pixel buffer of `width * height` RGB pixels in row-major order.
/// Immutable once constructed.
#[derive(Debug)]
pub struct Tile {
    pub width: u8,
    pub height: u8,
    pub pixels: Vec<Color>,
}

impl View for Tile {
    type V = TileView;

    open spec fn view(&self) -> TileView {
        TileView { width: self.width as int, height: self.height as int, pixels: self.pixels@ }
    }
}

impl Clone for Tile {
    /// Clones the tile; the copy has the same content.
    fn clone(&self) -> (t: Self)
        ensures
            t@ == self@,
    {
        let pixels = self.pixels.clone();
        assert(pixels@ =~= self.pixels@);
        Tile { width: self.width, height: self.height, pixels }
    }
}

impl Tile {
    /// A complete tile of the given dimensions with every pixel black,
    /// the default color.
    pub fn new(width: u8, height: u8) -> (t: Self)
        ensures
            t@.width == width,
            t@.height == height,
            t@.pixels =~= Seq::new((width * height) as nat, |i: int| Color { r: 0, g: 0, b: 0 }),
            t@.wf(),
    {
        Self::filled(width, height, Color { r: 0, g: 0, b: 0 })
    }

    /// A tile of the given dimensions with every pixel set to `color`.
    pub fn filled(width: u8, height: u8, color: Color) -> (t: Self)
        ensures
            t@.width == width,
            t@.height == height,
            t@.pixels =~= Seq::new((width * height) as nat, |i: int| color),
            t@.wf(),
    {
        proof {
            assert(width * height <= 255 * 255) by (nonlinear_arith)
                requires
                    0 <= width <= 255,
                    0 <= height <= 255,
            ;
        }
        let n: usize = (width as usize) * (height as usize);
        let mut pixels: Vec<Color> = Vec::new();
        let mut i: usize = 0;
        while i < n
            invariant
                i <= n,
                pixels@ =~= Seq::new(i as nat, |j: int| color),
            decreases n - i,
        {
            pixels.push(color);
            i = i + 1;
        }
        Self { width, height, pixels }
    }

    /// Wraps an existing pixel buffer, which must hold exactly one pixel per
    /// cell.
    pub fn from_pixels(width: u8, height: u8, pixels: Vec<Color>) -> (t: Self)
        requires
            pixels@.len() == width * height,
        ensures
            t@ == (TileView { width: width as int, height: height as int, pixels: pixels@ }),
            t@.wf(),
    {
        Self { width, height, pixels }
    }
}

} // verus!
