//! Decoded frames.

use vstd::prelude::*;

verus! {

/// A decoded frame: `width * height` pixels, four bytes each (red, green,
/// blue, alpha), row by row.
#[derive(Debug)]
pub struct Raster {
    pub width: u32,
    pub height: u32,
    pub pixels: Vec<u8>,
}

impl View for Raster {
    /// The width, the height and the pixel bytes.
    type V = (u32, u32, Seq<u8>);

    open spec fn view(&self) -> (u32, u32, Seq<u8>) {
        (self.width, self.height, self.pixels@)
    }
}

/// Whether a pixel buffer has exactly the bytes of a `width` by `height`
/// RGBA image.
pub open spec fn fills(width: u32, height: u32, pixels: Seq<u8>) -> bool {
    pixels.len() == width as int * height as int * 4
}

impl Raster {
    /// Whether the pixel buffer has the length that the dimensions ask for.
    pub fn is_filled(&self) -> (b: bool)
        ensures
            b == fills(self.width, self.height, self.pixels@),
    {
        assert(self.width as int * self.height as int * 4 <= u128::MAX) by (nonlinear_arith)
            requires
                self.width <= u32::MAX,
                self.height <= u32::MAX,
        ;
        let wanted: u128 = self.width as u128 * self.height as u128 * 4;
        self.pixels.len() as u128 == wanted
    }
}

} // verus!
