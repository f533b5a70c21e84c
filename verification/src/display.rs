//! The monochrome display surface: a 64x32 grid of boolean pixels,
//! stored row by row in a flat vector. The interpreter paints into it;
//! presenting the pixels on a real screen is the caller's concern.

use vstd::prelude::*;

verus! {

/// Width of the display in pixels.
pub const DISPLAY_WIDTH: usize = 64;

/// Height of the display in pixels.
pub const DISPLAY_HEIGHT: usize = 32;

/// Flat index of the pixel at column `x`, row `y`, with both coordinates
/// wrapping modulo the display dimensions.
pub open spec fn pix_index(x: int, y: int) -> int {
    (y % 32) * 64 + (x % 64)
}

/// A 64x32 grid of on/off pixels, row by row.
pub struct Display {
    pub pixels: Vec<bool>,
}

impl View for Display {
    type V = Seq<bool>;

    open spec fn view(&self) -> Seq<bool> {
        self.pixels@
    }
}

impl Display {
    /// The display holds exactly one boolean per pixel of the 64x32 grid.
    pub open spec fn wf(&self) -> bool {
        self@.len() == 2048
    }

    /// A fresh display with every pixel off.
    pub fn new() -> (d: Display)
        ensures
            d.wf(),
            d@ == Seq::new(2048, |p: int| false),
    {
        let mut pixels: Vec<bool> = Vec::new();
        let mut k: usize = 0;
        while k < 2048
            invariant
                k <= 2048,
                pixels@ == Seq::new(k as nat, |p: int| false),
            decreases 2048 - k,
        {
            pixels.push(false);
            proof {
                assert(pixels@ =~= Seq::new((k + 1) as nat, |p: int| false));
            }
            k = k + 1;
        }
        Display { pixels }
    }

    /// Turn the pixel at (`x`, `y`) on or off; coordinates wrap modulo
    /// the display dimensions.
    pub fn set_pixel(&mut self, x: u8, y: u8, value: bool)
        requires
            old(self).wf(),
        ensures
            final(self).wf(),
            final(self)@ == old(self)@.update(pix_index(x as int, y as int), value),
    {
        let idx: usize = (y as usize % 32) * 64 + (x as usize % 64);
        self.pixels[idx] = value;
    }

    /// Read the pixel at (`x`, `y`); coordinates wrap modulo the display
    /// dimensions.
    pub fn get_pixel(&self, x: u8, y: u8) -> (value: bool)
        requires
            self.wf(),
        ensures
            value == self@[pix_index(x as int, y as int)],
    {
        let idx: usize = (y as usize % 32) * 64 + (x as usize % 64);
        self.pixels[idx]
    }

    /// Turn every pixel off.
    pub fn clear(&mut self)
        requires
            old(self).wf(),
        ensures
            final(self).wf(),
            final(self)@ == Seq::new(2048, |p: int| false),
    {
        let mut k: usize = 0;
        while k < 2048
            invariant
                k <= 2048,
                self@.len() == 2048,
                forall|p: int| 0 <= p < k ==> !self@[p],
            decreases 2048 - k,
        {
            self.pixels[k] = false;
            k = k + 1;
        }
        proof {
            assert(self@ =~= Seq::new(2048, |p: int| false));
        }
    }
}

} // verus!
