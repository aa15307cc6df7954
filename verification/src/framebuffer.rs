//! An off-screen pixel buffer for the graphics output of UEFI firmware.
//!
//! The buffer is drawn into here and handed to the firmware in one piece;
//! the transfer itself is the platform's business.

use vstd::prelude::*;

verus! {

/// One pixel, as the firmware's block transfer takes it.
#[derive(Clone, Copy, Debug, PartialEq, Eq, Structural)]
pub struct Pixel {
    pub red: u8,
    pub green: u8,
    pub blue: u8,
}

impl Pixel {
    /// A pixel of the given colour.
    pub fn new(red: u8, green: u8, blue: u8) -> (pixel: Self)
        ensures
            pixel == (Pixel { red, green, blue }),
    {
        Pixel { red, green, blue }
    }
}

/// A pixel buffer as a plain value: its size and its pixels, row by row.
pub struct BufferView {
    pub width: nat,
    pub height: nat,
    pub pixels: Seq<Pixel>,
}

/// Index of the pixel in column `x` of row `y`.
pub open spec fn pixel_index(width: nat, x: nat, y: nat) -> nat {
    y * width + x
}

/// A buffer of `width` by `height` pixels.
pub struct Buffer {
    width: usize,
    height: usize,
    buffer: Vec<Pixel>,
}

impl View for Buffer {
    type V = BufferView;

    closed spec fn view(&self) -> BufferView {
        BufferView {
            width: self.width as nat,
            height: self.height as nat,
            pixels: self.buffer@,
        }
    }
}

impl Buffer {
    #[verifier::type_invariant]
    spec fn well_formed(self) -> bool {
        self.buffer@.len() == self.width * self.height
    }

    /// A black buffer of `width` by `height` pixels. The number of pixels
    /// must fit a `usize`.
    pub fn new(width: usize, height: usize) -> (buffer: Self)
        requires
            width * height <= usize::MAX,
        ensures
            buffer@.width == width,
            buffer@.height == height,
            buffer@.pixels == Seq::new((width * height) as nat, |i: int| Pixel { red: 0, green: 0, blue: 0 }),
    {
        let count: usize = width * height;
        let mut pixels: Vec<Pixel> = Vec::new();
        let mut i: usize = 0;
        while i < count
            invariant
                i <= count,
                pixels@.len() == i,
                forall|j: int| 0 <= j < i ==> pixels@[j] == (Pixel { red: 0, green: 0, blue: 0 }),
            decreases count - i,
        {
            pixels.push(Pixel::new(0, 0, 0));
            i += 1;
        }
        assert(pixels@ =~= Seq::new(
            (width * height) as nat,
            |i: int| Pixel { red: 0, green: 0, blue: 0 },
        ));
        Self { width, height, buffer: pixels }
    }

    /// Width in pixels.
    pub fn get_width(&self) -> (width: usize)
        ensures
            width == self@.width,
    {
        self.width
    }

    /// Height in pixels.
    pub fn get_height(&self) -> (height: usize)
        ensures
            height == self@.height,
    {
        self.height
    }

    /// The pixels, row by row: what a transfer of the whole buffer sends.
    pub fn pixels(&self) -> (pixels: &Vec<Pixel>)
        ensures
            pixels@ == self@.pixels,
            pixels@.len() == self@.width * self@.height,
    {
        proof {
            use_type_invariant(self);
        }
        &self.buffer
    }

    /// Sets the pixel in column `x` of row `y`. The pixel's index must lie
    /// within the buffer.
    pub fn set_pixel(&mut self, x: usize, y: usize, pixel: Pixel)
        requires
            pixel_index(old(self)@.width, x as nat, y as nat) < old(self)@.width * old(self)@.height,
        ensures
            final(self)@.width == old(self)@.width,
            final(self)@.height == old(self)@.height,
            final(self)@.pixels == old(self)@.pixels.update(
                pixel_index(old(self)@.width, x as nat, y as nat) as int,
                pixel,
            ),
        no_unwind
    {
        proof {
            use_type_invariant(&*self);
            assert(y * self.width >= 0) by (nonlinear_arith)
                requires
                    y >= 0,
                    self.width >= 0,
            ;
        }
        let _len: usize = self.buffer.len();
        let index: usize = y * self.width + x;
        self.buffer[index] = pixel;
    }
}

} // verus!
