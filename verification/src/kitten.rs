//! A pen that paints a test pattern into a pixel buffer: a background
//! colour, and coarse pixels that are squares of real ones.

use crate::framebuffer::{pixel_index, Buffer, BufferView, Pixel};
use vstd::prelude::*;

verus! {

/// The background colour.
pub open spec fn background_color() -> Pixel {
    Pixel { red: 3, green: 240, blue: 252 }
}

/// The colour of a painted coarse pixel.
pub open spec fn ink_color() -> Pixel {
    Pixel { red: 0, green: 0, blue: 0 }
}

/// A pen as a plain value.
pub struct KittenPenView {
    pub actual_width: nat,
    pub actual_height: nat,
    pub effective_width: nat,
    pub effective_height: nat,
    pub downsize_factor: nat,
    pub buffer: BufferView,
}

/// A pen over a buffer of its own. A coarse pixel is a square of
/// `downsize_factor` by `downsize_factor` real pixels.
pub struct KittenPen {
    actual_width: usize,
    actual_height: usize,
    effective_width: usize,
    effective_height: usize,
    downsize_factor: usize,
    buffer: Buffer,
}

impl View for KittenPen {
    type V = KittenPenView;

    closed spec fn view(&self) -> KittenPenView {
        KittenPenView {
            actual_width: self.actual_width as nat,
            actual_height: self.actual_height as nat,
            effective_width: self.effective_width as nat,
            effective_height: self.effective_height as nat,
            downsize_factor: self.downsize_factor as nat,
            buffer: self.buffer@,
        }
    }
}

/// What holds of every pen: its buffer has the actual size, and the
/// effective size is the actual size divided by the factor, rounded down.
pub open spec fn consistent(pen: KittenPenView) -> bool {
    &&& pen.downsize_factor > 0
    &&& pen.buffer.width == pen.actual_width
    &&& pen.buffer.height == pen.actual_height
    &&& pen.buffer.pixels.len() == pen.actual_width * pen.actual_height
    &&& pen.effective_width == pen.actual_width / pen.downsize_factor
    &&& pen.effective_height == pen.actual_height / pen.downsize_factor
}

/// The real pixel in column `cx` of row `cy` lies in the coarse pixel in
/// column `x` of row `y`.
pub open spec fn in_coarse_pixel(factor: nat, x: nat, y: nat, cx: nat, cy: nat) -> bool {
    &&& x * factor <= cx < x * factor + factor
    &&& y * factor <= cy < y * factor + factor
}

impl KittenPen {
    #[verifier::type_invariant]
    spec fn well_formed(self) -> bool {
        consistent(self@)
    }

    /// A pen over a black buffer of `width` by `height` pixels. The factor
    /// must not be zero, and the number of pixels must fit a `usize`.
    pub fn new(width: usize, height: usize, downsize_factor: usize) -> (pen: Self)
        requires
            downsize_factor > 0,
            width * height <= usize::MAX,
        ensures
            consistent(pen@),
            pen@.actual_width == width,
            pen@.actual_height == height,
            pen@.downsize_factor == downsize_factor,
            pen@.buffer.pixels == Seq::new((width * height) as nat, |i: int| ink_color()),
    {
        let buffer = Buffer::new(width, height);
        Self {
            actual_width: width,
            actual_height: height,
            effective_width: width / downsize_factor,
            effective_height: height / downsize_factor,
            downsize_factor,
            buffer,
        }
    }

    /// Width in coarse pixels.
    pub fn effective_width(&self) -> (width: usize)
        ensures
            width == self@.effective_width,
            width == self@.actual_width / self@.downsize_factor,
    {
        proof {
            use_type_invariant(self);
        }
        self.effective_width
    }

    /// Height in coarse pixels.
    pub fn effective_height(&self) -> (height: usize)
        ensures
            height == self@.effective_height,
            height == self@.actual_height / self@.downsize_factor,
    {
        proof {
            use_type_invariant(self);
        }
        self.effective_height
    }

    /// The buffer to transfer to the screen.
    pub fn buffer(&self) -> (buffer: &Buffer)
        ensures
            buffer@ == self@.buffer,
    {
        &self.buffer
    }

    /// Paints every pixel in the background colour.
    pub fn paint_background(&mut self)
        ensures
            final(self)@ == (KittenPenView {
                buffer: BufferView {
                    pixels: Seq::new(
                        old(self)@.buffer.pixels.len(),
                        |i: int| background_color(),
                    ),
                    ..old(self)@.buffer
                },
                ..old(self)@
            }),
    {
        proof {
            use_type_invariant(&*self);
        }
        let height: usize = self.buffer.get_height();
        let width: usize = self.buffer.get_width();
        let mut y: usize = 0;
        while y < height
            invariant
                y <= height,
                consistent(self@),
                width == self@.actual_width,
                height == self@.actual_height,
                self@ == (KittenPenView { buffer: self@.buffer, ..old(self)@ }),
                self@.buffer.width == old(self)@.buffer.width,
                self@.buffer.height == old(self)@.buffer.height,
                self@.buffer.pixels.len() == old(self)@.buffer.pixels.len(),
                forall|k: int|
                    0 <= k < y * width && k < self@.buffer.pixels.len()
                        ==> self@.buffer.pixels[k] == background_color(),
            decreases height - y,
        {
            let mut x: usize = 0;
            while x < width
                invariant
                    x <= width,
                    y < height,
                    consistent(self@),
                    width == self@.actual_width,
                    height == self@.actual_height,
                    self@ == (KittenPenView { buffer: self@.buffer, ..old(self)@ }),
                    self@.buffer.width == old(self)@.buffer.width,
                    self@.buffer.height == old(self)@.buffer.height,
                    self@.buffer.pixels.len() == old(self)@.buffer.pixels.len(),
                    forall|k: int|
                        0 <= k < y * width + x && k < self@.buffer.pixels.len()
                            ==> self@.buffer.pixels[k] == background_color(),
                decreases width - x,
            {
                proof {
                    assert(y * width + x < width * height) by (nonlinear_arith)
                        requires
                            x < width,
                            y < height,
                    ;
                }
                self.buffer.set_pixel(x, y, Pixel::new(3, 240, 252));
                x += 1;
            }
            proof {
                assert((y + 1) * width == y * width + width) by (nonlinear_arith);
            }
            y += 1;
        }
        assert(height * width == width * height) by (nonlinear_arith);
        assert(self@.buffer.pixels =~= Seq::new(
            old(self)@.buffer.pixels.len(),
            |i: int| background_color(),
        ));
    }

    /// Paints the coarse pixel in column `x` of row `y`, which must lie
    /// within the effective size: the square of real pixels from column
    /// `x * downsize_factor` and row `y * downsize_factor` on turns black,
    /// and every other pixel stays as it is.
    pub fn paint_effective_pixel(&mut self, x: usize, y: usize)
        requires
            x < old(self)@.effective_width,
            y < old(self)@.effective_height,
        ensures
            ({
                let before = old(self)@;
                let after = final(self)@;
                &&& after == (KittenPenView { buffer: after.buffer, ..before })
                &&& after.buffer.width == before.buffer.width
                &&& after.buffer.height == before.buffer.height
                &&& after.buffer.pixels.len() == before.buffer.pixels.len()
                &&& forall|cx: nat, cy: nat|
                    cx < before.actual_width && cy < before.actual_height
                        ==> after.buffer.pixels[#[trigger] pixel_index(
                        before.actual_width,
                        cx,
                        cy,
                    ) as int] == if in_coarse_pixel(
                        before.downsize_factor,
                        x as nat,
                        y as nat,
                        cx,
                        cy,
                    ) {
                        ink_color()
                    } else {
                        before.buffer.pixels[pixel_index(before.actual_width, cx, cy) as int]
                    }
            }),
    {
        proof {
            use_type_invariant(&*self);
        }
        let factor: usize = self.downsize_factor;
        let width: usize = self.actual_width;
        let height: usize = self.actual_height;
        let ghost before = self@;
        proof {
            lemma_block_in_picture(width as nat, factor as nat, x as nat);
            lemma_block_in_picture(height as nat, factor as nat, y as nat);
        }
        let actual_x: usize = x * factor;
        let actual_y: usize = y * factor;
        let mut i: usize = 0;
        while i < factor
            invariant
                i <= factor,
                factor == before.downsize_factor,
                width == before.actual_width,
                height == before.actual_height,
                actual_x == x * factor,
                actual_y == y * factor,
                actual_x + factor <= width,
                actual_y + factor <= height,
                consistent(self@),
                self@ == (KittenPenView { buffer: self@.buffer, ..before }),
                self@.buffer.width == before.buffer.width,
                self@.buffer.height == before.buffer.height,
                self@.buffer.pixels.len() == before.buffer.pixels.len(),
                forall|cx: nat, cy: nat|
                    cx < width && cy < height ==> self@.buffer.pixels[#[trigger] pixel_index(
                        width as nat,
                        cx,
                        cy,
                    ) as int] == if in_coarse_pixel(factor as nat, x as nat, y as nat, cx, cy) && cx
                        < actual_x + i {
                        ink_color()
                    } else {
                        before.buffer.pixels[pixel_index(width as nat, cx, cy) as int]
                    },
            decreases factor - i,
        {
            let mut j: usize = 0;
            while j < factor
                invariant
                    j <= factor,
                    i < factor,
                    factor == before.downsize_factor,
                    width == before.actual_width,
                    height == before.actual_height,
                    actual_x == x * factor,
                    actual_y == y * factor,
                    actual_x + factor <= width,
                    actual_y + factor <= height,
                    consistent(self@),
                    self@ == (KittenPenView { buffer: self@.buffer, ..before }),
                    self@.buffer.width == before.buffer.width,
                    self@.buffer.height == before.buffer.height,
                    self@.buffer.pixels.len() == before.buffer.pixels.len(),
                    forall|cx: nat, cy: nat|
                        cx < width && cy < height ==> self@.buffer.pixels[#[trigger] pixel_index(
                            width as nat,
                            cx,
                            cy,
                        ) as int] == if in_coarse_pixel(factor as nat, x as nat, y as nat, cx, cy)
                            && (cx < actual_x + i || (cx == actual_x + i && cy < actual_y + j)) {
                            ink_color()
                        } else {
                            before.buffer.pixels[pixel_index(width as nat, cx, cy) as int]
                        },
                decreases factor - j,
            {
                let ghost painted_x = (actual_x + i) as nat;
                let ghost painted_y = (actual_y + j) as nat;
                proof {
                    lemma_pixel_index_in_bounds(width as nat, height as nat, painted_x, painted_y);
                    assert forall|cx: nat, cy: nat|
                        cx < width && cy < height && (cx != painted_x || cy != painted_y) implies
                        #[trigger] pixel_index(width as nat, cx, cy) != pixel_index(
                            width as nat,
                            painted_x,
                            painted_y,
                        ) && pixel_index(width as nat, cx, cy) < width * height by {
                        if pixel_index(width as nat, cx, cy) == pixel_index(
                            width as nat,
                            painted_x,
                            painted_y,
                        ) {
                            lemma_pixel_index_injective(width as nat, cx, cy, painted_x, painted_y);
                        }
                        lemma_pixel_index_in_bounds(width as nat, height as nat, cx, cy);
                    }
                }
                self.buffer.set_pixel(actual_x + i, actual_y + j, Pixel::new(0, 0, 0));
                j += 1;
            }
            i += 1;
        }
    }
}

/// A coarse pixel within the effective size lies within the actual size.
proof fn lemma_block_in_picture(actual: nat, factor: nat, x: nat)
    requires
        factor > 0,
        x < actual / factor,
    ensures
        0 <= x * factor,
        x * factor + factor <= actual,
{
    assert(x * factor + factor <= actual) by (nonlinear_arith)
        requires
            factor > 0,
            x + 1 <= actual / factor,
    ;
    assert(0 <= x * factor) by (nonlinear_arith);
}

/// A pixel within the picture has its index within the buffer.
proof fn lemma_pixel_index_in_bounds(width: nat, height: nat, cx: nat, cy: nat)
    requires
        cx < width,
        cy < height,
    ensures
        pixel_index(width, cx, cy) < width * height,
{
    assert(cy * width + cx < width * height) by (nonlinear_arith)
        requires
            cx < width,
            cy + 1 <= height,
    ;
}

/// Two pixels of a picture with the same index are the same pixel.
proof fn lemma_pixel_index_injective(width: nat, cx: nat, cy: nat, dx: nat, dy: nat)
    requires
        cx < width,
        dx < width,
        pixel_index(width, cx, cy) == pixel_index(width, dx, dy),
    ensures
        cx == dx,
        cy == dy,
{
    assert(cy == dy) by (nonlinear_arith)
        requires
            cx < width,
            dx < width,
            cy * width + cx == dy * width + dx,
    ;
    assert(cy * width == dy * width);
}

} // verus!
