//! The pixel buffer that a finished render is written into.

use vstd::prelude::*;

verus! {

/// A raster of `width` x `height` pixels with `nr_channels` bytes each, stored
/// row by row from the top of the image down.
pub struct OutputBuffer {
    buffer: Vec<u8>,
    width: u32,
    height: u32,
    nr_channels: u32,
}

impl View for OutputBuffer {
    type V = Seq<u8>;

    closed spec fn view(&self) -> Seq<u8> {
        self.buffer@
    }
}

impl OutputBuffer {
    pub closed spec fn spec_width(&self) -> nat {
        self.width as nat
    }

    pub closed spec fn spec_height(&self) -> nat {
        self.height as nat
    }

    pub closed spec fn spec_channels(&self) -> nat {
        self.nr_channels as nat
    }

    /// The buffer holds exactly one byte per channel of every pixel, and
    /// their number fits 32 bits.
    pub open spec fn well_formed(&self) -> bool {
        &&& self@.len() == self.spec_width() * self.spec_height() * self.spec_channels()
        &&& self@.len() <= u32::MAX
    }

    /// Where the first byte of pixel `(x, y)` lies.  Row `y = 0` is the bottom
    /// row of the image and is stored last.
    pub open spec fn pixel_offset(&self, x: u32, y: u32) -> int {
        ((self.spec_height() - y - 1) * self.spec_width() + x) * self.spec_channels()
    }

    /// A buffer of the given size with every byte zero.
    pub fn new(width: u32, height: u32, nr_channels: u32) -> (out: Self)
        requires
            width * height * nr_channels <= u32::MAX,
        ensures
            out.well_formed(),
            out.spec_width() == width,
            out.spec_height() == height,
            out.spec_channels() == nr_channels,
            forall|i: int| 0 <= i < out@.len() ==> out@[i] == 0u8,
    {
        proof {
            lemma_partial_product(width as nat, height as nat, nr_channels as nat);
        }
        let size: usize = if nr_channels == 0 {
            0
        } else {
            (width * height * nr_channels) as usize
        };
        let mut v: Vec<u8> = Vec::new();
        v.resize(size, 0u8);
        OutputBuffer { buffer: v, width, height, nr_channels }
    }

    /// Stores the three quantised channels of pixel `(x, y)`; every other byte
    /// of the buffer stays as it was.
    pub fn write_color(&mut self, x: u32, y: u32, r: u8, g: u8, b: u8)
        requires
            old(self).well_formed(),
            x < old(self).spec_width(),
            y < old(self).spec_height(),
            old(self).spec_channels() >= 3,
        ensures
            final(self).well_formed(),
            final(self).spec_width() == old(self).spec_width(),
            final(self).spec_height() == old(self).spec_height(),
            final(self).spec_channels() == old(self).spec_channels(),
            final(self)@ == old(self)@.update(old(self).pixel_offset(x, y), r).update(
                old(self).pixel_offset(x, y) + 1,
                g,
            ).update(old(self).pixel_offset(x, y) + 2, b),
    {
        proof {
            lemma_pixel_in_buffer(
                self.width as nat,
                self.height as nat,
                self.nr_channels as nat,
                x as nat,
                y as nat,
            );
        }
        let row: u32 = self.height - y - 1;
        let idx: usize = ((row * self.width + x) * self.nr_channels) as usize;
        self.buffer[idx] = r;
        self.buffer[idx + 1] = g;
        self.buffer[idx + 2] = b;
    }

    /// The number of pixels in a row.
    pub fn width(&self) -> (w: u32)
        ensures
            w == self.spec_width(),
    {
        self.width
    }

    /// The number of rows.
    pub fn height(&self) -> (h: u32)
        ensures
            h == self.spec_height(),
    {
        self.height
    }

    /// The number of bytes of a pixel.
    pub fn nr_channels(&self) -> (c: u32)
        ensures
            c == self.spec_channels(),
    {
        self.nr_channels
    }

    /// The raw bytes, top row first.
    pub fn get_pixels(&self) -> (pixels: &[u8])
        ensures
            pixels@ == self@,
    {
        self.buffer.as_slice()
    }
}

/// If a product of three factors fits a bound and the last factor is not
/// zero, the product of the first two fits as well.
proof fn lemma_partial_product(w: nat, h: nat, c: nat)
    ensures
        c > 0 ==> w * h <= w * h * c,
        c == 0 ==> w * h * c == 0,
{
    assert(c > 0 ==> w * h <= w * h * c) by (nonlinear_arith);
    assert(c == 0 ==> w * h * c == 0) by (nonlinear_arith);
}

/// The bytes of a pixel inside the raster lie inside the buffer, and no
/// intermediate product of the offset exceeds the buffer's length.
proof fn lemma_pixel_in_buffer(w: nat, h: nat, c: nat, x: nat, y: nat)
    requires
        x < w,
        y < h,
        c >= 1,
    ensures
        (h - y - 1) * w <= (h - y - 1) * w + x < w * h,
        ((h - y - 1) * w + x) * c + c <= w * h * c,
        (h - y - 1) * w + x <= ((h - y - 1) * w + x) * c,
{
    let row = (h - y - 1) as nat;
    assert(row * w + w <= h * w) by (nonlinear_arith)
        requires
            row + 1 <= h,
    ;
    assert(h * w == w * h) by (nonlinear_arith);
    let p = row * w + x;
    assert(p * c + c <= w * h * c) by (nonlinear_arith)
        requires
            p + 1 <= w * h,
    ;
    assert(p <= p * c) by (nonlinear_arith)
        requires
            c >= 1,
    ;
}

} // verus!
