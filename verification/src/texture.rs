//! Textures: the choice between the two textures of a checker, and image
//! textures with the lookup of one of their pixels.

use vstd::prelude::*;

verus! {

/// The two textures of a checker.
#[derive(Clone, Copy, Debug, PartialEq, Eq, Structural)]
pub enum CheckerTexture {
    Even,
    Odd,
}

impl CheckerTexture {
    /// The texture that colours a point: the odd one where the product of
    /// the sines of the point's scaled coordinates, given by its code, is
    /// negative, and the even one elsewhere.
    pub fn value(sines: i32) -> (which: Self)
        ensures
            which == if sines < 0 {
                CheckerTexture::Odd
            } else {
                CheckerTexture::Even
            },
    {
        if sines < 0 {
            CheckerTexture::Odd
        } else {
            CheckerTexture::Even
        }
    }
}

/// A raster of `width` x `height` pixels with three bytes each (red, green,
/// blue), stored row by row.
pub struct ImageTexture {
    data: Vec<u8>,
    width: u32,
    height: u32,
}

impl View for ImageTexture {
    type V = Seq<u8>;

    closed spec fn view(&self) -> Seq<u8> {
        self.data@
    }
}

/// The bytes of a raster of the given size: three for each pixel.
pub open spec fn raster_len(width: u32, height: u32) -> int {
    3 * (width * height)
}

impl ImageTexture {
    pub closed spec fn spec_width(&self) -> u32 {
        self.width
    }

    pub closed spec fn spec_height(&self) -> u32 {
        self.height
    }

    /// The raster has at least one pixel and exactly the bytes of its pixels.
    pub open spec fn well_formed(&self) -> bool {
        &&& self.spec_width() > 0
        &&& self.spec_height() > 0
        &&& self@.len() == raster_len(self.spec_width(), self.spec_height())
    }

    /// Column `i` or, past the right edge, the last column.
    pub open spec fn clamp_column(&self, i: u32) -> int {
        if i >= self.spec_width() {
            self.spec_width() - 1
        } else {
            i as int
        }
    }

    /// Row `j` or, past the bottom edge, the last row.
    pub open spec fn clamp_row(&self, j: u32) -> int {
        if j >= self.spec_height() {
            self.spec_height() - 1
        } else {
            j as int
        }
    }

    /// Where the red byte of the pixel in column `i` of row `j` lies.
    pub open spec fn pixel_offset(&self, i: int, j: int) -> int {
        j * (3 * self.spec_width()) + i * 3
    }

    /// Takes a decoded raster.  It is accepted if and only if it has a pixel
    /// and `data` holds three bytes for each.
    pub fn new(data: Vec<u8>, width: u32, height: u32) -> (texture: Option<Self>)
        ensures
            texture.is_some() <==> width > 0 && height > 0 && data@.len() == raster_len(
                width,
                height,
            ),
            texture.is_some() ==> texture.unwrap()@ == data@ && texture.unwrap().spec_width()
                == width && texture.unwrap().spec_height() == height
                && texture.unwrap().well_formed(),
    {
        if width == 0 || height == 0 {
            return None;
        }
        assert(width * height <= 0xffff_ffff * 0xffff_ffff) by (nonlinear_arith)
            requires
                width <= 0xffff_ffff,
                height <= 0xffff_ffff,
        ;
        let pixels: u64 = width as u64 * height as u64;
        let len: usize = data.len();
        if len % 3 != 0 || (len / 3) as u64 != pixels {
            return None;
        }
        Some(ImageTexture { data, width, height })
    }

    /// The number of pixels in a row.
    pub fn width(&self) -> (w: u32)
        ensures
            w == self.spec_width(),
    {
        self.width
    }

    /// The number of rows.
    pub fn height(&self) -> (h: u32)
        ensures
            h == self.spec_height(),
    {
        self.height
    }

    /// The red, green and blue byte of the pixel in column `i` of row `j`.
    /// An index past an edge of the raster is taken back to the last column
    /// or row.
    pub fn value(&self, i: u32, j: u32) -> (rgb: (u8, u8, u8))
        requires
            self.well_formed(),
        ensures
            rgb.0 == self@[self.pixel_offset(self.clamp_column(i), self.clamp_row(j))],
            rgb.1 == self@[self.pixel_offset(self.clamp_column(i), self.clamp_row(j)) + 1],
            rgb.2 == self@[self.pixel_offset(self.clamp_column(i), self.clamp_row(j)) + 2],
    {
        let column: u32 = if i >= self.width {
            self.width - 1
        } else {
            i
        };
        let row: u32 = if j >= self.height {
            self.height - 1
        } else {
            j
        };
        let len: usize = self.data.len();
        proof {
            lemma_pixel_in_raster(
                self.width as int,
                self.height as int,
                column as int,
                row as int,
            );
            assert(len == 3 * (self.width as int * self.height as int));
        }
        let bytes_per_scanline: usize = 3 * (self.width as usize);
        let pixel_idx: usize = (row as usize) * bytes_per_scanline + (column as usize) * 3;
        (self.data[pixel_idx], self.data[pixel_idx + 1], self.data[pixel_idx + 2])
    }
}

/// The three bytes of a pixel inside the raster lie inside its data, and so
/// does every partial sum on the way to their offset.
proof fn lemma_pixel_in_raster(w: int, h: int, i: int, j: int)
    requires
        0 <= i < w,
        0 <= j < h,
    ensures
        0 <= 3 * w <= 3 * (w * h),
        0 <= j * (3 * w) <= 3 * (w * h),
        j * (3 * w) + i * 3 + 3 <= 3 * (w * h),
{
    assert(j * w + w <= h * w) by (nonlinear_arith)
        requires
            j + 1 <= h,
            0 <= w,
    ;
    assert(h * w == w * h) by (nonlinear_arith);
    assert(j * (3 * w) == 3 * (j * w)) by (nonlinear_arith);
    assert(0 <= j * w) by (nonlinear_arith)
        requires
            0 <= j,
            0 <= w,
    ;
    assert(w <= w * h) by (nonlinear_arith)
        requires
            1 <= h,
            0 <= w,
    ;
}

} // verus!
