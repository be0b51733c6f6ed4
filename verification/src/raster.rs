//! Pixel buffers: a width × height grid of colours stored row by row, and the
//! mathematical grid that contracts speak of.

use vstd::prelude::*;
use crate::color::Color;

verus! {

/// The mathematical value of a pixel buffer: its dimensions and its pixels,
/// row by row from the top left.
pub struct Raster {
    pub width: nat,
    pub height: nat,
    pub pixels: Seq<Color>,
}

impl Raster {
    /// There is exactly one pixel for each position of the grid.
    pub open spec fn wf(self) -> bool {
        self.pixels.len() == self.width * self.height
    }

    /// Whether `(x, y)` is a position of the grid.
    pub open spec fn contains(self, x: int, y: int) -> bool {
        0 <= x < self.width && 0 <= y < self.height
    }

    /// The pixel in column `x` of row `y`.
    pub open spec fn pixel(self, x: int, y: int) -> Color {
        self.pixels[y * self.width + x]
    }

    /// The grid of the given dimensions whose pixel at `(x, y)` is `f(x, y)`.
    pub open spec fn from_fn(width: nat, height: nat, f: spec_fn(int, int) -> Color) -> Raster {
        Raster {
            width,
            height,
            pixels: Seq::new(
                width * height,
                |i: int| f(i % (width as int), i / (width as int)),
            ),
        }
    }

    /// The same grid with the pixel at `(x, y)` replaced by `color`.
    pub open spec fn with_pixel(self, x: int, y: int, color: Color) -> Raster {
        Raster {
            width: self.width,
            height: self.height,
            pixels: self.pixels.update(y * self.width + x, color),
        }
    }

    /// The grid of the given dimensions that shows `color` everywhere.
    pub open spec fn uniform(width: nat, height: nat, color: Color) -> Raster {
        Raster::from_fn(width, height, |x: int, y: int| color)
    }
}

/// A position of a `w × h` grid has exactly one index in its row-by-row
/// storage, from which column and row can be read back.
pub proof fn lemma_position_index(w: int, h: int, x: int, y: int)
    requires
        0 <= x < w,
        0 <= y < h,
    ensures
        0 <= y * w + x < w * h,
        (y * w + x) % w == x,
        (y * w + x) / w == y,
{
    assert(0 <= y * w && y * w + w <= w * h) by (nonlinear_arith)
        requires
            0 <= y < h,
            0 < w,
    ;
    vstd::arithmetic::div_mod::lemma_fundamental_div_mod_converse(y * w + x, w, y, x);
}

/// Every index of the row-by-row storage of a `w × h` grid belongs to one
/// position of the grid.
pub proof fn lemma_index_position(w: int, h: int, i: int)
    requires
        0 <= w,
        0 <= h,
        0 <= i < w * h,
    ensures
        0 <= i % w < w,
        0 <= i / w < h,
        i == (i / w) * w + i % w,
{
    assert(w > 0) by (nonlinear_arith)
        requires
            0 <= w,
            0 <= i < w * h,
    ;
    vstd::arithmetic::div_mod::lemma_fundamental_div_mod(i, w);
    assert(0 <= i / w < h) by (nonlinear_arith)
        requires
            w > 0,
            0 <= i < w * h,
            i == w * (i / w) + i % w,
            0 <= i % w < w,
    ;
    assert((i / w) * w == w * (i / w)) by (nonlinear_arith);
}

/// `Raster::from_fn` is well formed and shows `f(x, y)` at every position.
pub proof fn lemma_from_fn(width: nat, height: nat, f: spec_fn(int, int) -> Color)
    ensures
        Raster::from_fn(width, height, f).wf(),
        forall|x: int, y: int|
            0 <= x < width && 0 <= y < height ==> #[trigger] Raster::from_fn(
                width,
                height,
                f,
            ).pixel(x, y) == f(x, y),
{
    let r = Raster::from_fn(width, height, f);
    assert forall|x: int, y: int| 0 <= x < width && 0 <= y < height implies #[trigger] r.pixel(
        x,
        y,
    ) == f(x, y) by {
        lemma_position_index(width as int, height as int, x, y);
    }
}

/// Two well-formed grids of the same dimensions that agree at every position
/// are equal.
pub proof fn lemma_raster_equal(a: Raster, b: Raster)
    requires
        a.wf(),
        b.wf(),
        a.width == b.width,
        a.height == b.height,
        forall|x: int, y: int| a.contains(x, y) ==> a.pixel(x, y) == b.pixel(x, y),
    ensures
        a == b,
{
    assert forall|i: int| 0 <= i < a.pixels.len() implies a.pixels[i] == b.pixels[i] by {
        lemma_index_position(a.width as int, a.height as int, i);
        let x = i % (a.width as int);
        let y = i / (a.width as int);
        assert(a.contains(x, y));
        assert(a.pixel(x, y) == a.pixels[i]);
        assert(b.pixel(x, y) == b.pixels[i]);
    }
    assert(a.pixels =~= b.pixels);
}

/// Replacing one pixel keeps the grid well formed and changes no other
/// position.
pub proof fn lemma_with_pixel(r: Raster, x: int, y: int, color: Color)
    requires
        r.wf(),
        r.contains(x, y),
    ensures
        r.with_pixel(x, y, color).wf(),
        forall|px: int, py: int|
            r.contains(px, py) ==> #[trigger] r.with_pixel(x, y, color).pixel(px, py) == (if px == x
                && py == y {
                color
            } else {
                r.pixel(px, py)
            }),
{
    let w = r.width as int;
    let h = r.height as int;
    lemma_position_index(w, h, x, y);
    assert forall|px: int, py: int| r.contains(px, py) implies #[trigger] r.with_pixel(
        x,
        y,
        color,
    ).pixel(px, py) == (if px == x && py == y {
        color
    } else {
        r.pixel(px, py)
    }) by {
        lemma_position_index(w, h, px, py);
    }
}

/// The number of positions of a grid with 32-bit dimensions fits in 64 bits.
proof fn lemma_area_bound(width: u32, height: u32)
    ensures
        0 <= width * height <= u64::MAX,
{
    assert(0 <= width * height <= 0xffff_ffff * 0xffff_ffff) by (nonlinear_arith)
        requires
            0 <= width <= 0xffff_ffff,
            0 <= height <= 0xffff_ffff,
    ;
}

/// The number of samples that make up one pixel.
pub const SAMPLES_PER_PIXEL: usize = 4;

/// An image in memory: `width × height` pixels, stored row by row.
pub struct PixelBuffer {
    width: u32,
    height: u32,
    pixels: Vec<Color>,
}

impl View for PixelBuffer {
    type V = Raster;

    closed spec fn view(&self) -> Raster {
        Raster { width: self.width as nat, height: self.height as nat, pixels: self.pixels@ }
    }
}

impl PixelBuffer {
    /// The buffer holds exactly one pixel for each position, its dimensions
    /// are 32-bit numbers, and its samples, four to a pixel, can be counted
    /// in a `usize`.
    pub open spec fn wf(&self) -> bool {
        &&& self@.wf()
        &&& self@.width <= u32::MAX
        &&& self@.height <= u32::MAX
        &&& SAMPLES_PER_PIXEL * (self@.width * self@.height) <= usize::MAX
    }

    /// Takes over `pixels` as the rows of a `width × height` image, if there
    /// is exactly one pixel for each position and the samples can be
    /// counted in a `usize`.
    pub fn from_pixels(width: u32, height: u32, pixels: Vec<Color>) -> (made: Option<PixelBuffer>)
        ensures
            made is Some <==> pixels@.len() == width * height && SAMPLES_PER_PIXEL * (width
                * height) <= usize::MAX,
            made matches Some(img) ==> img.wf() && img@ == (Raster {
                width: width as nat,
                height: height as nat,
                pixels: pixels@,
            }),
    {
        proof {
            lemma_area_bound(width, height);
        }
        if (pixels.len() as u64) == (width as u64) * (height as u64) && pixels.len() <= usize::MAX
            / SAMPLES_PER_PIXEL {
            Some(PixelBuffer { width, height, pixels })
        } else {
            None
        }
    }

    /// Takes over `pixels` as the rows of a `width × height` image.
    pub(crate) fn from_parts(width: u32, height: u32, pixels: Vec<Color>) -> (img: PixelBuffer)
        requires
            pixels@.len() == width * height,
            SAMPLES_PER_PIXEL * (width * height) <= usize::MAX,
        ensures
            img.wf(),
            img@ == (Raster { width: width as nat, height: height as nat, pixels: pixels@ }),
    {
        PixelBuffer { width, height, pixels }
    }

    /// An image that shows `color` everywhere, unless it would hold more
    /// samples than a `usize` can count.
    pub fn filled(width: u32, height: u32, color: Color) -> (made: Option<PixelBuffer>)
        ensures
            made is Some <==> SAMPLES_PER_PIXEL * (width * height) <= usize::MAX,
            made matches Some(img) ==> img.wf() && img@ == Raster::uniform(
                width as nat,
                height as nat,
                color,
            ),
    {
        proof {
            lemma_area_bound(width, height);
        }
        let total: u64 = (width as u64) * (height as u64);
        if total > (usize::MAX / SAMPLES_PER_PIXEL) as u64 {
            return None;
        }
        let count: usize = total as usize;
        let mut pixels: Vec<Color> = Vec::new();
        let mut i: usize = 0;
        while i < count
            invariant
                i <= count,
                pixels@.len() == i,
                forall|k: int| 0 <= k < i ==> pixels@[k] == color,
            decreases count - i,
        {
            pixels.push(color);
            i += 1;
        }
        let img = PixelBuffer { width, height, pixels };
        proof {
            let target = Raster::uniform(width as nat, height as nat, color);
            lemma_from_fn(width as nat, height as nat, |x: int, y: int| color);
            assert(img@.pixels =~= target.pixels);
        }
        Some(img)
    }

    pub fn width(&self) -> (w: u32)
        ensures
            w == self@.width,
    {
        self.width
    }

    pub fn height(&self) -> (h: u32)
        ensures
            h == self@.height,
    {
        self.height
    }

    /// The pixels, row by row from the top left.
    pub fn pixels(&self) -> (pixels: &Vec<Color>)
        ensures
            pixels@ == self@.pixels,
    {
        &self.pixels
    }

    /// The pixel in column `x` of row `y`.
    pub fn get_pixel(&self, x: u32, y: u32) -> (color: Color)
        requires
            self.wf(),
            self@.contains(x as int, y as int),
        ensures
            color == self@.pixel(x as int, y as int),
    {
        proof {
            lemma_position_index(self.width as int, self.height as int, x as int, y as int);
            assert(0 <= y * self.width) by (nonlinear_arith);
            assert(self.pixels.len() <= usize::MAX);
        }
        let index: usize = (y as usize) * (self.width as usize) + (x as usize);
        self.pixels[index]
    }

    /// Replaces the pixel in column `x` of row `y` by `color`.
    pub fn put_pixel(&mut self, x: u32, y: u32, color: Color)
        requires
            old(self).wf(),
            old(self)@.contains(x as int, y as int),
        ensures
            final(self).wf(),
            final(self)@ == old(self)@.with_pixel(x as int, y as int, color),
            forall|px: int, py: int|
                old(self)@.contains(px, py) ==> #[trigger] final(self)@.pixel(px, py) == (if px == x
                    && py == y {
                    color
                } else {
                    old(self)@.pixel(px, py)
                }),
    {
        proof {
            lemma_position_index(self.width as int, self.height as int, x as int, y as int);
            lemma_with_pixel(self@, x as int, y as int, color);
            assert(0 <= y * self.width) by (nonlinear_arith);
            assert(self.pixels.len() <= usize::MAX);
        }
        let index: usize = (y as usize) * (self.width as usize) + (x as usize);
        self.pixels.set(index, color);
    }

    /// A second buffer with the same pixels.
    pub fn copy(&self) -> (twin: PixelBuffer)
        requires
            self.wf(),
        ensures
            twin.wf(),
            twin@ == self@,
    {
        let mut pixels: Vec<Color> = Vec::new();
        let mut i: usize = 0;
        while i < self.pixels.len()
            invariant
                i <= self.pixels.len(),
                pixels@ == self.pixels@.take(i as int),
            decreases self.pixels.len() - i,
        {
            pixels.push(self.pixels[i]);
            assert(self.pixels@.take(i + 1) =~= self.pixels@.take(i as int).push(
                self.pixels@[i as int],
            ));
            i += 1;
        }
        assert(self.pixels@.take(i as int) =~= self.pixels@);
        PixelBuffer { width: self.width, height: self.height, pixels }
    }
}

} // verus!
