//! The preview: a small crop from the middle of the transformed image.

use vstd::prelude::*;
use vstd::math::min;
use crate::color::Color;
use crate::raster::{lemma_from_fn, lemma_raster_equal, PixelBuffer, Raster};

verus! {

/// The greatest width of a preview, in pixels.
pub const PREVIEW_WIDTH: u32 = 200;

/// The greatest height of a preview, in pixels.
pub const PREVIEW_HEIGHT: u32 = 25;

/// A rectangle of pixels: its top-left corner and its dimensions.
#[derive(Clone, Copy, Debug, PartialEq, Eq, Structural)]
pub struct Rect {
    pub x: u32,
    pub y: u32,
    pub width: u32,
    pub height: u32,
}

/// The width of the preview of an image `width` pixels wide.
pub open spec fn preview_width(width: int) -> int {
    min(PREVIEW_WIDTH as int, width)
}

/// The height of the preview of an image `height` pixels high.
pub open spec fn preview_height(height: int) -> int {
    min(PREVIEW_HEIGHT as int, height)
}

/// The column at which the preview of an image `width` pixels wide begins:
/// the preview lies in the middle, half a pixel to the left where the
/// margin is odd.
pub open spec fn preview_left(width: int) -> int {
    (width - preview_width(width)) / 2
}

/// The row at which the preview of an image `height` pixels high begins.
pub open spec fn preview_top(height: int) -> int {
    (height - preview_height(height)) / 2
}

/// The preview of an image: at most 200 × 25 pixels, cut from its middle.
pub open spec fn preview_of(r: Raster) -> Raster {
    Raster::from_fn(
        preview_width(r.width as int) as nat,
        preview_height(r.height as int) as nat,
        |i: int, j: int|
            r.pixel(preview_left(r.width as int) + i, preview_top(r.height as int) + j),
    )
}

/// What `crop_imm` cuts out of an image: the corner is moved into the image
/// where it lies outside, the dimensions are cut down to what is left of
/// the image from there, and the pixels of that rectangle are copied.
pub open spec fn cropped(r: Raster, x: int, y: int, width: int, height: int) -> Raster {
    let left = min(x, r.width as int);
    let top = min(y, r.height as int);
    Raster::from_fn(
        min(width, r.width - left) as nat,
        min(height, r.height - top) as nat,
        |i: int, j: int| r.pixel(left + i, top + j),
    )
}

/// Cuts a rectangle out of an image with `image::imageops::crop_imm` and
/// `SubImage::to_image`. A rectangle that reaches over the image's edge is
/// cut down to the image, as `cropped` says.
#[verifier::external_body]
fn crop(img: &PixelBuffer, x: u32, y: u32, width: u32, height: u32) -> (out: PixelBuffer)
    requires
        img.wf(),
    ensures
        out.wf(),
        out@ == cropped(img@, x as int, y as int, width as int, height as int),
{
    let source = image::RgbaImage::from_fn(
        img.width(),
        img.height(),
        |x, y| image::Rgba(img.get_pixel(x, y).channels()),
    );
    let cut = image::imageops::crop_imm(&source, x, y, width, height).to_image();
    let pixels = cut.pixels().map(|p| Color::from_channels(p.0)).collect();
    PixelBuffer::from_parts(cut.width(), cut.height(), pixels)
}

/// The rectangle that the preview of a `width × height` image is cut from.
pub fn preview_rect(width: u32, height: u32) -> (rect: Rect)
    ensures
        rect.width == preview_width(width as int),
        rect.height == preview_height(height as int),
        rect.x == preview_left(width as int),
        rect.y == preview_top(height as int),
        rect.x + rect.width <= width,
        rect.y + rect.height <= height,
{
    let crop_width = if width < PREVIEW_WIDTH {
        width
    } else {
        PREVIEW_WIDTH
    };
    let crop_height = if height < PREVIEW_HEIGHT {
        height
    } else {
        PREVIEW_HEIGHT
    };
    Rect {
        x: (width - crop_width) / 2,
        y: (height - crop_height) / 2,
        width: crop_width,
        height: crop_height,
    }
}

/// The preview has the dimensions that `preview_width` and `preview_height`
/// name, and shows the pixels of the rectangle that begins at
/// `(preview_left, preview_top)`.
pub proof fn lemma_preview(r: Raster)
    ensures
        preview_of(r).wf(),
        preview_of(r).width == preview_width(r.width as int),
        preview_of(r).height == preview_height(r.height as int),
        forall|i: int, j: int|
            preview_of(r).contains(i, j) ==> #[trigger] preview_of(r).pixel(i, j) == r.pixel(
                preview_left(r.width as int) + i,
                preview_top(r.height as int) + j,
            ) && r.contains(
                preview_left(r.width as int) + i,
                preview_top(r.height as int) + j,
            ),
{
    lemma_from_fn(
        preview_width(r.width as int) as nat,
        preview_height(r.height as int) as nat,
        |i: int, j: int|
            r.pixel(preview_left(r.width as int) + i, preview_top(r.height as int) + j),
    );
}

/// Cuts the preview out of an image.
pub fn crop_preview(img: &PixelBuffer) -> (out: PixelBuffer)
    requires
        img.wf(),
    ensures
        out.wf(),
        out@ == preview_of(img@),
{
    let rect = preview_rect(img.width(), img.height());
    let out = crop(img, rect.x, rect.y, rect.width, rect.height);
    proof {
        let r = img@;
        lemma_preview(r);
        lemma_from_fn(
            rect.width as nat,
            rect.height as nat,
            |i: int, j: int| r.pixel(rect.x + i, rect.y + j),
        );
        lemma_raster_equal(out@, preview_of(r));
    }
    out
}

} // verus!
