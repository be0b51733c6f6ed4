//! Orientation: turning a decoded image upright, by the orientation code
//! that a camera wrote into the image's metadata.

use vstd::prelude::*;
use crate::color::Color;
use crate::raster::{lemma_from_fn, PixelBuffer, Raster};

verus! {

/// The metadata tag that holds the orientation code.
pub const ORIENTATION_TAG: u32 = 0x0112;

/// The orientation code of an image that is upright already, and of one
/// whose metadata names no usable code.
pub const UPRIGHT: u16 = 1;

/// One metadata field: its tag, and its first value where that is an
/// integer.
#[derive(Clone, Copy, Debug, PartialEq, Eq, Structural)]
pub struct ExifField {
    pub tag: u32,
    pub value: Option<i64>,
}

/// The image turned a quarter clockwise: the left column becomes the top
/// row.
pub open spec fn rotated90(r: Raster) -> Raster {
    Raster::from_fn(r.height, r.width, |x: int, y: int| r.pixel(y, r.height - 1 - x))
}

/// The image turned upside down.
pub open spec fn rotated180(r: Raster) -> Raster {
    Raster::from_fn(
        r.width,
        r.height,
        |x: int, y: int| r.pixel(r.width - 1 - x, r.height - 1 - y),
    )
}

/// The image turned three quarters clockwise: the top row becomes the left
/// column, read from the bottom.
pub open spec fn rotated270(r: Raster) -> Raster {
    Raster::from_fn(r.height, r.width, |x: int, y: int| r.pixel(r.width - 1 - y, x))
}

/// The image turned as the orientation code asks: 3 turns it upside down, 6
/// a quarter clockwise, 8 three quarters clockwise; under any other code it
/// stays as it is.
pub open spec fn oriented(r: Raster, orientation: u16) -> Raster {
    if orientation == 3 {
        rotated180(r)
    } else if orientation == 6 {
        rotated90(r)
    } else if orientation == 8 {
        rotated270(r)
    } else {
        r
    }
}

/// The first field with the orientation tag, if there is one.
pub open spec fn orientation_field(fields: Seq<ExifField>) -> Option<ExifField>
    decreases fields.len(),
{
    if fields.len() == 0 {
        None
    } else if fields[0].tag == ORIENTATION_TAG {
        Some(fields[0])
    } else {
        orientation_field(fields.drop_first())
    }
}

/// The orientation code that a field value stands for: the value itself
/// where it is a 16-bit number, else `UPRIGHT`.
pub open spec fn code_of_value(value: Option<i64>) -> u16 {
    match value {
        Some(v) => if 0 <= v <= u16::MAX {
            v as u16
        } else {
            UPRIGHT
        },
        None => UPRIGHT,
    }
}

/// The orientation code that metadata names: that of the first field with
/// the orientation tag; `UPRIGHT` where there is no metadata or no such
/// field.
pub open spec fn orientation_code(metadata: Option<Seq<ExifField>>) -> u16 {
    match metadata {
        Some(fields) => match orientation_field(fields) {
            Some(field) => code_of_value(field.value),
            None => UPRIGHT,
        },
        None => UPRIGHT,
    }
}

/// A quarter turn exchanges width and height and takes the pixel at
/// `(x, y)` to `(height - 1 - y, x)`.
pub proof fn lemma_rotated90(r: Raster)
    requires
        r.wf(),
    ensures
        rotated90(r).wf(),
        rotated90(r).width == r.height,
        rotated90(r).height == r.width,
        forall|x: int, y: int|
            r.contains(x, y) ==> rotated90(r).pixel(r.height - 1 - y, x) == #[trigger] r.pixel(
                x,
                y,
            ),
{
    lemma_from_fn(r.height, r.width, |x: int, y: int| r.pixel(y, r.height - 1 - x));
    assert forall|x: int, y: int| r.contains(x, y) implies rotated90(r).pixel(
        r.height - 1 - y,
        x,
    ) == #[trigger] r.pixel(x, y) by {
        assert(rotated90(r).contains(r.height - 1 - y, x));
    }
}

/// A half turn keeps width and height and takes the pixel at `(x, y)` to
/// `(width - 1 - x, height - 1 - y)`.
pub proof fn lemma_rotated180(r: Raster)
    requires
        r.wf(),
    ensures
        rotated180(r).wf(),
        rotated180(r).width == r.width,
        rotated180(r).height == r.height,
        forall|x: int, y: int|
            r.contains(x, y) ==> rotated180(r).pixel(r.width - 1 - x, r.height - 1 - y)
                == #[trigger] r.pixel(x, y),
{
    lemma_from_fn(
        r.width,
        r.height,
        |x: int, y: int| r.pixel(r.width - 1 - x, r.height - 1 - y),
    );
    assert forall|x: int, y: int| r.contains(x, y) implies rotated180(r).pixel(
        r.width - 1 - x,
        r.height - 1 - y,
    ) == #[trigger] r.pixel(x, y) by {
        assert(rotated180(r).contains(r.width - 1 - x, r.height - 1 - y));
    }
}

/// Three quarter turns exchange width and height and take the pixel at
/// `(x, y)` to `(y, width - 1 - x)`.
pub proof fn lemma_rotated270(r: Raster)
    requires
        r.wf(),
    ensures
        rotated270(r).wf(),
        rotated270(r).width == r.height,
        rotated270(r).height == r.width,
        forall|x: int, y: int|
            r.contains(x, y) ==> rotated270(r).pixel(y, r.width - 1 - x) == #[trigger] r.pixel(
                x,
                y,
            ),
{
    lemma_from_fn(r.height, r.width, |x: int, y: int| r.pixel(r.width - 1 - y, x));
    assert forall|x: int, y: int| r.contains(x, y) implies rotated270(r).pixel(
        y,
        r.width - 1 - x,
    ) == #[trigger] r.pixel(x, y) by {
        assert(rotated270(r).contains(y, r.width - 1 - x));
    }
}

/// Only the codes 3, 6 and 8 turn an image; an image turned is well formed
/// and has as many pixels as before.
pub proof fn lemma_oriented(r: Raster, orientation: u16)
    requires
        r.wf(),
    ensures
        oriented(r, orientation).wf(),
        orientation != 3 && orientation != 6 && orientation != 8 ==> oriented(r, orientation)
            == r,
        oriented(r, orientation).pixels.len() == r.pixels.len(),
{
    lemma_rotated90(r);
    lemma_rotated180(r);
    lemma_rotated270(r);
    assert(r.width * r.height == r.height * r.width) by (nonlinear_arith);
}

/// What `rexif::parse_buffer_quiet` reads from the bytes of a file: `None`
/// where it reports an error, else the fields it found, in its order, each
/// with its tag number and with what `TagValue::to_i64(0)` gives for it.
pub uninterp spec fn exif_reading(bytes: Seq<u8>) -> Option<Seq<ExifField>>;

/// Reads the metadata fields of a file with `rexif::parse_buffer_quiet`.
/// Nothing is claimed of the fields but that they are a function of the
/// bytes, named `exif_reading`.
#[verifier::external_body]
fn read_exif(bytes: &[u8]) -> (metadata: Option<Vec<ExifField>>)
    ensures
        metadata matches Some(fields) ==> exif_reading(bytes@) == Some(fields@),
        metadata is None ==> exif_reading(bytes@) is None,
{
    match rexif::parse_buffer_quiet(bytes).0 {
        Ok(data) => Some(
            data.entries.iter().map(
                |e| ExifField { tag: e.tag as u32, value: e.value.to_i64(0) },
            ).collect(),
        ),
        Err(_) => None,
    }
}

/// Turns an image a quarter clockwise with `image::imageops::rotate90`, which
/// puts the pixel at `(x, y)` to `(height - 1 - y, x)` of an image with
/// width and height exchanged.
#[verifier::external_body]
fn rotate90(img: &PixelBuffer) -> (out: PixelBuffer)
    requires
        img.wf(),
    ensures
        out.wf(),
        out@ == rotated90(img@),
{
    let source = image::RgbaImage::from_fn(
        img.width(),
        img.height(),
        |x, y| image::Rgba(img.get_pixel(x, y).channels()),
    );
    let turned = image::imageops::rotate90(&source);
    let pixels = turned.pixels().map(|p| Color::from_channels(p.0)).collect();
    PixelBuffer::from_parts(turned.width(), turned.height(), pixels)
}

/// Turns an image upside down with `image::imageops::rotate180`, which puts
/// the pixel at `(x, y)` to `(width - 1 - x, height - 1 - y)`.
#[verifier::external_body]
fn rotate180(img: &PixelBuffer) -> (out: PixelBuffer)
    requires
        img.wf(),
    ensures
        out.wf(),
        out@ == rotated180(img@),
{
    let source = image::RgbaImage::from_fn(
        img.width(),
        img.height(),
        |x, y| image::Rgba(img.get_pixel(x, y).channels()),
    );
    let turned = image::imageops::rotate180(&source);
    let pixels = turned.pixels().map(|p| Color::from_channels(p.0)).collect();
    PixelBuffer::from_parts(turned.width(), turned.height(), pixels)
}

/// Turns an image three quarters clockwise with
/// `image::imageops::rotate270`, which puts the pixel at `(x, y)` to
/// `(y, width - 1 - x)` of an image with width and height exchanged.
#[verifier::external_body]
fn rotate270(img: &PixelBuffer) -> (out: PixelBuffer)
    requires
        img.wf(),
    ensures
        out.wf(),
        out@ == rotated270(img@),
{
    let source = image::RgbaImage::from_fn(
        img.width(),
        img.height(),
        |x, y| image::Rgba(img.get_pixel(x, y).channels()),
    );
    let turned = image::imageops::rotate270(&source);
    let pixels = turned.pixels().map(|p| Color::from_channels(p.0)).collect();
    PixelBuffer::from_parts(turned.width(), turned.height(), pixels)
}

/// Turns an image upright: under orientation 3 it is turned upside down,
/// under 6 a quarter clockwise, under 8 three quarters clockwise. Any other
/// code leaves the image as it is.
pub fn rotate_image(img: PixelBuffer, orientation: u16) -> (out: PixelBuffer)
    requires
        img.wf(),
    ensures
        out.wf(),
        out@ == oriented(img@, orientation),
{
    match orientation {
        3 => rotate180(&img),
        6 => rotate90(&img),
        8 => rotate270(&img),
        _ => img,
    }
}

/// The orientation code that a list of metadata fields names: the value of
/// the first field with the orientation tag, or `UPRIGHT` where there is no
/// such field or its value is no 16-bit number.
pub fn orientation_of(fields: &Vec<ExifField>) -> (code: u16)
    ensures
        code == orientation_code(Some(fields@)),
{
    let mut i: usize = 0;
    assert(fields@.skip(0) =~= fields@);
    while i < fields.len()
        invariant
            i <= fields@.len(),
            orientation_field(fields@) == orientation_field(fields@.skip(i as int)),
        decreases fields@.len() - i,
    {
        let field = fields[i];
        proof {
            let rest = fields@.skip(i as int);
            assert(rest[0] == field);
            assert(rest.drop_first() =~= fields@.skip(i + 1));
        }
        if field.tag == ORIENTATION_TAG {
            return match field.value {
                Some(v) => if 0 <= v && v <= 65535 {
                    v as u16
                } else {
                    UPRIGHT
                },
                None => UPRIGHT,
            };
        }
        i += 1;
    }
    UPRIGHT
}

/// The orientation code that the metadata of a file names, `UPRIGHT` where
/// the file has no readable metadata.
pub fn read_orientation(bytes: &[u8]) -> (code: u16)
    ensures
        code == orientation_code(exif_reading(bytes@)),
{
    match read_exif(bytes) {
        Some(fields) => orientation_of(&fields),
        None => UPRIGHT,
    }
}

} // verus!
