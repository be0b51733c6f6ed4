//! The codecs: reading images and animations from the bytes of a file, and
//! writing them back. The work is done by the `image` crate; what this
//! module states of it is believed, not proved.

use vstd::prelude::*;
use crate::color::Color;
use crate::frames::{all_frames_wf, frame_views, Delay, Frame, FrameView};
use crate::raster::{PixelBuffer, Raster};

verus! {

/// The error type of the `image` crate.
#[verifier::external_type_specification]
#[verifier::external_body]
pub struct ExImageError(image::ImageError);

/// What the `image` crate makes of the bytes of a file when it tells the
/// format from the file's signature and decodes with its built-in decoder
/// for that format: `None` where it reports an error, else the decoded
/// image, each pixel as `get_pixel` gives it.
pub uninterp spec fn still_decoding(bytes: Seq<u8>) -> Option<Raster>;

/// What the `image` crate's GIF decoder makes of the bytes of a file: `None`
/// where it reports an error, else the frames it collects, in their order.
pub uninterp spec fn gif_decoding(bytes: Seq<u8>) -> Option<Seq<FrameView>>;

/// The PNG file that the `image` crate writes for an image, `None` where it
/// reports an error.
pub uninterp spec fn png_encoding(img: Raster) -> Option<Seq<u8>>;

/// The GIF file, set to repeat without end, that the `image` crate writes
/// for a sequence of frames, `None` where it reports an error.
pub uninterp spec fn gif_encoding(frames: Seq<FrameView>) -> Option<Seq<u8>>;

/// Decodes a still image with `image::guess_format` and
/// `image::load_from_memory_with_format`, and reads its pixels as RGBA with
/// `get_pixel`. Together the two calls do what `image::load_from_memory`
/// does where the process has registered no decoding hook; hooks are not
/// consulted here. Claimed: the decoded buffer is well formed, and the
/// outcome is a function of the bytes, named `still_decoding`.
#[verifier::external_body]
pub(crate) fn decode_still(bytes: &[u8]) -> (res: Result<PixelBuffer, image::ImageError>)
    ensures
        res matches Ok(img) ==> img.wf() && still_decoding(bytes@) == Some(img@),
        res is Err ==> still_decoding(bytes@) is None,
{
    let decoded = image::load_from_memory_with_format(bytes, image::guess_format(bytes)?)?;
    let rgba = image::RgbaImage::from_fn(
        decoded.width(),
        decoded.height(),
        |x, y| image::GenericImageView::get_pixel(&decoded, x, y),
    );
    let pixels = rgba.pixels().map(|p| Color::from_channels(p.0)).collect();
    Ok(PixelBuffer::from_parts(rgba.width(), rgba.height(), pixels))
}

/// Decodes an animation with `image::codecs::gif::GifDecoder` and collects
/// its frames. Claimed: every frame is well formed, and the outcome is a
/// function of the bytes, named `gif_decoding`.
#[verifier::external_body]
pub(crate) fn decode_gif(bytes: &[u8]) -> (res: Result<Vec<Frame>, image::ImageError>)
    ensures
        res matches Ok(frames) ==> all_frames_wf(frames@) && gif_decoding(bytes@) == Some(
            frame_views(frames@),
        ),
        res is Err ==> gif_decoding(bytes@) is None,
{
    let decoder = image::codecs::gif::GifDecoder::new(std::io::Cursor::new(bytes))?;
    let frames = image::AnimationDecoder::into_frames(decoder).collect_frames()?;
    let convert = |f: &image::Frame| {
        let pixels = f.buffer().pixels().map(|p| Color::from_channels(p.0)).collect();
        let buffer = PixelBuffer::from_parts(f.buffer().width(), f.buffer().height(), pixels);
        Frame { buffer, delay: Delay::from_pair(f.delay().numer_denom_ms()) }
    };
    Ok(frames.iter().map(convert).collect())
}

/// Writes an image as a PNG file with `DynamicImage::write_to`. Claimed: the
/// outcome is a function of the image, named `png_encoding`.
#[verifier::external_body]
pub(crate) fn encode_png(img: &PixelBuffer) -> (res: Result<Vec<u8>, image::ImageError>)
    requires
        img.wf(),
    ensures
        res matches Ok(bytes) ==> png_encoding(img@) == Some(bytes@),
        res is Err ==> png_encoding(img@) is None,
{
    let rgba = image::RgbaImage::from_fn(
        img.width(),
        img.height(),
        |x, y| image::Rgba(img.get_pixel(x, y).channels()),
    );
    let mut out = Vec::new();
    image::DynamicImage::ImageRgba8(rgba).write_to(
        std::io::Cursor::new(&mut out),
        image::ImageFormat::Png,
    )?;
    Ok(out)
}

/// Writes frames as a GIF file that repeats without end, with
/// `image::codecs::gif::GifEncoder`. Claimed: the outcome is a function of
/// the frames, named `gif_encoding`.
#[verifier::external_body]
pub(crate) fn encode_gif(frames: &Vec<Frame>) -> (res: Result<Vec<u8>, image::ImageError>)
    requires
        all_frames_wf(frames@),
    ensures
        res matches Ok(bytes) ==> gif_encoding(frame_views(frames@)) == Some(bytes@),
        res is Err ==> gif_encoding(frame_views(frames@)) is None,
{
    let convert = |f: &Frame| {
        let pixel = |x, y| image::Rgba(f.buffer.get_pixel(x, y).channels());
        let rgba = image::RgbaImage::from_fn(f.buffer.width(), f.buffer.height(), pixel);
        let delay = image::Delay::from_numer_denom_ms(f.delay.numer, f.delay.denom);
        image::Frame::from_parts(rgba, 0, 0, delay)
    };
    let mut out = Vec::new();
    let mut encoder = image::codecs::gif::GifEncoder::new(&mut out);
    encoder.set_repeat(image::codecs::gif::Repeat::Infinite)?;
    encoder.encode_frames(frames.iter().map(convert))?;
    drop(encoder);
    Ok(out)
}

/// The text of an error of the `image` crate, as its `Debug` form gives it,
/// behind `context`. Nothing is claimed of the text.
#[verifier::external_body]
pub(crate) fn describe(context: &str, error: &image::ImageError) -> (text: String) {
    format!("{}{:?}", context, error)
}

} // verus!
