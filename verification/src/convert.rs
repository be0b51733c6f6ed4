//! The conversion: from the bytes of an image file to the transformed image
//! and its preview, both as the bytes of a file again.

use vstd::prelude::*;
use crate::codec::{
    decode_gif, decode_still, describe, encode_gif, encode_png, gif_decoding, gif_encoding,
    png_encoding, still_decoding,
};
use crate::engine::{amogified, amogify, lemma_small_image_unchanged};
use crate::glyph::{TILE_HEIGHT, TILE_WIDTH};
use crate::frames::{
    all_frames_wf, amogified_frames, amogify_frames, frame_views, Frame, FrameView,
};
use crate::orient::{
    exif_reading, lemma_oriented, orientation_code, oriented, read_orientation, rotate_image,
};
use crate::preview::{crop_preview, preview_of};
use crate::raster::{PixelBuffer, Raster};

verus! {

/// The length of the signature by which a GIF file is known.
pub const SIGNATURE_LEN: usize = 6;

/// Why a conversion failed.
#[derive(Clone, Copy, Debug, PartialEq, Eq, Structural)]
pub enum ErrorKind {
    /// The bytes are no image that the decoder can read.
    Decode,
    /// The animation holds no frame.
    NoFrames,
    /// The encoder could not write the result.
    Encode,
}

/// A failed conversion: its kind, and for the codecs' errors their text.
#[derive(Debug)]
pub enum ConvertError {
    Decode(String),
    NoFrames,
    Encode(String),
}

impl ConvertError {
    pub open spec fn spec_kind(&self) -> ErrorKind {
        match self {
            ConvertError::Decode(_) => ErrorKind::Decode,
            ConvertError::NoFrames => ErrorKind::NoFrames,
            ConvertError::Encode(_) => ErrorKind::Encode,
        }
    }

    /// The kind of the failure.
    #[verifier::when_used_as_spec(spec_kind)]
    pub fn kind(&self) -> (kind: ErrorKind)
        ensures
            kind == self.spec_kind(),
    {
        match self {
            ConvertError::Decode(_) => ErrorKind::Decode,
            ConvertError::NoFrames => ErrorKind::NoFrames,
            ConvertError::Encode(_) => ErrorKind::Encode,
        }
    }

    /// A description of the failure for a reader.
    pub fn message(&self) -> (text: String)
        ensures
            self matches ConvertError::Decode(t) ==> text@ == t@,
            self matches ConvertError::Encode(t) ==> text@ == t@,
            self is NoFrames ==> text@ == "No frames found in GIF"@,
    {
        match self {
            ConvertError::Decode(t) => t.clone(),
            ConvertError::NoFrames => "No frames found in GIF".to_owned(),
            ConvertError::Encode(t) => t.clone(),
        }
    }
}

/// The result of a conversion: the preview and the full image, each as the
/// bytes of a file, and whether the source was an animation.
pub struct ConvertedImage {
    preview: Vec<u8>,
    full: Vec<u8>,
    is_animated: bool,
}

/// The mathematical value of a `ConvertedImage`.
pub struct ConvertedView {
    pub preview: Seq<u8>,
    pub full: Seq<u8>,
    pub is_animated: bool,
}

impl View for ConvertedImage {
    type V = ConvertedView;

    closed spec fn view(&self) -> ConvertedView {
        ConvertedView {
            preview: self.preview@,
            full: self.full@,
            is_animated: self.is_animated,
        }
    }
}

impl ConvertedImage {
    pub fn new(preview: Vec<u8>, full: Vec<u8>, is_animated: bool) -> (made: ConvertedImage)
        ensures
            made@ == (ConvertedView { preview: preview@, full: full@, is_animated }),
    {
        ConvertedImage { preview, full, is_animated }
    }

    /// A copy of the preview file.
    pub fn preview(&self) -> (bytes: Vec<u8>)
        ensures
            bytes@ == self@.preview,
    {
        self.preview.clone()
    }

    /// A copy of the full file.
    pub fn full(&self) -> (bytes: Vec<u8>)
        ensures
            bytes@ == self@.full,
    {
        self.full.clone()
    }

    pub fn is_animated(&self) -> (animated: bool)
        ensures
            animated == self@.is_animated,
    {
        self.is_animated
    }
}

/// The signature of a GIF file of version 87a.
pub open spec fn gif87a() -> Seq<u8> {
    seq![0x47u8, 0x49u8, 0x46u8, 0x38u8, 0x37u8, 0x61u8]
}

/// The signature of a GIF file of version 89a.
pub open spec fn gif89a() -> Seq<u8> {
    seq![0x47u8, 0x49u8, 0x46u8, 0x38u8, 0x39u8, 0x61u8]
}

/// Whether the bytes begin with one of the two GIF signatures.
pub open spec fn has_gif_signature(bytes: Seq<u8>) -> bool {
    bytes.len() >= SIGNATURE_LEN && (bytes.take(SIGNATURE_LEN as int) == gif87a() || bytes.take(
        SIGNATURE_LEN as int,
    ) == gif89a())
}

/// What two encodings make together: the converted image where both
/// succeeded, an encoding failure where one did not.
pub open spec fn assembled(full: Option<Seq<u8>>, preview: Option<Seq<u8>>, is_animated: bool)
    -> Result<ConvertedView, ErrorKind> {
    match (full, preview) {
        (Some(full), Some(preview)) => Ok(ConvertedView { preview, full, is_animated }),
        _ => Err(ErrorKind::Encode),
    }
}

/// What becomes of a decoded still image: it is turned upright by the
/// orientation code and transformed; the result and the preview cut from
/// it are written as PNG files.
pub open spec fn still_rendering(decoded: Raster, orientation: u16) -> Result<
    ConvertedView,
    ErrorKind,
> {
    let full = amogified(oriented(decoded, orientation));
    assembled(png_encoding(full), png_encoding(preview_of(full)), false)
}

/// What becomes of the decoded frames of an animation, of which there must
/// be one at least: every frame is transformed; the frames are written as a
/// GIF file, and the preview cut from the first of them as a PNG file.
pub open spec fn animation_rendering(frames: Seq<FrameView>) -> Result<ConvertedView, ErrorKind> {
    if frames.len() == 0 {
        Err(ErrorKind::NoFrames)
    } else {
        let transformed = amogified_frames(frames);
        assembled(
            gif_encoding(transformed),
            png_encoding(preview_of(transformed[0].raster)),
            true,
        )
    }
}

/// The conversion of a still image: it is decoded and rendered under the
/// orientation that its metadata names.
pub open spec fn still_conversion(bytes: Seq<u8>) -> Result<ConvertedView, ErrorKind> {
    match still_decoding(bytes) {
        None => Err(ErrorKind::Decode),
        Some(decoded) => still_rendering(decoded, orientation_code(exif_reading(bytes))),
    }
}

/// The conversion of an animation: it is decoded into its frames, which are
/// rendered.
pub open spec fn animated_conversion(bytes: Seq<u8>) -> Result<ConvertedView, ErrorKind> {
    match gif_decoding(bytes) {
        None => Err(ErrorKind::Decode),
        Some(frames) => animation_rendering(frames),
    }
}

/// The conversion of a file: that of an animation where the bytes begin
/// with a GIF signature, else that of a still image.
pub open spec fn conversion(bytes: Seq<u8>) -> Result<ConvertedView, ErrorKind> {
    if has_gif_signature(bytes) {
        animated_conversion(bytes)
    } else {
        still_conversion(bytes)
    }
}

/// Whether an outcome is the one that `expected` names: the same value, or
/// a failure of the same kind.
pub open spec fn agrees(
    outcome: Result<ConvertedImage, ConvertError>,
    expected: Result<ConvertedView, ErrorKind>,
) -> bool {
    match expected {
        Ok(view) => outcome matches Ok(made) && made@ == view,
        Err(kind) => outcome matches Err(error) && error.kind() == kind,
    }
}

/// An image that is narrower or lower than a tile once it is upright is
/// written as it is: what is encoded is the upright image itself.
pub proof fn lemma_small_image_rendering(decoded: Raster, orientation: u16)
    requires
        decoded.wf(),
        oriented(decoded, orientation).width < TILE_WIDTH || oriented(
            decoded,
            orientation,
        ).height < TILE_HEIGHT,
    ensures
        still_rendering(decoded, orientation) == assembled(
            png_encoding(oriented(decoded, orientation)),
            png_encoding(preview_of(oriented(decoded, orientation))),
            false,
        ),
{
    lemma_oriented(decoded, orientation);
    lemma_small_image_unchanged(oriented(decoded, orientation));
}

/// A conversion that succeeds tells an animation from a still image by the
/// signature of the file.
pub proof fn lemma_animated_flag(bytes: Seq<u8>)
    ensures
        conversion(bytes) matches Ok(made) ==> made.is_animated == has_gif_signature(bytes),
{
}

/// Whether the bytes begin with `GIF87a` or `GIF89a`.
pub fn is_gif(bytes: &[u8]) -> (gif: bool)
    ensures
        gif == has_gif_signature(bytes@),
{
    if bytes.len() < SIGNATURE_LEN {
        return false;
    }
    let gif = bytes[0] == 0x47 && bytes[1] == 0x49 && bytes[2] == 0x46 && bytes[3] == 0x38 && (
    bytes[4] == 0x37 || bytes[4] == 0x39) && bytes[5] == 0x61;
    proof {
        let head = bytes@.take(SIGNATURE_LEN as int);
        if gif {
            if bytes[4] == 0x37 {
                assert(head =~= gif87a());
            } else {
                assert(head =~= gif89a());
            }
        } else {
            if head == gif87a() {
                assert(head[0] == 0x47 && head[1] == 0x49 && head[2] == 0x46 && head[3] == 0x38
                    && head[4] == 0x37 && head[5] == 0x61);
            }
            if head == gif89a() {
                assert(head[0] == 0x47 && head[1] == 0x49 && head[2] == 0x46 && head[3] == 0x38
                    && head[4] == 0x39 && head[5] == 0x61);
            }
        }
    }
    gif
}

/// Renders a decoded still image: it is turned upright by the orientation
/// code and transformed, and the result and its preview are written as PNG
/// files. Fails only where the encoder does.
pub fn render_still(decoded: PixelBuffer, orientation: u16) -> (res: Result<
    ConvertedImage,
    ConvertError,
>)
    requires
        decoded.wf(),
    ensures
        agrees(res, still_rendering(decoded@, orientation)),
{
    let upright = rotate_image(decoded, orientation);
    let transformed = amogify(&upright);
    let full = match encode_png(&transformed) {
        Ok(full) => full,
        Err(error) => {
            return Err(ConvertError::Encode(describe("", &error)));
        },
    };
    let cut = crop_preview(&transformed);
    let preview = match encode_png(&cut) {
        Ok(preview) => preview,
        Err(error) => {
            return Err(ConvertError::Encode(describe("", &error)));
        },
    };
    Ok(ConvertedImage::new(preview, full, false))
}

/// Renders the decoded frames of an animation: every frame is transformed
/// and keeps its delay, the frames are written as a GIF file that repeats
/// without end, and the preview is cut from the first transformed frame.
/// Fails where there is no frame, and where the encoder fails.
pub fn render_animation(frames: &Vec<Frame>) -> (res: Result<ConvertedImage, ConvertError>)
    requires
        all_frames_wf(frames@),
    ensures
        agrees(res, animation_rendering(frame_views(frames@))),
{
    if frames.len() == 0 {
        return Err(ConvertError::NoFrames);
    }
    let transformed = amogify_frames(frames);
    let full = match encode_gif(&transformed) {
        Ok(full) => full,
        Err(error) => {
            return Err(ConvertError::Encode(describe("Failed to encode frame: ", &error)));
        },
    };
    assert(transformed@[0].wf());
    let cut = crop_preview(&transformed[0].buffer);
    let preview = match encode_png(&cut) {
        Ok(preview) => preview,
        Err(error) => {
            return Err(ConvertError::Encode(describe("Failed to write preview: ", &error)));
        },
    };
    Ok(ConvertedImage::new(preview, full, true))
}

/// Converts an animation: the file is decoded into its frames, which are
/// rendered.
pub fn convert_gif(bytes: &[u8]) -> (res: Result<ConvertedImage, ConvertError>)
    ensures
        agrees(res, animated_conversion(bytes@)),
{
    match decode_gif(bytes) {
        Ok(frames) => render_animation(&frames),
        Err(error) => Err(ConvertError::Decode(describe("Failed to decode GIF: ", &error))),
    }
}

/// Converts a still image: the file is decoded and rendered under the
/// orientation that its metadata names, or upright where it names none.
pub fn convert_still(bytes: &[u8]) -> (res: Result<ConvertedImage, ConvertError>)
    ensures
        agrees(res, still_conversion(bytes@)),
{
    match decode_still(bytes) {
        Ok(decoded) => render_still(decoded, read_orientation(bytes)),
        Err(error) => Err(ConvertError::Decode(describe("", &error))),
    }
}

/// Converts an image file. A file that begins with a GIF signature is
/// converted as an animation, any other file as a still image.
pub fn convert_image(bytes: Vec<u8>) -> (res: Result<ConvertedImage, ConvertError>)
    ensures
        agrees(res, conversion(bytes@)),
{
    if is_gif(bytes.as_slice()) {
        convert_gif(bytes.as_slice())
    } else {
        convert_still(bytes.as_slice())
    }
}

} // verus!
