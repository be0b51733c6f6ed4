use amogus::{
    convert_gif, convert_image, convert_still, is_gif, render_animation, render_still, Color,
    ConvertError, ConvertedImage, Delay, ErrorKind, Frame, PixelBuffer,
};
use std::io::Cursor;

const RED: Color = Color { r: 255, g: 0, b: 0, a: 255 };
const LIGHT_RED: Color = Color { r: 255, g: 8, b: 8, a: 255 };
const BLUE: Color = Color { r: 0, g: 0, b: 255, a: 255 };
const LIGHT_BLUE: Color = Color { r: 8, g: 8, b: 255, a: 255 };
const GREEN: Color = Color { r: 0, g: 255, b: 0, a: 255 };
const LIGHT_GREEN: Color = Color { r: 8, g: 255, b: 8, a: 255 };

fn coded(x: u32, y: u32) -> Color {
    Color::new((x * 16) as u8, (y * 16) as u8, 99, 255)
}

fn image_of(width: u32, height: u32, f: fn(u32, u32) -> Color) -> PixelBuffer {
    let mut pixels = Vec::new();
    for y in 0..height {
        for x in 0..width {
            pixels.push(f(x, y));
        }
    }
    PixelBuffer::from_pixels(width, height, pixels).unwrap()
}

fn to_rgba(img: &PixelBuffer) -> image::RgbaImage {
    image::RgbaImage::from_fn(img.width(), img.height(), |x, y| {
        image::Rgba(img.get_pixel(x, y).channels())
    })
}

fn png_of(img: &PixelBuffer) -> Vec<u8> {
    let mut bytes = Vec::new();
    image::DynamicImage::ImageRgba8(to_rgba(img))
        .write_to(&mut Cursor::new(&mut bytes), image::ImageFormat::Png)
        .unwrap();
    bytes
}

fn gif_of(frames: &[(PixelBuffer, u32)]) -> Vec<u8> {
    let mut bytes = Vec::new();
    {
        let mut encoder = image::codecs::gif::GifEncoder::new(&mut bytes);
        for (img, millis) in frames {
            let delay = image::Delay::from_numer_denom_ms(*millis, 1);
            encoder.encode_frame(image::Frame::from_parts(to_rgba(img), 0, 0, delay)).unwrap();
        }
    }
    bytes
}

fn decoded(bytes: &[u8]) -> image::RgbaImage {
    image::load_from_memory(bytes).unwrap().to_rgba8()
}

fn decoded_frames(bytes: &[u8]) -> Vec<image::Frame> {
    let decoder = image::codecs::gif::GifDecoder::new(Cursor::new(bytes)).unwrap();
    image::AnimationDecoder::into_frames(decoder).collect_frames().unwrap()
}

fn pixel(img: &image::RgbaImage, x: u32, y: u32) -> Color {
    Color::from_channels(img.get_pixel(x, y).0)
}

fn kind_of(res: Result<ConvertedImage, ConvertError>) -> ErrorKind {
    match res {
        Ok(_) => panic!("the conversion succeeded"),
        Err(e) => e.kind(),
    }
}

/// A little-endian TIFF file of 2 × 1 grey pixels, 10 and 200, with the
/// given orientation.
fn tiff_with_orientation(orientation: u16) -> Vec<u8> {
    let mut bytes: Vec<u8> = vec![0x49, 0x49, 0x2A, 0x00, 8, 0, 0, 0];
    let entries: [(u16, u16, u32); 10] = [
        (256, 3, 2),
        (257, 3, 1),
        (258, 3, 8),
        (259, 3, 1),
        (262, 3, 1),
        (273, 4, 134),
        (274, 3, orientation as u32),
        (277, 3, 1),
        (278, 3, 1),
        (279, 4, 2),
    ];
    bytes.extend_from_slice(&(entries.len() as u16).to_le_bytes());
    for (tag, kind, value) in entries {
        bytes.extend_from_slice(&tag.to_le_bytes());
        bytes.extend_from_slice(&kind.to_le_bytes());
        bytes.extend_from_slice(&1u32.to_le_bytes());
        bytes.extend_from_slice(&value.to_le_bytes());
    }
    bytes.extend_from_slice(&0u32.to_le_bytes());
    bytes.extend_from_slice(&[10, 200]);
    bytes
}

#[test]
fn a_gif_is_known_by_its_signature() {
    assert!(is_gif(b"GIF87a"));
    assert!(is_gif(b"GIF89a"));
    assert!(is_gif(b"GIF89a and more"));
    assert!(!is_gif(b"GIF88a"));
    assert!(!is_gif(b"GIF89b"));
    assert!(!is_gif(b"gif89a"));
    assert!(!is_gif(b" GIF89a"));
}

#[test]
fn bytes_shorter_than_the_signature_are_no_gif() {
    assert!(!is_gif(b""));
    assert!(!is_gif(b"GIF89"));
    assert!(!is_gif(b"G"));
}

#[test]
fn converted_image_gives_back_what_it_was_made_of() {
    let made = ConvertedImage::new(vec![1, 2, 3], vec![4, 5], true);
    assert_eq!(made.preview(), vec![1, 2, 3]);
    assert_eq!(made.full(), vec![4, 5]);
    assert!(made.is_animated());
    let made = ConvertedImage::new(Vec::new(), vec![9], false);
    assert_eq!(made.preview(), Vec::<u8>::new());
    assert_eq!(made.full(), vec![9]);
    assert!(!made.is_animated());
}

#[test]
fn a_solid_red_image_of_two_tiles_end_to_end() {
    let source = PixelBuffer::filled(8, 10, RED).unwrap();
    let out = convert_image(png_of(&source)).unwrap();
    assert!(!out.is_animated());
    let full = decoded(&out.full());
    assert_eq!(full.dimensions(), (8, 10));
    for (tx, ty) in [(0u32, 0u32), (4, 0), (0, 5), (4, 5)] {
        assert_eq!(pixel(&full, tx + 2, ty + 1), LIGHT_RED);
        assert_eq!(pixel(&full, tx + 1, ty), RED);
        assert_eq!(pixel(&full, tx, ty), RED);
    }
    let preview = decoded(&out.preview());
    assert_eq!(preview.dimensions(), (8, 10));
    assert_eq!(preview, full);
}

#[test]
fn an_image_smaller_than_a_tile_comes_back_as_it_was() {
    for (width, height) in [(3u32, 4u32), (3, 20), (20, 4), (1, 1)] {
        let source = image_of(width, height, coded);
        let out = convert_image(png_of(&source)).unwrap();
        assert!(!out.is_animated());
        assert_eq!(decoded(&out.full()), to_rgba(&source));
    }
}

#[test]
fn the_full_file_is_a_png_file() {
    let out = convert_image(png_of(&image_of(5, 5, coded))).unwrap();
    assert_eq!(image::guess_format(&out.full()).unwrap(), image::ImageFormat::Png);
    assert_eq!(image::guess_format(&out.preview()).unwrap(), image::ImageFormat::Png);
}

#[test]
fn the_preview_of_a_large_image_is_cut_from_the_middle() {
    let source = image_of(500, 100, |x, y| {
        Color::new((x / 4) as u8, (y / 5) as u8, ((x / 4 + y / 5) % 2 * 255) as u8, 255)
    });
    let out = convert_image(png_of(&source)).unwrap();
    let full = decoded(&out.full());
    let preview = decoded(&out.preview());
    assert_eq!(full.dimensions(), (500, 100));
    assert_eq!(preview.dimensions(), (200, 25));
    for j in 0..25u32 {
        for i in 0..200u32 {
            assert_eq!(preview.get_pixel(i, j), full.get_pixel(150 + i, 37 + j));
        }
    }
}

#[test]
fn the_metadata_orientation_turns_a_still_image() {
    let out = convert_image(tiff_with_orientation(6)).unwrap();
    let full = decoded(&out.full());
    assert_eq!(full.dimensions(), (1, 2));
    assert_eq!(pixel(&full, 0, 0), Color::new(10, 10, 10, 255));
    assert_eq!(pixel(&full, 0, 1), Color::new(200, 200, 200, 255));

    let out = convert_image(tiff_with_orientation(3)).unwrap();
    let full = decoded(&out.full());
    assert_eq!(full.dimensions(), (2, 1));
    assert_eq!(pixel(&full, 0, 0), Color::new(200, 200, 200, 255));
    assert_eq!(pixel(&full, 1, 0), Color::new(10, 10, 10, 255));

    let out = convert_image(tiff_with_orientation(8)).unwrap();
    let full = decoded(&out.full());
    assert_eq!(full.dimensions(), (1, 2));
    assert_eq!(pixel(&full, 0, 0), Color::new(200, 200, 200, 255));
    assert_eq!(pixel(&full, 0, 1), Color::new(10, 10, 10, 255));
}

#[test]
fn an_orientation_that_is_no_turn_is_left_alone() {
    for code in [0u16, 1, 2, 4, 5, 7, 255] {
        let out = convert_image(tiff_with_orientation(code)).unwrap();
        let full = decoded(&out.full());
        assert_eq!(full.dimensions(), (2, 1));
        assert_eq!(pixel(&full, 0, 0), Color::new(10, 10, 10, 255));
        assert_eq!(pixel(&full, 1, 0), Color::new(200, 200, 200, 255));
    }
}

#[test]
fn an_animation_keeps_its_frames_and_their_delays() {
    let frames = [
        (PixelBuffer::filled(8, 10, RED).unwrap(), 100),
        (PixelBuffer::filled(8, 10, BLUE).unwrap(), 200),
        (PixelBuffer::filled(8, 10, GREEN).unwrap(), 100),
    ];
    let out = convert_image(gif_of(&frames)).unwrap();
    assert!(out.is_animated());
    assert!(is_gif(&out.full()));
    let back = decoded_frames(&out.full());
    assert_eq!(back.len(), 3);
    let delays: Vec<(u32, u32)> = back.iter().map(|f| f.delay().numer_denom_ms()).collect();
    assert_eq!(delays, vec![(100, 1), (200, 1), (100, 1)]);
    let expected = [(RED, LIGHT_RED), (BLUE, LIGHT_BLUE), (GREEN, LIGHT_GREEN)];
    for (frame, (top, second)) in back.iter().zip(expected) {
        assert_eq!(frame.buffer().dimensions(), (8, 10));
        assert_eq!(pixel(frame.buffer(), 0, 0), top);
        assert_eq!(pixel(frame.buffer(), 1, 0), top);
        assert_eq!(pixel(frame.buffer(), 2, 1), second);
        assert_eq!(pixel(frame.buffer(), 6, 8), second);
    }
}

#[test]
fn an_animation_repeats_without_end() {
    let frames = [(PixelBuffer::filled(4, 5, RED).unwrap(), 50)];
    let out = convert_image(gif_of(&frames)).unwrap();
    let full = out.full();
    let marker = b"NETSCAPE2.0\x03\x01\x00\x00\x00";
    assert!(full.windows(marker.len()).any(|w| w == marker));
}

#[test]
fn the_preview_of_an_animation_is_cut_from_its_first_frame() {
    let frames = [
        (PixelBuffer::filled(8, 10, RED).unwrap(), 100),
        (PixelBuffer::filled(8, 10, BLUE).unwrap(), 100),
    ];
    let out = convert_image(gif_of(&frames)).unwrap();
    let preview = decoded(&out.preview());
    assert_eq!(preview.dimensions(), (8, 10));
    assert_eq!(pixel(&preview, 1, 0), RED);
    assert_eq!(pixel(&preview, 2, 1), LIGHT_RED);
}

#[test]
fn convert_gif_is_the_animated_path() {
    let frames = [(PixelBuffer::filled(4, 5, BLUE).unwrap(), 30)];
    let out = convert_gif(&gif_of(&frames)).unwrap();
    assert!(out.is_animated());
    assert_eq!(decoded_frames(&out.full()).len(), 1);
}

#[test]
fn convert_still_is_the_still_path() {
    let out = convert_still(&png_of(&PixelBuffer::filled(4, 5, BLUE).unwrap())).unwrap();
    assert!(!out.is_animated());
    let full = decoded(&out.full());
    assert_eq!(pixel(&full, 2, 1), LIGHT_BLUE);
}

#[test]
fn bytes_that_are_no_image_fail_to_decode() {
    assert_eq!(kind_of(convert_image(b"certainly not an image".to_vec())), ErrorKind::Decode);
    assert_eq!(kind_of(convert_image(Vec::new())), ErrorKind::Decode);
    assert_eq!(kind_of(convert_image(vec![0x89, 0x50, 0x4E, 0x47])), ErrorKind::Decode);
}

#[test]
fn a_broken_gif_fails_to_decode() {
    let res = convert_image(b"GIF89a".to_vec());
    match res {
        Err(ConvertError::Decode(text)) => assert!(text.starts_with("Failed to decode GIF: ")),
        _ => panic!("expected a decoding failure"),
    }
    let mut cut_short = gif_of(&[(PixelBuffer::filled(8, 10, RED).unwrap(), 100)]);
    cut_short.truncate(30);
    assert_eq!(kind_of(convert_image(cut_short)), ErrorKind::Decode);
}

#[test]
fn a_gif_without_image_data_is_refused_by_the_decoder() {
    let bytes = vec![
        0x47, 0x49, 0x46, 0x38, 0x39, 0x61, 0x04, 0x00, 0x05, 0x00, 0x00, 0x00, 0x00, 0x3B,
    ];
    assert_eq!(kind_of(convert_image(bytes)), ErrorKind::Decode);
}

#[test]
fn rendering_no_frames_is_refused() {
    match render_animation(&Vec::new()) {
        Err(error) => {
            assert_eq!(error.kind(), ErrorKind::NoFrames);
            assert_eq!(error.message(), "No frames found in GIF");
        },
        Ok(_) => panic!("expected a failure"),
    }
}

#[test]
fn a_frame_too_wide_for_a_gif_fails_to_encode() {
    let frames = vec![Frame {
        buffer: PixelBuffer::filled(70000, 1, RED).unwrap(),
        delay: Delay { numer: 100, denom: 1 },
    }];
    match render_animation(&frames) {
        Err(ConvertError::Encode(text)) => assert!(text.starts_with("Failed to encode frame: ")),
        _ => panic!("expected an encoding failure"),
    }
}

#[test]
fn an_image_without_pixels_fails_to_encode() {
    let empty = PixelBuffer::from_pixels(0, 0, Vec::new()).unwrap();
    assert_eq!(kind_of(render_still(empty, 1)), ErrorKind::Encode);
    let no_columns = PixelBuffer::from_pixels(0, 3, Vec::new()).unwrap();
    assert_eq!(kind_of(render_still(no_columns, 6)), ErrorKind::Encode);
}

#[test]
fn a_frame_without_pixels_fails_in_the_preview() {
    let frames = vec![Frame {
        buffer: PixelBuffer::from_pixels(0, 0, Vec::new()).unwrap(),
        delay: Delay { numer: 10, denom: 1 },
    }];
    match render_animation(&frames) {
        Err(ConvertError::Encode(text)) => assert!(text.starts_with("Failed to write preview: ")),
        _ => panic!("expected an encoding failure"),
    }
}

#[test]
fn the_message_of_a_codec_failure_is_its_text() {
    assert_eq!(ConvertError::Decode("bad header".to_string()).message(), "bad header");
    assert_eq!(ConvertError::Encode("disk full".to_string()).message(), "disk full");
    assert_eq!(ConvertError::Decode(String::new()).kind(), ErrorKind::Decode);
    assert_eq!(ConvertError::Encode(String::new()).kind(), ErrorKind::Encode);
    assert_eq!(ConvertError::NoFrames.kind(), ErrorKind::NoFrames);
}

#[test]
fn a_decoding_failure_says_what_went_wrong() {
    match convert_image(b"certainly not an image".to_vec()) {
        Err(error) => assert!(!error.message().is_empty()),
        Ok(_) => panic!("expected a failure"),
    }
}

#[test]
fn rendering_turns_before_it_transforms() {
    let source = image_of(5, 4, |x, _y| if x == 0 { BLUE } else { RED });
    let out = render_still(source, 6).unwrap();
    let full = decoded(&out.full());
    assert_eq!(full.dimensions(), (4, 5));
    assert_eq!(pixel(&full, 0, 0), BLUE);
    assert_eq!(pixel(&full, 1, 0), RED);
    assert_eq!(pixel(&full, 2, 1), BLUE);
    assert_eq!(pixel(&full, 0, 3), RED);
}

#[test]
fn rendering_keeps_frames_in_their_order() {
    let frames = vec![
        Frame { buffer: PixelBuffer::filled(4, 5, GREEN).unwrap(), delay: Delay { numer: 70, denom: 1 } },
        Frame { buffer: PixelBuffer::filled(4, 5, RED).unwrap(), delay: Delay { numer: 30, denom: 1 } },
    ];
    let out = render_animation(&frames).unwrap();
    assert!(out.is_animated());
    let back = decoded_frames(&out.full());
    assert_eq!(back.len(), 2);
    assert_eq!(back[0].delay().numer_denom_ms(), (70, 1));
    assert_eq!(back[1].delay().numer_denom_ms(), (30, 1));
    assert_eq!(pixel(back[0].buffer(), 1, 0), GREEN);
    assert_eq!(pixel(back[1].buffer(), 1, 0), RED);
}

#[test]
fn a_file_is_converted_the_same_way_each_time() {
    let bytes = png_of(&image_of(9, 11, coded));
    let first = convert_image(bytes.clone()).unwrap();
    let second = convert_image(bytes).unwrap();
    assert_eq!(first.full(), second.full());
    assert_eq!(first.preview(), second.preview());
}
