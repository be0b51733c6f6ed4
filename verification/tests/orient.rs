use amogus::{orientation_of, read_orientation, rotate_image, Color, ExifField, PixelBuffer};

fn coded(x: u32, y: u32) -> Color {
    Color::new(x as u8, y as u8, 7, 255)
}

/// A 3 × 2 image whose pixels name their own position.
fn sample() -> PixelBuffer {
    let mut pixels = Vec::new();
    for y in 0..2 {
        for x in 0..3 {
            pixels.push(coded(x, y));
        }
    }
    PixelBuffer::from_pixels(3, 2, pixels).unwrap()
}

fn field(tag: u32, value: Option<i64>) -> ExifField {
    ExifField { tag, value }
}

/// A little-endian TIFF file of 2 × 1 grey pixels with the given
/// orientation.
fn tiff_with_orientation(orientation: u16) -> Vec<u8> {
    let mut bytes: Vec<u8> = vec![0x49, 0x49, 0x2A, 0x00, 8, 0, 0, 0];
    let entries: [(u16, u16, u32); 10] = [
        (256, 3, 2),
        (257, 3, 1),
        (258, 3, 8),
        (259, 3, 1),
        (262, 3, 1),
        (273, 4, 134),
        (274, 3, orientation as u32),
        (277, 3, 1),
        (278, 3, 1),
        (279, 4, 2),
    ];
    bytes.extend_from_slice(&(entries.len() as u16).to_le_bytes());
    for (tag, kind, value) in entries {
        bytes.extend_from_slice(&tag.to_le_bytes());
        bytes.extend_from_slice(&kind.to_le_bytes());
        bytes.extend_from_slice(&1u32.to_le_bytes());
        bytes.extend_from_slice(&value.to_le_bytes());
    }
    bytes.extend_from_slice(&0u32.to_le_bytes());
    bytes.extend_from_slice(&[10, 200]);
    bytes
}

#[test]
fn orientation_six_turns_a_quarter_clockwise() {
    let out = rotate_image(sample(), 6);
    assert_eq!((out.width(), out.height()), (2, 3));
    assert_eq!(out.get_pixel(1, 0), coded(0, 0));
    assert_eq!(out.get_pixel(1, 2), coded(2, 0));
    assert_eq!(out.get_pixel(0, 0), coded(0, 1));
    assert_eq!(out.get_pixel(0, 2), coded(2, 1));
    for y in 0..2u32 {
        for x in 0..3u32 {
            assert_eq!(out.get_pixel(1 - y, x), coded(x, y));
        }
    }
}

#[test]
fn orientation_three_turns_upside_down() {
    let out = rotate_image(sample(), 3);
    assert_eq!((out.width(), out.height()), (3, 2));
    assert_eq!(out.get_pixel(2, 1), coded(0, 0));
    assert_eq!(out.get_pixel(0, 0), coded(2, 1));
    for y in 0..2u32 {
        for x in 0..3u32 {
            assert_eq!(out.get_pixel(2 - x, 1 - y), coded(x, y));
        }
    }
}

#[test]
fn orientation_eight_turns_three_quarters_clockwise() {
    let out = rotate_image(sample(), 8);
    assert_eq!((out.width(), out.height()), (2, 3));
    assert_eq!(out.get_pixel(0, 2), coded(0, 0));
    assert_eq!(out.get_pixel(0, 0), coded(2, 0));
    assert_eq!(out.get_pixel(1, 2), coded(0, 1));
    for y in 0..2u32 {
        for x in 0..3u32 {
            assert_eq!(out.get_pixel(y, 2 - x), coded(x, y));
        }
    }
}

#[test]
fn any_other_orientation_leaves_the_image_as_it_is() {
    for code in [0u16, 1, 2, 4, 5, 7, 9, 255, 65535] {
        let out = rotate_image(sample(), code);
        assert_eq!((out.width(), out.height()), (3, 2));
        assert_eq!(out.pixels(), sample().pixels());
    }
}

#[test]
fn four_quarter_turns_give_the_image_back() {
    let mut img = sample();
    for _ in 0..4 {
        img = rotate_image(img, 6);
    }
    assert_eq!(img.pixels(), sample().pixels());
}

#[test]
fn turning_an_empty_image() {
    let img = PixelBuffer::from_pixels(0, 3, Vec::new()).unwrap();
    let out = rotate_image(img, 6);
    assert_eq!((out.width(), out.height()), (3, 0));
}

#[test]
fn no_field_means_upright() {
    assert_eq!(orientation_of(&Vec::new()), 1);
    assert_eq!(orientation_of(&vec![field(0x010f, Some(6)), field(0x0110, Some(3))]), 1);
}

#[test]
fn the_orientation_field_gives_the_code() {
    let fields = vec![field(0x010f, None), field(0x0112, Some(6)), field(0x011a, Some(72))];
    assert_eq!(orientation_of(&fields), 6);
}

#[test]
fn the_first_orientation_field_decides() {
    let fields = vec![field(0x0112, Some(8)), field(0x0112, Some(3))];
    assert_eq!(orientation_of(&fields), 8);
    let fields = vec![field(0x0112, None), field(0x0112, Some(3))];
    assert_eq!(orientation_of(&fields), 1);
}

#[test]
fn a_value_that_is_no_code_means_upright() {
    assert_eq!(orientation_of(&vec![field(0x0112, Some(-65533))]), 1);
    assert_eq!(orientation_of(&vec![field(0x0112, Some(-1))]), 1);
    assert_eq!(orientation_of(&vec![field(0x0112, Some(65536 + 6))]), 1);
    assert_eq!(orientation_of(&vec![field(0x0112, Some(i64::MAX))]), 1);
    assert_eq!(orientation_of(&vec![field(0x0112, Some(65535))]), 65535);
    assert_eq!(orientation_of(&vec![field(0x0112, Some(0))]), 0);
}

#[test]
fn a_tag_of_another_namespace_is_no_orientation() {
    assert_eq!(orientation_of(&vec![field(0x0001_0112, Some(6))]), 1);
}

#[test]
fn the_orientation_is_read_from_the_metadata_of_a_file() {
    assert_eq!(read_orientation(&tiff_with_orientation(6)), 6);
    assert_eq!(read_orientation(&tiff_with_orientation(3)), 3);
    assert_eq!(read_orientation(&tiff_with_orientation(8)), 8);
    assert_eq!(read_orientation(&tiff_with_orientation(1)), 1);
}

#[test]
fn a_file_without_metadata_is_upright() {
    assert_eq!(read_orientation(&[]), 1);
    assert_eq!(read_orientation(b"no image at all"), 1);
    assert_eq!(read_orientation(&[0x89, 0x50, 0x4E, 0x47, 0x0D, 0x0A, 0x1A, 0x0A]), 1);
}
