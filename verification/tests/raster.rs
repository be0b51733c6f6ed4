use amogus::{Color, PixelBuffer};

fn coded(x: u32, y: u32) -> Color {
    Color::new(x as u8, y as u8, (x + 10 * y) as u8, 255)
}

fn coded_image(width: u32, height: u32) -> PixelBuffer {
    let mut pixels = Vec::new();
    for y in 0..height {
        for x in 0..width {
            pixels.push(coded(x, y));
        }
    }
    PixelBuffer::from_pixels(width, height, pixels).unwrap()
}

#[test]
fn from_pixels_takes_one_pixel_per_position() {
    let img = coded_image(3, 2);
    assert_eq!(img.width(), 3);
    assert_eq!(img.height(), 2);
    assert_eq!(img.pixels().len(), 6);
}

#[test]
fn from_pixels_rejects_a_wrong_count() {
    let pixels = vec![Color::new(0, 0, 0, 0); 5];
    assert!(PixelBuffer::from_pixels(3, 2, pixels).is_none());
    let pixels = vec![Color::new(0, 0, 0, 0); 7];
    assert!(PixelBuffer::from_pixels(3, 2, pixels).is_none());
}

#[test]
fn from_pixels_accepts_an_empty_image() {
    let img = PixelBuffer::from_pixels(0, 7, Vec::new()).unwrap();
    assert_eq!(img.width(), 0);
    assert_eq!(img.height(), 7);
}

#[test]
fn pixels_are_stored_row_by_row() {
    let img = coded_image(3, 2);
    assert_eq!(img.get_pixel(0, 0), coded(0, 0));
    assert_eq!(img.get_pixel(2, 0), coded(2, 0));
    assert_eq!(img.get_pixel(0, 1), coded(0, 1));
    assert_eq!(img.get_pixel(2, 1), coded(2, 1));
    assert_eq!(img.pixels()[4], coded(1, 1));
}

#[test]
fn filled_shows_one_colour_everywhere() {
    let blue = Color::new(0, 0, 255, 255);
    let img = PixelBuffer::filled(4, 3, blue).unwrap();
    assert_eq!(img.width(), 4);
    assert_eq!(img.height(), 3);
    for y in 0..3 {
        for x in 0..4 {
            assert_eq!(img.get_pixel(x, y), blue);
        }
    }
}

#[test]
fn filled_refuses_what_cannot_be_addressed() {
    assert!(PixelBuffer::filled(u32::MAX, u32::MAX, Color::new(0, 0, 0, 0)).is_none());
}

#[test]
fn put_pixel_changes_one_position_only() {
    let mut img = coded_image(3, 3);
    let red = Color::new(255, 0, 0, 255);
    img.put_pixel(1, 2, red);
    for y in 0..3 {
        for x in 0..3 {
            let expected = if (x, y) == (1, 2) { red } else { coded(x, y) };
            assert_eq!(img.get_pixel(x, y), expected);
        }
    }
}

#[test]
fn copy_has_the_same_pixels_and_a_life_of_its_own() {
    let img = coded_image(3, 2);
    let mut twin = img.copy();
    assert_eq!(twin.width(), 3);
    assert_eq!(twin.height(), 2);
    assert_eq!(twin.pixels(), img.pixels());
    twin.put_pixel(0, 0, Color::new(9, 9, 9, 9));
    assert_eq!(img.get_pixel(0, 0), coded(0, 0));
}
