use amogus::{crop_preview, preview_rect, Color, PixelBuffer, Rect};

fn coded(x: u32, y: u32) -> Color {
    Color::new((x % 256) as u8, (x / 256) as u8, y as u8, 255)
}

fn coded_image(width: u32, height: u32) -> PixelBuffer {
    let mut pixels = Vec::new();
    for y in 0..height {
        for x in 0..width {
            pixels.push(coded(x, y));
        }
    }
    PixelBuffer::from_pixels(width, height, pixels).unwrap()
}

#[test]
fn the_preview_of_a_large_image_lies_in_its_middle() {
    assert_eq!(preview_rect(500, 100), Rect { x: 150, y: 37, width: 200, height: 25 });
}

#[test]
fn the_preview_of_a_small_image_is_the_image() {
    assert_eq!(preview_rect(10, 7), Rect { x: 0, y: 0, width: 10, height: 7 });
    assert_eq!(preview_rect(200, 25), Rect { x: 0, y: 0, width: 200, height: 25 });
    assert_eq!(preview_rect(0, 0), Rect { x: 0, y: 0, width: 0, height: 0 });
}

#[test]
fn each_dimension_is_cut_by_itself() {
    assert_eq!(preview_rect(1000, 10), Rect { x: 400, y: 0, width: 200, height: 10 });
    assert_eq!(preview_rect(50, 26), Rect { x: 0, y: 0, width: 50, height: 25 });
    assert_eq!(preview_rect(201, 28), Rect { x: 0, y: 1, width: 200, height: 25 });
    assert_eq!(
        preview_rect(u32::MAX, u32::MAX),
        Rect { x: (u32::MAX - 200) / 2, y: (u32::MAX - 25) / 2, width: 200, height: 25 }
    );
}

#[test]
fn the_preview_shows_the_pixels_of_its_rectangle() {
    let img = coded_image(500, 100);
    let cut = crop_preview(&img);
    assert_eq!((cut.width(), cut.height()), (200, 25));
    for j in 0..25u32 {
        for i in 0..200u32 {
            assert_eq!(cut.get_pixel(i, j), coded(150 + i, 37 + j));
        }
    }
}

#[test]
fn the_preview_of_a_small_image_shows_all_of_it() {
    let img = coded_image(9, 4);
    let cut = crop_preview(&img);
    assert_eq!((cut.width(), cut.height()), (9, 4));
    assert_eq!(cut.pixels(), img.pixels());
}

#[test]
fn the_preview_of_a_high_narrow_image() {
    let img = coded_image(3, 60);
    let cut = crop_preview(&img);
    assert_eq!((cut.width(), cut.height()), (3, 25));
    assert_eq!(cut.get_pixel(0, 0), coded(0, 17));
    assert_eq!(cut.get_pixel(2, 24), coded(2, 41));
}
