use amogus::{stamp_glyph, Cell, Color, ColorPair, PixelBuffer};

const T: Color = Color { r: 1, g: 2, b: 3, a: 4 };
const S: Color = Color { r: 5, g: 6, b: 7, a: 8 };
const GROUND: Color = Color { r: 90, g: 91, b: 92, a: 93 };

const PATTERN: [[Cell; 4]; 5] = [
    [Cell::Keep, Cell::Top, Cell::Top, Cell::Top],
    [Cell::Top, Cell::Top, Cell::Second, Cell::Second],
    [Cell::Top, Cell::Top, Cell::Top, Cell::Top],
    [Cell::Keep, Cell::Top, Cell::Second, Cell::Top],
    [Cell::Keep, Cell::Top, Cell::Second, Cell::Top],
];

fn shown(cell: Cell) -> Color {
    match cell {
        Cell::Keep => GROUND,
        Cell::Top => T,
        Cell::Second => S,
    }
}

#[test]
fn the_glyph_keeps_three_pixels_and_overwrites_seventeen() {
    let mut img = PixelBuffer::filled(4, 5, GROUND).unwrap();
    stamp_glyph(&mut img, 0, 0, ColorPair { top: T, second: S });
    let count = |c: Color| img.pixels().iter().filter(|p| **p == c).count();
    assert_eq!((count(GROUND), count(T), count(S)), (3, 13, 4));
    assert_eq!(img.get_pixel(0, 0), GROUND);
    assert_eq!(img.get_pixel(0, 3), GROUND);
    assert_eq!(img.get_pixel(0, 4), GROUND);
}

#[test]
fn stamping_writes_the_pattern_into_the_tile() {
    let mut img = PixelBuffer::filled(4, 5, GROUND).unwrap();
    stamp_glyph(&mut img, 0, 0, ColorPair { top: T, second: S });
    for dy in 0..5u32 {
        for dx in 0..4u32 {
            assert_eq!(img.get_pixel(dx, dy), shown(PATTERN[dy as usize][dx as usize]));
        }
    }
}

#[test]
fn stamping_touches_nothing_outside_the_tile() {
    let mut img = PixelBuffer::filled(10, 12, GROUND).unwrap();
    stamp_glyph(&mut img, 4, 5, ColorPair { top: T, second: S });
    for y in 0..12u32 {
        for x in 0..10u32 {
            let inside = (4..8).contains(&x) && (5..10).contains(&y);
            let expected = if inside {
                shown(PATTERN[(y - 5) as usize][(x - 4) as usize])
            } else {
                GROUND
            };
            assert_eq!(img.get_pixel(x, y), expected);
        }
    }
}
