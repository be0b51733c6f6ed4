//! The glyph: the fixed 4×5 pattern that is stamped into every tile in the
//! tile's two representative colours.

use vstd::prelude::*;
use crate::color::Color;
use crate::raster::{lemma_from_fn, lemma_raster_equal, PixelBuffer, Raster};

verus! {

/// The width of a tile, in pixels.
pub const TILE_WIDTH: u32 = 4;

/// The height of a tile, in pixels.
pub const TILE_HEIGHT: u32 = 5;

/// The two colours that a tile is stamped with.
#[derive(Clone, Copy, Debug, PartialEq, Eq, Structural)]
pub struct ColorPair {
    pub top: Color,
    pub second: Color,
}

/// What the glyph does to one position of a tile.
#[derive(Clone, Copy, Debug, PartialEq, Eq, Structural)]
pub enum Cell {
    /// The pixel of the source stays.
    Keep,
    /// The pixel takes the tile's first colour.
    Top,
    /// The pixel takes the tile's second colour.
    Second,
}

/// The glyph, by column `dx` and row `dy` within the tile:
///
/// ```text
///        dx  0 1 2 3
///   dy 0     . T T T
///      1     T T S S
///      2     T T T T
///      3     . T S T
///      4     . T S T
/// ```
pub open spec fn glyph_cell(dx: int, dy: int) -> Cell {
    if dy == 0 {
        if dx == 0 {
            Cell::Keep
        } else {
            Cell::Top
        }
    } else if dy == 1 {
        if dx < 2 {
            Cell::Top
        } else {
            Cell::Second
        }
    } else if dy == 2 {
        Cell::Top
    } else if dx == 0 {
        Cell::Keep
    } else if dx % 2 == 1 {
        Cell::Top
    } else {
        Cell::Second
    }
}

/// The colour that a glyph cell shows, given the pixel that was there.
pub open spec fn cell_color(cell: Cell, pair: ColorPair, beneath: Color) -> Color {
    match cell {
        Cell::Keep => beneath,
        Cell::Top => pair.top,
        Cell::Second => pair.second,
    }
}

/// Whether `(px, py)` lies in the tile whose top-left corner is `(x, y)`.
pub open spec fn in_tile(x: int, y: int, px: int, py: int) -> bool {
    x <= px < x + TILE_WIDTH && y <= py < y + TILE_HEIGHT
}

/// The pixel at `(px, py)` after the glyph was stamped at `(x, y)`.
pub open spec fn stamped_pixel(r: Raster, x: int, y: int, pair: ColorPair, px: int, py: int)
    -> Color {
    if in_tile(x, y, px, py) {
        cell_color(glyph_cell(px - x, py - y), pair, r.pixel(px, py))
    } else {
        r.pixel(px, py)
    }
}

/// The grid `r` with the glyph stamped into the tile at `(x, y)`.
pub open spec fn stamped(r: Raster, x: int, y: int, pair: ColorPair) -> Raster {
    Raster::from_fn(
        r.width,
        r.height,
        |px: int, py: int| stamped_pixel(r, x, y, pair, px, py),
    )
}

/// Stamps the glyph into the tile of `img` whose top-left corner is
/// `(x, y)`: seventeen of its twenty pixels are overwritten, no pixel outside
/// the tile is touched.
pub fn stamp_glyph(img: &mut PixelBuffer, x: u32, y: u32, pair: ColorPair)
    requires
        old(img).wf(),
        x + TILE_WIDTH <= old(img)@.width,
        y + TILE_HEIGHT <= old(img)@.height,
    ensures
        final(img).wf(),
        final(img)@ == stamped(old(img)@, x as int, y as int, pair),
{
    let top = pair.top;
    let second = pair.second;

    img.put_pixel(x + 1, y, top);
    img.put_pixel(x + 2, y, top);
    img.put_pixel(x + 3, y, top);

    img.put_pixel(x, y + 1, top);
    img.put_pixel(x + 1, y + 1, top);
    img.put_pixel(x + 2, y + 1, second);
    img.put_pixel(x + 3, y + 1, second);

    img.put_pixel(x, y + 2, top);
    img.put_pixel(x + 1, y + 2, top);
    img.put_pixel(x + 2, y + 2, top);
    img.put_pixel(x + 3, y + 2, top);

    img.put_pixel(x + 1, y + 3, top);
    img.put_pixel(x + 1, y + 4, top);
    img.put_pixel(x + 2, y + 3, second);
    img.put_pixel(x + 2, y + 4, second);
    img.put_pixel(x + 3, y + 3, top);
    img.put_pixel(x + 3, y + 4, top);

    proof {
        let before = old(img)@;
        let target = stamped(before, x as int, y as int, pair);
        lemma_from_fn(
            before.width,
            before.height,
            |px: int, py: int| stamped_pixel(before, x as int, y as int, pair, px, py),
        );
        assert forall|px: int, py: int| img@.contains(px, py) implies img@.pixel(px, py)
            == target.pixel(px, py) by {
            assert(target.pixel(px, py) == stamped_pixel(before, x as int, y as int, pair, px, py));
        }
        lemma_raster_equal(img@, target);
    }
}

} // verus!
