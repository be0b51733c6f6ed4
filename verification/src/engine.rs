//! The tile transform: every whole tile of an image is stamped with the
//! glyph in the tile's own dominant colours.

use vstd::prelude::*;
use crate::color::Color;
use crate::dominant::{dominant_colors, dominant_pair};
use crate::glyph::{
    cell_color, glyph_cell, stamp_glyph, stamped, stamped_pixel, TILE_HEIGHT, TILE_WIDTH,
};
use crate::raster::{lemma_from_fn, lemma_raster_equal, PixelBuffer, Raster};

verus! {

/// The number of pixels of a tile.
pub const TILE_PIXELS: usize = 20;

/// Whether the tile with top-left corner `(tx, ty)` lies within `r` whole.
pub open spec fn tile_fits(r: Raster, tx: int, ty: int) -> bool {
    0 <= tx && 0 <= ty && tx + TILE_WIDTH <= r.width && ty + TILE_HEIGHT <= r.height
}

/// The pixels of the tile at `(tx, ty)`, column by column from the left, each
/// column from the top.
pub open spec fn tile_pixels(r: Raster, tx: int, ty: int) -> Seq<Color> {
    Seq::new(
        TILE_PIXELS as nat,
        |k: int| r.pixel(tx + k / (TILE_HEIGHT as int), ty + k % (TILE_HEIGHT as int)),
    )
}

/// The column of the top-left corner of the tile that holds column `px`.
pub open spec fn tile_left(px: int) -> int {
    px - px % (TILE_WIDTH as int)
}

/// The row of the top-left corner of the tile that holds row `py`.
pub open spec fn tile_top(py: int) -> int {
    py - py % (TILE_HEIGHT as int)
}

/// The pixel at `(px, py)` of the transformed image. Tiles lie on a grid of
/// 4×5 cells anchored at the origin. A pixel whose tile lies within the
/// image whole shows what the glyph puts there, in the dominant colours of
/// that tile of `r`; a pixel of the strip that is left over at the right
/// or the bottom stays as it is.
pub open spec fn amogified_pixel(r: Raster, px: int, py: int) -> Color {
    let tx = tile_left(px);
    let ty = tile_top(py);
    if tile_fits(r, tx, ty) {
        cell_color(
            glyph_cell(px - tx, py - ty),
            dominant_pair(tile_pixels(r, tx, ty)),
            r.pixel(px, py),
        )
    } else {
        r.pixel(px, py)
    }
}

/// The transformed image.
pub open spec fn amogified(r: Raster) -> Raster {
    Raster::from_fn(r.width, r.height, |px: int, py: int| amogified_pixel(r, px, py))
}

/// Whether the pixel at `(px, py)` belongs to a tile that comes before the
/// tile at `(x, y)` when tiles are taken column by column.
spec fn visited(x: int, y: int, px: int, py: int) -> bool {
    px < x || (px < x + TILE_WIDTH && py < y)
}

/// The image in which the tiles before the one at `(x, y)` are transformed
/// and the others are not yet.
spec fn transformed_until(r: Raster, x: int, y: int) -> Raster {
    Raster::from_fn(
        r.width,
        r.height,
        |px: int, py: int|
            if visited(x, y, px, py) {
                amogified_pixel(r, px, py)
            } else {
                r.pixel(px, py)
            },
    )
}

proof fn lemma_transformed_until(r: Raster, x: int, y: int)
    ensures
        transformed_until(r, x, y).wf(),
        transformed_until(r, x, y).width == r.width,
        transformed_until(r, x, y).height == r.height,
        forall|px: int, py: int|
            r.contains(px, py) ==> #[trigger] transformed_until(r, x, y).pixel(px, py) == (
            if visited(x, y, px, py) {
                amogified_pixel(r, px, py)
            } else {
                r.pixel(px, py)
            }),
{
    lemma_from_fn(
        r.width,
        r.height,
        |px: int, py: int|
            if visited(x, y, px, py) {
                amogified_pixel(r, px, py)
            } else {
                r.pixel(px, py)
            },
    );
}

/// The transformed image has the dimensions of the source, and each of its
/// pixels is the one that `amogified_pixel` names.
pub proof fn lemma_amogified(r: Raster)
    ensures
        amogified(r).wf(),
        amogified(r).width == r.width,
        amogified(r).height == r.height,
        forall|px: int, py: int|
            r.contains(px, py) ==> #[trigger] amogified(r).pixel(px, py) == amogified_pixel(
                r,
                px,
                py,
            ),
{
    lemma_from_fn(r.width, r.height, |px: int, py: int| amogified_pixel(r, px, py));
}

/// An image narrower than a tile or lower than a tile has no tile: the
/// transform leaves it as it is.
pub proof fn lemma_small_image_unchanged(r: Raster)
    requires
        r.wf(),
        r.width < TILE_WIDTH || r.height < TILE_HEIGHT,
    ensures
        amogified(r) == r,
{
    lemma_amogified(r);
    assert forall|px: int, py: int| r.contains(px, py) implies amogified(r).pixel(px, py)
        == r.pixel(px, py) by {
        assert(!tile_fits(r, tile_left(px), tile_top(py)));
    }
    lemma_raster_equal(amogified(r), r);
}

/// In every tile the glyph leaves three pixels as they are in the source:
/// the top-left corner and the two lowest pixels of the left column.
pub proof fn lemma_kept_pixels(r: Raster, tx: int, ty: int)
    requires
        r.wf(),
        tile_fits(r, tx, ty),
        tx % (TILE_WIDTH as int) == 0,
        ty % (TILE_HEIGHT as int) == 0,
    ensures
        amogified(r).pixel(tx, ty) == r.pixel(tx, ty),
        amogified(r).pixel(tx, ty + 3) == r.pixel(tx, ty + 3),
        amogified(r).pixel(tx, ty + 4) == r.pixel(tx, ty + 4),
{
    lemma_amogified(r);
    assert(r.contains(tx, ty) && r.contains(tx, ty + 3) && r.contains(tx, ty + 4));
    assert(tile_left(tx) == tx);
    assert(tile_top(ty) == ty && tile_top(ty + 3) == ty && tile_top(ty + 4) == ty);
}

/// A pixel outside every whole tile is the pixel of the source.
pub proof fn lemma_residual_strip_unchanged(r: Raster, px: int, py: int)
    requires
        r.wf(),
        r.contains(px, py),
        !tile_fits(r, tile_left(px), tile_top(py)),
    ensures
        amogified(r).pixel(px, py) == r.pixel(px, py),
{
    lemma_amogified(r);
}

/// The twenty pixels of the tile of `img` whose top-left corner is `(x, y)`,
/// column by column.
pub fn read_tile(img: &PixelBuffer, x: u32, y: u32) -> (tile: Vec<Color>)
    requires
        img.wf(),
        tile_fits(img@, x as int, y as int),
    ensures
        tile@ == tile_pixels(img@, x as int, y as int),
{
    let mut tile: Vec<Color> = Vec::new();
    let mut dx: u32 = 0;
    while dx < TILE_WIDTH
        invariant
            img.wf(),
            tile_fits(img@, x as int, y as int),
            dx <= TILE_WIDTH,
            tile@.len() == dx * TILE_HEIGHT,
            forall|k: int|
                0 <= k < tile@.len() ==> tile@[k] == img@.pixel(
                    x + k / (TILE_HEIGHT as int),
                    y + k % (TILE_HEIGHT as int),
                ),
        decreases TILE_WIDTH - dx,
    {
        let mut dy: u32 = 0;
        while dy < TILE_HEIGHT
            invariant
                img.wf(),
                tile_fits(img@, x as int, y as int),
                dx < TILE_WIDTH,
                dy <= TILE_HEIGHT,
                tile@.len() == dx * TILE_HEIGHT + dy,
                forall|k: int|
                    0 <= k < tile@.len() ==> tile@[k] == img@.pixel(
                        x + k / (TILE_HEIGHT as int),
                        y + k % (TILE_HEIGHT as int),
                    ),
            decreases TILE_HEIGHT - dy,
        {
            tile.push(img.get_pixel(x + dx, y + dy));
            dy += 1;
        }
        dx += 1;
    }
    assert(tile@ =~= tile_pixels(img@, x as int, y as int));
    tile
}

/// Transforms an image. The result has the dimensions of `img`. Each whole
/// tile of the 4×5 grid shows the glyph in the dominant colours that the
/// tile has in `img`; what is left over at the right and at the bottom is
/// copied.
pub fn amogify(img: &PixelBuffer) -> (out: PixelBuffer)
    requires
        img.wf(),
    ensures
        out.wf(),
        out@ == amogified(img@),
{
    let width = img.width();
    let height = img.height();
    let mut out = img.copy();
    if width < TILE_WIDTH || height < TILE_HEIGHT {
        proof {
            lemma_small_image_unchanged(img@);
        }
        return out;
    }
    proof {
        lemma_transformed_until(img@, 0, 0);
        lemma_raster_equal(out@, transformed_until(img@, 0, 0));
    }
    let mut x: u32 = 0;
    while x <= width - TILE_WIDTH
        invariant
            img.wf(),
            out.wf(),
            width == img@.width,
            height == img@.height,
            width >= TILE_WIDTH,
            height >= TILE_HEIGHT,
            x <= width,
            x % TILE_WIDTH == 0,
            out@ == transformed_until(img@, x as int, 0),
        decreases width - x,
    {
        let mut y: u32 = 0;
        while y <= height - TILE_HEIGHT
            invariant
                img.wf(),
                out.wf(),
                width == img@.width,
                height == img@.height,
                width >= TILE_WIDTH,
                height >= TILE_HEIGHT,
                x <= width - TILE_WIDTH,
                x % TILE_WIDTH == 0,
                y <= height,
                y % TILE_HEIGHT == 0,
                out@ == transformed_until(img@, x as int, y as int),
            decreases height - y,
        {
            let tile = read_tile(img, x, y);
            let pair = dominant_colors(&tile);
            let ghost before = out@;
            proof {
                lemma_transformed_until(img@, x as int, y as int);
            }
            stamp_glyph(&mut out, x, y, pair);
            proof {
                let r = img@;
                let after = transformed_until(r, x as int, y + TILE_HEIGHT);
                lemma_transformed_until(r, x as int, y + TILE_HEIGHT);
                lemma_from_fn(
                    before.width,
                    before.height,
                    |px: int, py: int| stamped_pixel(before, x as int, y as int, pair, px, py),
                );
                assert forall|px: int, py: int| after.contains(px, py) implies out@.pixel(px, py)
                    == after.pixel(px, py) by {
                    assert(out@.pixel(px, py) == stamped_pixel(
                        before,
                        x as int,
                        y as int,
                        pair,
                        px,
                        py,
                    ));
                    assert(r.contains(px, py));
                    if x <= px < x + TILE_WIDTH && y <= py < y + TILE_HEIGHT {
                        assert(tile_left(px) == x);
                        assert(tile_top(py) == y);
                    }
                }
                lemma_raster_equal(out@, after);
            }
            y += TILE_HEIGHT;
        }
        proof {
            let r = img@;
            let after = transformed_until(r, x + TILE_WIDTH, 0);
            lemma_transformed_until(r, x as int, y as int);
            lemma_transformed_until(r, x + TILE_WIDTH, 0);
            assert forall|px: int, py: int| after.contains(px, py) implies out@.pixel(px, py)
                == after.pixel(px, py) by {
                assert(r.contains(px, py));
                if x <= px < x + TILE_WIDTH && py >= y {
                    assert(tile_top(py) >= y);
                    assert(!tile_fits(r, tile_left(px), tile_top(py)));
                }
            }
            lemma_raster_equal(out@, after);
        }
        x += TILE_WIDTH;
    }
    proof {
        let r = img@;
        lemma_transformed_until(r, x as int, 0);
        lemma_amogified(r);
        assert forall|px: int, py: int| r.contains(px, py) implies out@.pixel(px, py) == amogified(
            r,
        ).pixel(px, py) by {
            if px >= x {
                assert(tile_left(px) >= x);
                assert(!tile_fits(r, tile_left(px), tile_top(py)));
            }
        }
        lemma_raster_equal(out@, amogified(r));
    }
    out
}

} // verus!
