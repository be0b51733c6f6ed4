//! A stylised image-mosaic filter: every 4×5 tile of an image is replaced by a
//! two-colour glyph stamped in the tile's dominant colours.

pub mod codec;
pub mod color;
pub mod convert;
pub mod dominant;
pub mod engine;
pub mod frames;
pub mod glyph;
pub mod orient;
pub mod preview;
pub mod raster;
pub mod tally;

pub use convert::{
    convert_gif, convert_image, convert_still, is_gif, render_animation, render_still,
    ConvertError, ConvertedImage, ErrorKind,
};
pub use color::{adjust_color, color_distance_squared, is_distinct, Color};
pub use dominant::{
    color_pair, dominant_colors, rank_by_count, select_representatives, Pick,
};
pub use engine::{amogify, read_tile};
pub use frames::{amogify_frames, Delay, Frame};
pub use glyph::{stamp_glyph, Cell, ColorPair};
pub use orient::{orientation_of, read_orientation, rotate_image, ExifField};
pub use preview::{crop_preview, preview_rect, Rect};
pub use raster::{PixelBuffer, Raster};
pub use tally::{count_colors, ColorCount};
