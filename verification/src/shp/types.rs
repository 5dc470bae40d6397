//! The records that decoding an SHP file produces.
use vstd::prelude::*;
use crate::pixels::{img_height, img_pixels, img_width, raw_bytes, FrameImage};

verus! {

/// The file header of an SHP file.
#[derive(Clone, Copy, Debug, PartialEq, Eq, Structural)]
pub struct ShpHeader {
    pub width: u16,
    pub height: u16,
    pub frames: u16,
}

/// The header of one frame: where its drawn part lies in the animation's
/// canvas, how it is encoded, and the offset of its data.
#[derive(Clone, Copy, Debug, PartialEq, Eq, Structural)]
pub struct FrameHeader {
    pub min_x: u16,
    pub min_y: u16,
    pub width: u16,
    pub height: u16,
    pub frame_type: u32,
    pub data_offset: u32,
}

/// A decoded frame: the canvas with the frame drawn on it, the bounds of
/// the drawn part, and (for unit palettes) the pixels that show the
/// house colour.
pub struct ShapeUnitFrame {
    pub image: FrameImage,
    pub min_y: usize,
    pub min_x: usize,
    pub max_y: usize,
    pub max_x: usize,
    pub real_part_width: usize,
    pub real_part_height: usize,
    pub color_points: Option<Vec<ColorPoint>>,
}

/// A pixel of a frame that shows the house colour.
#[derive(Clone, Copy, Debug, PartialEq, Eq, Structural)]
pub struct ColorPoint {
    pub x: usize,
    pub y: usize,
}

impl ShapeUnitFrame {
    /// The canvas as width, height and RGBA bytes, row by row, four per pixel.
    pub fn image_rgba(&self) -> (r: (u32, u32, Vec<u8>))
        ensures
            r.0 == img_width(self.image),
            r.1 == img_height(self.image),
            r.2@ == raw_bytes(img_pixels(self.image)),
    {
        let (width, height) = self.image.dimensions();
        (width, height, self.image.to_raw())
    }
}

} // verus!
