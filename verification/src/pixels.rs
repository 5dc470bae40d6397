//! The RGBA image buffer of the `image` crate, as the decoder sees it.
use vstd::prelude::*;

verus! {

/// An `image::RgbaImage`, reached only through the functions below, whose
/// contracts state what the `image` crate does.
#[verifier::external_body]
pub struct FrameImage {
    inner: image::RgbaImage,
}

/// One RGBA pixel as its four channels, red first.
pub type Px = (u8, u8, u8, u8);

/// What the buffer holds: its width, its height and its pixels in row-major
/// order (the pixel at `(x, y)` stands at `y * width + x`).
pub uninterp spec fn frame_image_view(img: FrameImage) -> (u32, u32, Seq<(u8, u8, u8, u8)>);

pub open spec fn img_width(img: FrameImage) -> u32 {
    frame_image_view(img).0
}

pub open spec fn img_height(img: FrameImage) -> u32 {
    frame_image_view(img).1
}

pub open spec fn img_pixels(img: FrameImage) -> Seq<Px> {
    frame_image_view(img).2
}

/// The transparent black pixel that a new buffer is filled with.
pub open spec fn blank() -> Px {
    (0u8, 0u8, 0u8, 0u8)
}

/// The raw channel bytes of a pixel sequence, four per pixel.
pub open spec fn raw_bytes(px: Seq<Px>) -> Seq<u8> {
    Seq::new(4 * px.len(), |i: int| {
        let p = px[i / 4];
        if i % 4 == 0 { p.0 } else if i % 4 == 1 { p.1 } else if i % 4 == 2 { p.2 } else { p.3 }
    })
}

impl FrameImage {
    /// `ImageBuffer::new`: a `width` x `height` buffer whose every pixel is zero.
    /// It computes `4 * width`, then that times `height`, as `usize`, and
    /// panics when either overflows; allocating the buffer panics when its
    /// byte count exceeds `isize::MAX`. `requires` rules all three out.
    #[verifier::external_body]
    pub fn new(width: u32, height: u32) -> (img: FrameImage)
        requires
            4 * (width as int) <= usize::MAX,
            4 * (width as int) * (height as int) <= isize::MAX,
        ensures
            frame_image_view(img) == (width, height, Seq::new(width as nat * height as nat, |i: int| blank())),
    {
        FrameImage { inner: image::RgbaImage::new(width, height) }
    }

    /// `ImageBuffer::put_pixel`: replaces the pixel at `(x, y)` and nothing else.
    /// It panics outside the buffer, which `requires` rules out.
    #[verifier::external_body]
    pub fn put_pixel(&mut self, x: u32, y: u32, px: [u8; 4])
        requires
            x < img_width(*old(self)),
            y < img_height(*old(self)),
        ensures
            frame_image_view(*final(self)) == (
                img_width(*old(self)),
                img_height(*old(self)),
                img_pixels(*old(self)).update(
                    y as int * img_width(*old(self)) as int + x as int,
                    (px[0], px[1], px[2], px[3]),
                ),
            ),
    {
        self.inner.put_pixel(x, y, image::Rgba(px))
    }

    /// `ImageBuffer::dimensions`.
    #[verifier::external_body]
    pub(crate) fn dimensions(&self) -> (r: (u32, u32))
        ensures
            r == (img_width(*self), img_height(*self)),
    {
        self.inner.dimensions()
    }

    /// `ImageBuffer::as_raw`, copied: the channel bytes of every pixel, row by row.
    #[verifier::external_body]
    pub(crate) fn to_raw(&self) -> (r: Vec<u8>)
        ensures
            r@ == raw_bytes(img_pixels(*self)),
    {
        self.inner.as_raw().clone()
    }
}

} // verus!
