//! A non-owning view over a caller-provided pixel buffer.

use vstd::prelude::*;

use crate::format::ImagePixelFormat;

verus! {

/// Largest extent (width or height) the fixed-point window arithmetic
/// supports; generous enough for any realistic texture.
pub const MAX_EXTENT: u32 = 0x4000_0000;

/// Describes a source image which can be used for [`crate::downsample()`].
/// The pixel data is borrowed as a slice to avoid unnecessarily cloning it.
pub struct Image<'a, F: ImagePixelFormat> {
    pub pixels: &'a [u8],
    pub width: u32,
    pub height: u32,
    pub pixel_stride_in_bytes: usize,
    pub format: F,
}

impl<'a, F: ImagePixelFormat> Image<'a, F> {
    /// The stride admits the format's pixel size, the buffer covers the full
    /// extent, and both extents are positive and within the supported range.
    pub open spec fn wf(self) -> bool {
        &&& self.format.spec_num_channels() * self.format.spec_channel_size()
            <= self.pixel_stride_in_bytes
        &&& self.width * self.height * self.pixel_stride_in_bytes <= self.pixels@.len()
        &&& 1 <= self.width <= MAX_EXTENT
        &&& 1 <= self.height <= MAX_EXTENT
    }

    /// Creates a new source image from the given pixel data slice, dimensions
    /// and format, with the stride equal to the format's pixel size.
    pub fn new(pixels: &'a [u8], width: u32, height: u32, format: F) -> (r: Self)
        ensures
            r.pixels == pixels,
            r.width == width,
            r.height == height,
            r.format == format,
            r.pixel_stride_in_bytes == format.spec_num_channels() * format.spec_channel_size(),
    {
        let pixel_size = format.pixel_size_in_bytes();
        Self::new_with_pixel_stride(pixels, width, height, format, pixel_size)
    }

    /// Creates a new source image whose pixels are `pixel_stride_in_bytes`
    /// apart in the buffer.
    pub fn new_with_pixel_stride(
        pixels: &'a [u8],
        width: u32,
        height: u32,
        format: F,
        pixel_stride_in_bytes: usize,
    ) -> (r: Self)
        ensures
            r.pixels == pixels,
            r.width == width,
            r.height == height,
            r.format == format,
            r.pixel_stride_in_bytes == pixel_stride_in_bytes,
    {
        Self { pixels, width, height, pixel_stride_in_bytes, format }
    }
}

} // verus!
