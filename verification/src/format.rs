//! Pixel-format capabilities: channel count in memory, channel byte width and
//! the derived pixel byte size.

use vstd::prelude::*;

verus! {

/// Describes how the pixels of an image are laid out in memory.
pub trait ImagePixelFormat: Sized + Copy {
    /// Number of channels an image of this format keeps in memory. A
    /// reconstructed-Z normal map stores 2 channels even though it represents
    /// a 3-component normal.
    spec fn spec_num_channels(self) -> nat;

    /// Size in bytes of a single channel value.
    spec fn spec_channel_size(self) -> nat;

    /// Returns the number of channels that an image of this format has in
    /// memory.
    fn num_channel_in_memory(self) -> (r: usize)
        ensures
            r == self.spec_num_channels(),
            1 <= r <= 4,
    ;

    /// Returns the size of a single value channel, in bytes.
    fn channel_size_in_bytes(self) -> (r: usize)
        ensures
            r == self.spec_channel_size(),
            1 <= r <= 4,
    ;

    /// Returns the size in bytes of a single pixel: channel size times
    /// channel count.
    fn pixel_size_in_bytes(self) -> (r: usize)
        ensures
            r == self.spec_num_channels() * self.spec_channel_size(),
    ;
}

/// Formats for color (albedo) images; all carry 8-bit channels.
#[derive(Clone, Copy, PartialEq, Eq, Structural, Debug)]
pub enum AlbedoFormat {
    Rgb8Unorm,
    Rgb8Snorm,
    Srgb8,
    Rgba8Unorm,
    Rgba8Snorm,
    Srgba8,
}

impl AlbedoFormat {
    /// The format carries an alpha channel that coverage preservation can
    /// rescale.
    pub open spec fn spec_has_alpha(self) -> bool {
        self is Rgba8Unorm || self is Rgba8Snorm
    }
}

impl ImagePixelFormat for AlbedoFormat {
    open spec fn spec_num_channels(self) -> nat {
        match self {
            AlbedoFormat::Rgb8Unorm | AlbedoFormat::Rgb8Snorm | AlbedoFormat::Srgb8 => 3,
            AlbedoFormat::Rgba8Unorm | AlbedoFormat::Rgba8Snorm | AlbedoFormat::Srgba8 => 4,
        }
    }

    open spec fn spec_channel_size(self) -> nat {
        1
    }

    fn num_channel_in_memory(self) -> (r: usize) {
        match self {
            AlbedoFormat::Rgb8Unorm | AlbedoFormat::Rgb8Snorm | AlbedoFormat::Srgb8 => 3,
            AlbedoFormat::Rgba8Unorm | AlbedoFormat::Rgba8Snorm | AlbedoFormat::Srgba8 => 4,
        }
    }

    fn channel_size_in_bytes(self) -> (r: usize) {
        1
    }

    fn pixel_size_in_bytes(self) -> (r: usize) {
        self.num_channel_in_memory()
    }
}

/// Formats for tangent-space normal maps; all carry 8-bit channels.
#[derive(Clone, Copy, PartialEq, Eq, Structural, Debug)]
pub enum NormalMapFormat {
    Rgb8,
    Rg8TangentSpaceReconstructedZ,
}

impl ImagePixelFormat for NormalMapFormat {
    open spec fn spec_num_channels(self) -> nat {
        match self {
            NormalMapFormat::Rgb8 => 3,
            NormalMapFormat::Rg8TangentSpaceReconstructedZ => 2,
        }
    }

    open spec fn spec_channel_size(self) -> nat {
        1
    }

    fn num_channel_in_memory(self) -> (r: usize) {
        match self {
            NormalMapFormat::Rgb8 => 3,
            NormalMapFormat::Rg8TangentSpaceReconstructedZ => 2,
        }
    }

    fn channel_size_in_bytes(self) -> (r: usize) {
        1
    }

    fn pixel_size_in_bytes(self) -> (r: usize) {
        self.num_channel_in_memory()
    }
}

} // verus!
