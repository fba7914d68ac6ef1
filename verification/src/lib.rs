//! Downsampling of raster images (albedo textures and tangent-space normal
//! maps) with a Lanczos reconstruction filter, together with alpha-coverage
//! preservation for cutout textures.
//!
//! All arithmetic is carried out in Q16.16 fixed point so that every result
//! is exactly specified and machine-checked: filter windows, the deduplicating
//! weight cache, the separable two-pass resampler, the box filter with
//! renormalization for normal maps, and the bisection search that rescales the
//! alpha channel to preserve coverage.

pub mod coverage;
pub mod fixed;
pub mod format;
pub mod image;
pub mod lanczos;
pub mod normal;
pub mod resample;
pub mod weights;
pub mod window;

pub use coverage::calculate_coverage;
pub use coverage::find_scale_for_coverage;
pub use coverage::scale_alpha_to_original_coverage;
pub use fixed::FX_ONE;
pub use format::AlbedoFormat;
pub use format::ImagePixelFormat;
pub use format::NormalMapFormat;
pub use image::Image;
pub use normal::downsample_normal_map;
pub use resample::DEFAULT_FILTER_SCALE;
pub use resample::downsample;
pub use resample::downsample_checked;
pub use resample::downsample_with_custom_scale;
pub use weights::SampleWeights;
pub use weights::WeightCollection;
pub use weights::calculate_weights;
pub use weights::precompute_lanczos_weights;
pub use window::derive_weight_windows;
