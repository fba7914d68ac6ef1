use downsampler::AlbedoFormat;
use downsampler::FX_ONE;
use downsampler::Image;
use downsampler::ImagePixelFormat;
use downsampler::NormalMapFormat;
use downsampler::calculate_coverage;
use downsampler::calculate_weights;
use downsampler::derive_weight_windows;
use downsampler::downsample;
use downsampler::downsample_checked;
use downsampler::downsample_normal_map;
use downsampler::downsample_with_custom_scale;
use downsampler::find_scale_for_coverage;
use downsampler::precompute_lanczos_weights;
use downsampler::scale_alpha_to_original_coverage;

fn solid_rgba(w: u32, h: u32, rgba: [u8; 4]) -> Vec<u8> {
    let mut v = Vec::new();
    for _ in 0..(w * h) {
        v.extend_from_slice(&rgba);
    }
    v
}

#[test]
fn pixel_format_capabilities() {
    assert_eq!(AlbedoFormat::Rgb8Unorm.num_channel_in_memory(), 3);
    assert_eq!(AlbedoFormat::Srgb8.num_channel_in_memory(), 3);
    assert_eq!(AlbedoFormat::Rgba8Unorm.num_channel_in_memory(), 4);
    assert_eq!(AlbedoFormat::Srgba8.num_channel_in_memory(), 4);
    assert_eq!(AlbedoFormat::Rgba8Snorm.channel_size_in_bytes(), 1);
    assert_eq!(AlbedoFormat::Rgba8Snorm.pixel_size_in_bytes(), 4);
    assert_eq!(NormalMapFormat::Rgb8.num_channel_in_memory(), 3);
    assert_eq!(
        NormalMapFormat::Rg8TangentSpaceReconstructedZ.num_channel_in_memory(),
        2
    );
    assert_eq!(NormalMapFormat::Rgb8.pixel_size_in_bytes(), 3);
}

#[test]
fn image_constructors_record_fields() {
    let data = solid_rgba(2, 2, [1, 2, 3, 4]);
    let img = Image::new(&data, 2, 2, AlbedoFormat::Rgba8Unorm);
    assert_eq!(img.width, 2);
    assert_eq!(img.height, 2);
    assert_eq!(img.pixel_stride_in_bytes, 4);
    let img2 = Image::new_with_pixel_stride(&data, 2, 2, AlbedoFormat::Rgb8Unorm, 4);
    assert_eq!(img2.pixel_stride_in_bytes, 4);
}

// Window validity: exactly T windows, each inside the source and bracketing
// its center.
#[test]
fn windows_cover_the_source() {
    let windows = derive_weight_windows(8, 2, 3 * FX_ONE);
    assert_eq!(windows.len(), 2);
    for (i, w) in windows.iter().enumerate() {
        assert!(w.src_start <= w.src_end);
        assert!(w.src_end < 8);
        // center numerator over 2 * target = 4
        assert_eq!(w.center_num, (2 * i as u64 + 1) * 8 - 2);
        assert!(u64::from(w.src_start) * 4 <= w.center_num);
        assert!(w.center_num <= u64::from(w.src_end) * 4);
    }
    // a filter scale of 3 at ratio 4 reaches across the whole axis
    assert_eq!(windows[0].src_start, 0);
    assert_eq!(windows[0].src_end, 7);
    assert_eq!(windows[1].src_start, 0);
    assert_eq!(windows[1].src_end, 7);
}

#[test]
fn windows_narrow_scale() {
    // S=16, T=4, filter scale 1: radius 4 source pixels around centers
    // 1.5, 5.5, 9.5, 13.5.
    let windows = derive_weight_windows(16, 4, FX_ONE);
    assert_eq!(windows.len(), 4);
    assert_eq!((windows[0].src_start, windows[0].src_end), (0, 6));
    assert_eq!((windows[1].src_start, windows[1].src_end), (1, 10));
    assert_eq!((windows[2].src_start, windows[2].src_end), (5, 14));
    assert_eq!((windows[3].src_start, windows[3].src_end), (9, 15));
}

// Cache correctness: windows with equal structural keys share one pool
// entry (the generator ran once for them) and get identical coefficients.
#[test]
fn cache_shares_equal_window_shapes() {
    let coll = calculate_weights(16, 4, FX_ONE);
    assert_eq!(coll.lines.len(), 4);
    // the two interior windows have the same (tap count, center - start) key
    assert_eq!(coll.lines[1].line, coll.lines[2].line);
    assert_ne!(coll.lines[0].line, coll.lines[1].line);
    assert_ne!(coll.lines[3].line, coll.lines[1].line);
    // three distinct shapes -> exactly three computed coefficient arrays
    assert_eq!(coll.pool.len(), 3);
    let c1 = &coll.pool[coll.lines[1].line];
    let c2 = &coll.pool[coll.lines[2].line];
    assert_eq!(c1, c2);
}

#[test]
fn every_line_sums_to_one() {
    let coll = calculate_weights(16, 4, FX_ONE);
    for line in coll.lines.iter() {
        let sum: i64 = coll.pool[line.line].iter().sum();
        assert_eq!(sum, FX_ONE);
    }
    let coll2 = calculate_weights(17, 5, 3 * FX_ONE);
    for line in coll2.lines.iter() {
        let sum: i64 = coll2.pool[line.line].iter().sum();
        assert_eq!(sum, FX_ONE);
    }
}

// Symmetric-dimension sharing: square source and square target use one
// shared collection for both axes.
#[test]
fn square_downsample_shares_weights() {
    let weights = precompute_lanczos_weights(4, 4, 2, 2, 3 * FX_ONE);
    assert!(weights.is_shared());
    let h = weights.horizontal();
    let v = weights.vertical();
    assert_eq!(h.lines.len(), v.lines.len());
}

#[test]
fn asymmetric_downsample_does_not_share() {
    let weights = precompute_lanczos_weights(8, 4, 2, 2, 3 * FX_ONE);
    assert!(!weights.is_shared());
    let weights2 = precompute_lanczos_weights(4, 4, 2, 1, 3 * FX_ONE);
    assert!(!weights2.is_shared());
}

#[test]
fn downsample_uniform_image_stays_uniform() {
    let data = solid_rgba(4, 4, [10, 20, 30, 40]);
    let img = Image::new(&data, 4, 4, AlbedoFormat::Rgba8Unorm);
    let out = downsample(&img, 2, 2);
    assert_eq!(out.len(), 2 * 2 * 4);
    for p in 0..4 {
        assert_eq!(&out[p * 4..p * 4 + 4], &[10, 20, 30, 40]);
    }
}

#[test]
fn downsample_respects_stride_padding() {
    // 3 channels at stride 5: padding bytes in the output stay zero
    let mut data = Vec::new();
    for _ in 0..16 {
        data.extend_from_slice(&[100, 150, 200, 7, 9]);
    }
    let img = Image::new_with_pixel_stride(&data, 4, 4, AlbedoFormat::Rgb8Unorm, 5);
    let out = downsample_with_custom_scale(&img, 2, 2, FX_ONE);
    assert_eq!(out.len(), 2 * 2 * 5);
    for p in 0..4 {
        assert_eq!(&out[p * 5..p * 5 + 3], &[100, 150, 200]);
        assert_eq!(&out[p * 5 + 3..p * 5 + 5], &[0, 0]);
    }
}

#[test]
fn downsample_averages_detail() {
    // a checkerboard of black and white must land strictly between them
    let mut data = Vec::new();
    for y in 0..8u32 {
        for x in 0..8u32 {
            let v = if (x + y) % 2 == 0 { 0u8 } else { 255u8 };
            data.extend_from_slice(&[v, v, v]);
        }
    }
    let img = Image::new(&data, 8, 8, AlbedoFormat::Rgb8Unorm);
    let out = downsample(&img, 2, 2);
    for p in 0..4 {
        let v = out[p * 3];
        assert!(v > 64 && v < 192, "averaged value {} should be mid-gray", v);
    }
}

// Scenario: upsampling is a precondition failure and produces no output.
#[test]
fn upsample_is_rejected() {
    let data = solid_rgba(4, 4, [1, 2, 3, 4]);
    let img = Image::new(&data, 4, 4, AlbedoFormat::Rgba8Unorm);
    assert!(downsample_checked(&img, 8, 2).is_none());
    assert!(downsample_checked(&img, 2, 8).is_none());
}

#[test]
fn same_size_and_zero_targets_are_rejected() {
    let data = solid_rgba(4, 4, [1, 2, 3, 4]);
    let img = Image::new(&data, 4, 4, AlbedoFormat::Rgba8Unorm);
    assert!(downsample_checked(&img, 4, 4).is_none());
    assert!(downsample_checked(&img, 0, 2).is_none());
    assert!(downsample_checked(&img, 2, 0).is_none());
    assert!(downsample_checked(&img, 2, 2).is_some());
}

#[test]
fn coverage_of_uniform_alpha_is_exact() {
    let data = solid_rgba(8, 8, [0, 0, 0, 128]);
    let img = Image::new(&data, 8, 8, AlbedoFormat::Rgba8Unorm);
    let (num, den) = calculate_coverage(&img, None, FX_ONE);
    // every subsample interpolates to 16 * 128 and scales by 1.0 exactly
    assert_eq!(den, 49 * 16 * 267386880);
    assert_eq!(num, 49 * 16 * (2048 * 65536));
}

#[test]
fn coverage_of_degenerate_image_is_zero() {
    let data = solid_rgba(1, 1, [0, 0, 0, 255]);
    let img = Image::new(&data, 1, 1, AlbedoFormat::Rgba8Unorm);
    let (num, den) = calculate_coverage(&img, None, FX_ONE);
    assert_eq!(num, 0);
    assert_eq!(den, 1);
}

#[test]
fn coverage_cutoff_counts_passing_subsamples() {
    let data = solid_rgba(4, 4, [0, 0, 0, 128]);
    let img = Image::new(&data, 4, 4, AlbedoFormat::Rgba8Unorm);
    // alpha 128 ~ 0.502: above a 0.5 cutoff, below a 0.51 cutoff
    let (num_lo, den) = calculate_coverage(&img, Some(FX_ONE / 2), FX_ONE);
    assert_eq!(num_lo, den);
    let (num_hi, _) = calculate_coverage(&img, Some(33423), FX_ONE);
    assert_eq!(num_hi, 0);
}

#[test]
fn coverage_grows_with_scale() {
    let mut data = Vec::new();
    for i in 0..16u32 {
        data.extend_from_slice(&[0, 0, 0, (i * 16) as u8]);
    }
    let img = Image::new(&data, 4, 4, AlbedoFormat::Rgba8Unorm);
    let (n1, d1) = calculate_coverage(&img, None, FX_ONE / 2);
    let (n2, d2) = calculate_coverage(&img, None, FX_ONE);
    let (n3, d3) = calculate_coverage(&img, None, 2 * FX_ONE);
    assert_eq!(d1, d2);
    assert_eq!(d2, d3);
    assert!(n1 <= n2 && n2 <= n3);
    assert!(n1 < n3);
}

// The search's result is always a scale within [0, 8].
#[test]
fn found_scale_stays_in_range() {
    let data = solid_rgba(4, 4, [0, 0, 0, 64]);
    let img = Image::new(&data, 4, 4, AlbedoFormat::Rgba8Unorm);
    for desired in [(0u64, 1u64), (1, 2), (1, 1), (3, 4)] {
        let s = find_scale_for_coverage(&img, desired.0, desired.1, None);
        assert!((0..=8 * FX_ONE).contains(&s));
        let s2 = find_scale_for_coverage(&img, desired.0, desired.1, Some(FX_ONE / 2));
        assert!((0..=8 * FX_ONE).contains(&s2));
    }
}

// Coverage preservation idempotence: searching for the image's own coverage
// returns a scale of exactly 1.0 while the mask is not saturated.
#[test]
fn search_for_own_coverage_returns_unit_scale() {
    let data = solid_rgba(8, 8, [0, 0, 0, 128]);
    let img = Image::new(&data, 8, 8, AlbedoFormat::Rgba8Unorm);
    let (num, den) = calculate_coverage(&img, None, FX_ONE);
    let s = find_scale_for_coverage(&img, num, den, None);
    assert_eq!(s, FX_ONE);
}

// Scenario: 8x8 RGBA8 with uniform alpha 128, downsampled to 2x2 without a
// cutoff; after rescaling, the output coverage matches the source coverage
// within one percent.
#[test]
fn rescaled_alpha_preserves_coverage() {
    let data = solid_rgba(8, 8, [50, 60, 70, 128]);
    let src = Image::new(&data, 8, 8, AlbedoFormat::Rgba8Unorm);
    let (sn, sd) = calculate_coverage(&src, None, FX_ONE);
    let src_cov = sn as f64 / sd as f64;
    assert!((src_cov - 0.5).abs() < 0.01);

    let down = downsample(&src, 2, 2);
    let down_img = Image::new(&down, 2, 2, AlbedoFormat::Rgba8Unorm);
    let rescaled = scale_alpha_to_original_coverage(&src, &down_img, None);
    assert_eq!(rescaled.len(), down.len());
    // color channels are untouched
    for p in 0..4 {
        assert_eq!(&rescaled[p * 4..p * 4 + 3], &down[p * 4..p * 4 + 3]);
    }
    let out_img = Image::new(&rescaled, 2, 2, AlbedoFormat::Rgba8Unorm);
    let (on, od) = calculate_coverage(&out_img, None, FX_ONE);
    let out_cov = on as f64 / od as f64;
    assert!(
        (out_cov - src_cov).abs() < 0.01,
        "coverage drifted: {} vs {}",
        out_cov,
        src_cov
    );
}

// The search recovers a doubled alpha: a buffer whose alpha was halved is
// rescaled back to the source's coverage.
#[test]
fn rescale_restores_halved_alpha() {
    let src_data = solid_rgba(4, 4, [10, 10, 10, 200]);
    let src = Image::new(&src_data, 4, 4, AlbedoFormat::Rgba8Unorm);
    let down_data = solid_rgba(2, 2, [10, 10, 10, 100]);
    let down = Image::new(&down_data, 2, 2, AlbedoFormat::Rgba8Unorm);

    let (sn, sd) = calculate_coverage(&src, None, FX_ONE);
    let scale = find_scale_for_coverage(&down, sn, sd, None);
    assert_eq!(scale, 2 * FX_ONE);

    let rescaled = scale_alpha_to_original_coverage(&src, &down, None);
    for p in 0..4 {
        assert_eq!(rescaled[p * 4 + 3], 200);
        assert_eq!(&rescaled[p * 4..p * 4 + 3], &[10, 10, 10]);
    }
}

#[test]
fn non_square_downsample_has_expected_shape() {
    let data = solid_rgba(8, 4, [90, 91, 92, 93]);
    let img = Image::new(&data, 8, 4, AlbedoFormat::Rgba8Unorm);
    let out = downsample_with_custom_scale(&img, 4, 2, 2 * FX_ONE);
    assert_eq!(out.len(), 4 * 2 * 4);
    for p in 0..8 {
        assert_eq!(&out[p * 4..p * 4 + 4], &[90, 91, 92, 93]);
    }
    let weights = precompute_lanczos_weights(8, 4, 4, 2, 2 * FX_ONE);
    assert!(!weights.is_shared());
    assert_eq!(weights.horizontal().line_count_exec(), 4);
    assert_eq!(weights.vertical().line_count_exec(), 2);
}

#[test]
fn normal_map_uniform_up_normal_is_preserved() {
    let mut data = Vec::new();
    for _ in 0..16 {
        data.extend_from_slice(&[128, 128, 255]);
    }
    let img = Image::new(&data, 4, 4, NormalMapFormat::Rgb8);
    let out = downsample_normal_map(&img, 2, 2);
    assert_eq!(out.len(), 2 * 2 * 3);
    for p in 0..4 {
        assert_eq!(&out[p * 3..p * 3 + 3], &[128, 128, 255]);
    }
}

// Normal map renormalization: every output texel decodes to a vector of
// magnitude 1 within tolerance, even where averaging shortened it.
#[test]
fn normal_map_output_has_unit_length() {
    let mut data = Vec::new();
    for y in 0..4u32 {
        for x in 0..4u32 {
            if (x + y) % 2 == 0 {
                data.extend_from_slice(&[255, 128, 128]); // +x
            } else {
                data.extend_from_slice(&[128, 128, 255]); // +z
            }
        }
    }
    let img = Image::new(&data, 4, 4, NormalMapFormat::Rgb8);
    let out = downsample_normal_map(&img, 2, 2);
    for p in 0..4 {
        let v: Vec<f64> = (0..3)
            .map(|k| (2.0 * out[p * 3 + k] as f64 - 255.0) / 255.0)
            .collect();
        let mag = (v[0] * v[0] + v[1] * v[1] + v[2] * v[2]).sqrt();
        assert!((mag - 1.0).abs() < 0.02, "magnitude {}", mag);
    }
}

#[test]
fn normal_map_reconstructed_z_stays_two_channels() {
    let mut data = Vec::new();
    for _ in 0..16 {
        // stride 3 with only 2 stored channels: one padding byte per pixel
        data.extend_from_slice(&[128, 128, 9]);
    }
    let img = Image::new_with_pixel_stride(
        &data,
        4,
        4,
        NormalMapFormat::Rg8TangentSpaceReconstructedZ,
        3,
    );
    let out = downsample_normal_map(&img, 2, 2);
    assert_eq!(out.len(), 2 * 2 * 3);
    for p in 0..4 {
        // x and y stay centered; the padding byte is initialized to 255
        assert_eq!(out[p * 3], 128);
        assert_eq!(out[p * 3 + 1], 128);
        assert_eq!(out[p * 3 + 2], 255);
        // the reconstructed vector (x, y, sqrt(1 - x^2 - y^2)) is unit length
        let vx = (2.0 * out[p * 3] as f64 - 255.0) / 255.0;
        let vy = (2.0 * out[p * 3 + 1] as f64 - 255.0) / 255.0;
        let vz = (1.0f64 - vx * vx - vy * vy).max(0.0).sqrt();
        let mag = (vx * vx + vy * vy + vz * vz).sqrt();
        assert!((mag - 1.0).abs() < 0.02);
    }
}
