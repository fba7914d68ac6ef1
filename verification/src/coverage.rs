//! Alpha-coverage preservation: measuring the visible fraction of an alpha
//! mask, searching for the alpha scale that restores the source coverage
//! after downsampling, and applying that scale to the alpha channel.
//!
//! Coverage is an exact rational. For every 2x2 neighborhood of texels the
//! alpha is bilinearly subsampled on a 4x4 grid (offsets 0, 1/4, 1/2, 3/4);
//! each subsample carries `16 * alpha` exactly, so one fully visible
//! subsample counts `16 * 255 * FX_ONE` and the denominator is that times
//! the number of subsamples.
//!
//! The whole preservation pipeline — measuring, searching and rescaling —
//! runs in this module; this host-side bisection is the one authoritative
//! path.

use vstd::prelude::*;

use crate::fixed::FX_ONE;
use crate::format::AlbedoFormat;
use crate::format::ImagePixelFormat;
use crate::image::Image;
use crate::lanczos::spec_abs;

verus! {

/// Upper bound of the binary search: an alpha scale of `8.0` in Q16.16.
pub const MAX_ALPHA_SCALE: i64 = 524288;

/// One fully visible subsample: `16 * 255` (a bilinear alpha in sixteenths)
/// times `FX_ONE`.
pub const SUB_FULL: u64 = 267386880;

/// The alpha byte of the pixel at `(x, y)`.
pub open spec fn spec_alpha_at(pix: Seq<u8>, w: int, stride: int, x: int, y: int) -> u8 {
    pix[(y * w + x) * stride + 3]
}

/// `16 *` the bilinearly interpolated alpha of subsample `(i, j)` (offsets
/// `i/4`, `j/4`) inside the 2x2 neighborhood at `(x, y)`.
pub open spec fn spec_sub_alpha(
    pix: Seq<u8>,
    w: int,
    stride: int,
    x: int,
    y: int,
    i: int,
    j: int,
) -> int {
    let a00 = spec_alpha_at(pix, w, stride, x, y) as int;
    let a10 = spec_alpha_at(pix, w, stride, x + 1, y) as int;
    let a01 = spec_alpha_at(pix, w, stride, x, y + 1) as int;
    let a11 = spec_alpha_at(pix, w, stride, x + 1, y + 1) as int;
    a00 * ((4 - i) * (4 - j)) + a10 * (i * (4 - j)) + a01 * ((4 - i) * j) + a11 * (i * j)
}

/// What subsample `(i, j)` contributes to the coverage numerator under alpha
/// scale `scale`: with a cutoff, all or nothing depending on the alpha test;
/// without one, the scaled alpha itself, saturated at one.
pub open spec fn spec_sub_contrib(
    pix: Seq<u8>,
    w: int,
    stride: int,
    x: int,
    y: int,
    i: int,
    j: int,
    cutoff: Option<int>,
    scale: int,
) -> int {
    let scaled = spec_sub_alpha(pix, w, stride, x, y, i, j) * scale;
    let clamped = if scaled > SUB_FULL as int {
        SUB_FULL as int
    } else {
        scaled
    };
    match cutoff {
        Some(cut) => {
            if clamped > cut * 4080 {
                SUB_FULL as int
            } else {
                0int
            }
        },
        None => clamped,
    }
}

/// Sum of the contributions of subsamples `(i', j)` for `i' < i`.
pub open spec fn spec_sub_row(
    pix: Seq<u8>,
    w: int,
    stride: int,
    x: int,
    y: int,
    j: int,
    i: int,
    cutoff: Option<int>,
    scale: int,
) -> int
    decreases i,
{
    if i <= 0 {
        0int
    } else {
        spec_sub_row(pix, w, stride, x, y, j, i - 1, cutoff, scale) + spec_sub_contrib(
            pix,
            w,
            stride,
            x,
            y,
            i - 1,
            j,
            cutoff,
            scale,
        )
    }
}

/// Sum of the contributions of the subsample rows `j' < j`.
pub open spec fn spec_sub_grid(
    pix: Seq<u8>,
    w: int,
    stride: int,
    x: int,
    y: int,
    j: int,
    cutoff: Option<int>,
    scale: int,
) -> int
    decreases j,
{
    if j <= 0 {
        0int
    } else {
        spec_sub_grid(pix, w, stride, x, y, j - 1, cutoff, scale) + spec_sub_row(
            pix,
            w,
            stride,
            x,
            y,
            j - 1,
            4,
            cutoff,
            scale,
        )
    }
}

/// Sum of the neighborhoods `(x', y)` for `x' < x`.
pub open spec fn spec_cov_row(
    pix: Seq<u8>,
    w: int,
    stride: int,
    y: int,
    x: int,
    cutoff: Option<int>,
    scale: int,
) -> int
    decreases x,
{
    if x <= 0 {
        0int
    } else {
        spec_cov_row(pix, w, stride, y, x - 1, cutoff, scale) + spec_sub_grid(
            pix,
            w,
            stride,
            x - 1,
            y,
            4,
            cutoff,
            scale,
        )
    }
}

/// Sum of the full neighborhood rows `y' < y`.
pub open spec fn spec_cov_rows(
    pix: Seq<u8>,
    w: int,
    stride: int,
    y: int,
    cutoff: Option<int>,
    scale: int,
) -> int
    decreases y,
{
    if y <= 0 {
        0int
    } else {
        spec_cov_rows(pix, w, stride, y - 1, cutoff, scale) + spec_cov_row(
            pix,
            w,
            stride,
            y - 1,
            w - 1,
            cutoff,
            scale,
        )
    }
}

/// Numerator of the coverage of an image under alpha scale `scale`: the sum
/// over all subsamples of all 2x2 neighborhoods. A degenerate image (one
/// pixel wide or high) has coverage zero.
pub open spec fn spec_coverage_num(
    pix: Seq<u8>,
    w: int,
    h: int,
    stride: int,
    cutoff: Option<int>,
    scale: int,
) -> int {
    if w <= 1 || h <= 1 {
        0int
    } else {
        spec_cov_rows(pix, w, stride, h - 1, cutoff, scale)
    }
}

/// Denominator of the coverage: the number of subsamples times the value of
/// a fully visible one.
pub open spec fn spec_coverage_den(w: int, h: int) -> int {
    if w <= 1 || h <= 1 {
        1int
    } else {
        (w - 1) * (h - 1) * (16 * SUB_FULL as int)
    }
}

/// The interpolation weights of one subsample sum to sixteen, so the
/// interpolated alpha lies in `[0, 16 * 255]`.
pub proof fn lemma_sub_alpha_range(
    pix: Seq<u8>,
    w: int,
    stride: int,
    x: int,
    y: int,
    i: int,
    j: int,
)
    requires
        0 <= i <= 4,
        0 <= j <= 4,
    ensures
        0 <= spec_sub_alpha(pix, w, stride, x, y, i, j) <= 4080,
{
    let a00 = spec_alpha_at(pix, w, stride, x, y) as int;
    let a10 = spec_alpha_at(pix, w, stride, x + 1, y) as int;
    let a01 = spec_alpha_at(pix, w, stride, x, y + 1) as int;
    let a11 = spec_alpha_at(pix, w, stride, x + 1, y + 1) as int;
    assert(0 <= a00 * ((4 - i) * (4 - j)) + a10 * (i * (4 - j)) + a01 * ((4 - i) * j) + a11 * (i
        * j) <= 4080) by (nonlinear_arith)
        requires
            0 <= i <= 4 && 0 <= j <= 4,
            0 <= a00 <= 255 && 0 <= a10 <= 255 && 0 <= a01 <= 255 && 0 <= a11 <= 255,
    ;
}

/// Every subsample contributes between zero and one fully visible subsample.
pub proof fn lemma_sub_contrib_range(
    pix: Seq<u8>,
    w: int,
    stride: int,
    x: int,
    y: int,
    i: int,
    j: int,
    cutoff: Option<int>,
    scale: int,
)
    requires
        0 <= i <= 4,
        0 <= j <= 4,
        0 <= scale,
    ensures
        0 <= spec_sub_contrib(pix, w, stride, x, y, i, j, cutoff, scale) <= SUB_FULL as int,
{
    lemma_sub_alpha_range(pix, w, stride, x, y, i, j);
    let a = spec_sub_alpha(pix, w, stride, x, y, i, j);
    assert(0 <= a * scale) by (nonlinear_arith)
        requires
            0 <= a && 0 <= scale,
    ;
}

/// A partial subsample row stays within its share of the numerator.
proof fn lemma_sub_row_bound(
    pix: Seq<u8>,
    w: int,
    stride: int,
    x: int,
    y: int,
    j: int,
    i: int,
    cutoff: Option<int>,
    scale: int,
)
    requires
        0 <= i <= 4,
        0 <= j <= 4,
        0 <= scale,
    ensures
        0 <= spec_sub_row(pix, w, stride, x, y, j, i, cutoff, scale) <= i * (SUB_FULL as int),
    decreases i,
{
    if i > 0 {
        lemma_sub_row_bound(pix, w, stride, x, y, j, i - 1, cutoff, scale);
        lemma_sub_contrib_range(pix, w, stride, x, y, i - 1, j, cutoff, scale);
    }
}

/// A partial subsample grid stays within its share of the numerator.
proof fn lemma_sub_grid_bound(
    pix: Seq<u8>,
    w: int,
    stride: int,
    x: int,
    y: int,
    j: int,
    cutoff: Option<int>,
    scale: int,
)
    requires
        0 <= j <= 4,
        0 <= scale,
    ensures
        0 <= spec_sub_grid(pix, w, stride, x, y, j, cutoff, scale) <= j * 4 * (SUB_FULL as int),
    decreases j,
{
    if j > 0 {
        lemma_sub_grid_bound(pix, w, stride, x, y, j - 1, cutoff, scale);
        lemma_sub_row_bound(pix, w, stride, x, y, j - 1, 4, cutoff, scale);
    }
}

/// A partial neighborhood row stays within its share of the numerator.
proof fn lemma_cov_row_bound(
    pix: Seq<u8>,
    w: int,
    stride: int,
    y: int,
    x: int,
    cutoff: Option<int>,
    scale: int,
)
    requires
        0 <= x,
        0 <= scale,
    ensures
        0 <= spec_cov_row(pix, w, stride, y, x, cutoff, scale) <= x * (16 * SUB_FULL as int),
    decreases x,
{
    if x > 0 {
        lemma_cov_row_bound(pix, w, stride, y, x - 1, cutoff, scale);
        lemma_sub_grid_bound(pix, w, stride, x - 1, y, 4, cutoff, scale);
        assert((x - 1) * (16 * SUB_FULL as int) + 16 * SUB_FULL as int == x * (16
            * SUB_FULL as int)) by (nonlinear_arith);
    } else {
        assert(x * (16 * SUB_FULL as int) == 0) by (nonlinear_arith)
            requires
                x == 0,
        ;
    }
}

/// The partial numerator stays within its share of the denominator.
proof fn lemma_cov_rows_bound(
    pix: Seq<u8>,
    w: int,
    stride: int,
    y: int,
    cutoff: Option<int>,
    scale: int,
)
    requires
        0 <= y,
        1 <= w,
        0 <= scale,
    ensures
        0 <= spec_cov_rows(pix, w, stride, y, cutoff, scale) <= y * (w - 1) * (16
            * SUB_FULL as int),
    decreases y,
{
    if y > 0 {
        lemma_cov_rows_bound(pix, w, stride, y - 1, cutoff, scale);
        lemma_cov_row_bound(pix, w, stride, y - 1, w - 1, cutoff, scale);
        assert((y - 1) * (w - 1) * (16 * SUB_FULL as int) + (w - 1) * (16 * SUB_FULL as int) == y
            * (w - 1) * (16 * SUB_FULL as int)) by (nonlinear_arith);
    } else {
        assert(y * (w - 1) * (16 * SUB_FULL as int) == 0) by (nonlinear_arith)
            requires
                y == 0,
        ;
    }
}

/// The coverage numerator never exceeds its denominator.
pub proof fn lemma_coverage_fraction(
    pix: Seq<u8>,
    w: int,
    h: int,
    stride: int,
    cutoff: Option<int>,
    scale: int,
)
    requires
        1 <= w,
        1 <= h,
        0 <= scale,
    ensures
        0 <= spec_coverage_num(pix, w, h, stride, cutoff, scale) <= spec_coverage_den(w, h),
        1 <= spec_coverage_den(w, h),
{
    if w > 1 && h > 1 {
        lemma_cov_rows_bound(pix, w, stride, h - 1, cutoff, scale);
        assert((h - 1) * (w - 1) * (16 * SUB_FULL as int) == (w - 1) * (h - 1) * (16
            * SUB_FULL as int) && 1 <= (w - 1) * (h - 1) * (16 * SUB_FULL as int))
            by (nonlinear_arith)
            requires
                1 <= w - 1 && 1 <= h - 1,
        ;
    }
}

/// A subsample's contribution never shrinks when the alpha scale grows.
proof fn lemma_sub_contrib_monotone(
    pix: Seq<u8>,
    w: int,
    stride: int,
    x: int,
    y: int,
    i: int,
    j: int,
    cutoff: Option<int>,
    s1: int,
    s2: int,
)
    requires
        0 <= i <= 4,
        0 <= j <= 4,
        0 <= s1 <= s2,
    ensures
        spec_sub_contrib(pix, w, stride, x, y, i, j, cutoff, s1) <= spec_sub_contrib(
            pix,
            w,
            stride,
            x,
            y,
            i,
            j,
            cutoff,
            s2,
        ),
{
    lemma_sub_alpha_range(pix, w, stride, x, y, i, j);
    let a = spec_sub_alpha(pix, w, stride, x, y, i, j);
    assert(a * s1 <= a * s2 && 0 <= a * s1) by (nonlinear_arith)
        requires
            0 <= a && 0 <= s1 <= s2,
    ;
}

/// Monotonicity lifted over a subsample row.
proof fn lemma_sub_row_monotone(
    pix: Seq<u8>,
    w: int,
    stride: int,
    x: int,
    y: int,
    j: int,
    i: int,
    cutoff: Option<int>,
    s1: int,
    s2: int,
)
    requires
        0 <= i <= 4,
        0 <= j <= 4,
        0 <= s1 <= s2,
    ensures
        spec_sub_row(pix, w, stride, x, y, j, i, cutoff, s1) <= spec_sub_row(
            pix,
            w,
            stride,
            x,
            y,
            j,
            i,
            cutoff,
            s2,
        ),
    decreases i,
{
    if i > 0 {
        lemma_sub_row_monotone(pix, w, stride, x, y, j, i - 1, cutoff, s1, s2);
        lemma_sub_contrib_monotone(pix, w, stride, x, y, i - 1, j, cutoff, s1, s2);
    }
}

/// Monotonicity lifted over a subsample grid.
proof fn lemma_sub_grid_monotone(
    pix: Seq<u8>,
    w: int,
    stride: int,
    x: int,
    y: int,
    j: int,
    cutoff: Option<int>,
    s1: int,
    s2: int,
)
    requires
        0 <= j <= 4,
        0 <= s1 <= s2,
    ensures
        spec_sub_grid(pix, w, stride, x, y, j, cutoff, s1) <= spec_sub_grid(
            pix,
            w,
            stride,
            x,
            y,
            j,
            cutoff,
            s2,
        ),
    decreases j,
{
    if j > 0 {
        lemma_sub_grid_monotone(pix, w, stride, x, y, j - 1, cutoff, s1, s2);
        lemma_sub_row_monotone(pix, w, stride, x, y, j - 1, 4, cutoff, s1, s2);
    }
}

/// Monotonicity lifted over a neighborhood row.
proof fn lemma_cov_row_monotone(
    pix: Seq<u8>,
    w: int,
    stride: int,
    y: int,
    x: int,
    cutoff: Option<int>,
    s1: int,
    s2: int,
)
    requires
        0 <= s1 <= s2,
    ensures
        spec_cov_row(pix, w, stride, y, x, cutoff, s1) <= spec_cov_row(
            pix,
            w,
            stride,
            y,
            x,
            cutoff,
            s2,
        ),
    decreases x,
{
    if x > 0 {
        lemma_cov_row_monotone(pix, w, stride, y, x - 1, cutoff, s1, s2);
        lemma_sub_grid_monotone(pix, w, stride, x - 1, y, 4, cutoff, s1, s2);
    }
}

/// Monotonicity lifted over the neighborhood rows.
proof fn lemma_cov_rows_monotone(
    pix: Seq<u8>,
    w: int,
    stride: int,
    y: int,
    cutoff: Option<int>,
    s1: int,
    s2: int,
)
    requires
        0 <= s1 <= s2,
    ensures
        spec_cov_rows(pix, w, stride, y, cutoff, s1) <= spec_cov_rows(
            pix,
            w,
            stride,
            y,
            cutoff,
            s2,
        ),
    decreases y,
{
    if y > 0 {
        lemma_cov_rows_monotone(pix, w, stride, y - 1, cutoff, s1, s2);
        lemma_cov_row_monotone(pix, w, stride, y - 1, w - 1, cutoff, s1, s2);
    }
}

/// Coverage never shrinks when the alpha scale grows: the search's objective
/// is monotone in the scale, both with and without an alpha cutoff.
pub proof fn lemma_coverage_monotone(
    pix: Seq<u8>,
    w: int,
    h: int,
    stride: int,
    cutoff: Option<int>,
    s1: int,
    s2: int,
)
    requires
        0 <= s1 <= s2,
    ensures
        spec_coverage_num(pix, w, h, stride, cutoff, s1) <= spec_coverage_num(
            pix,
            w,
            h,
            stride,
            cutoff,
            s2,
        ),
{
    if w > 1 && h > 1 {
        lemma_cov_rows_monotone(pix, w, stride, h - 1, cutoff, s1, s2);
    }
}

/// The ghost view of an optional fixed-point cutoff.
pub open spec fn spec_cut(c: Option<i64>) -> Option<int> {
    match c {
        Some(v) => Some(v as int),
        None => None,
    }
}

/// Computes the exact coverage fraction of the image under alpha scale
/// `scale` (Q16.16): the returned pair is numerator and denominator. With
/// `alpha_cutoff` given, coverage is the fraction of subsamples whose scaled
/// alpha passes the test; without it, the average saturated scaled alpha.
pub fn calculate_coverage(
    img: &Image<'_, AlbedoFormat>,
    alpha_cutoff: Option<i64>,
    scale: i64,
) -> (r: (u64, u64))
    requires
        img.wf(),
        img.format.spec_has_alpha(),
        (img.width - 1) * (img.height - 1) <= 0x4000_0000,
        0 <= scale <= MAX_ALPHA_SCALE,
        alpha_cutoff matches Some(c) ==> 0 <= c <= FX_ONE,
    ensures
        r.0 == spec_coverage_num(
            img.pixels@,
            img.width as int,
            img.height as int,
            img.pixel_stride_in_bytes as int,
            spec_cut(alpha_cutoff),
            scale as int,
        ),
        r.1 == spec_coverage_den(img.width as int, img.height as int),
        r.0 <= r.1,
        1 <= r.1 <= 0x4000_0000_0000_0000,
{
    let ghost pix = img.pixels@;
    let ghost wg = img.width as int;
    let ghost hg = img.height as int;
    let ghost sg = img.pixel_stride_in_bytes as int;
    let ghost cut = spec_cut(alpha_cutoff);
    let ghost scg = scale as int;
    let w: u32 = img.width;
    let h: u32 = img.height;
    let stride: usize = img.pixel_stride_in_bytes;
    let c: usize = img.format.num_channel_in_memory();
    let plen: usize = img.pixels.len();
    proof {
        lemma_coverage_fraction(pix, wg, hg, sg, cut, scg);
        assert(plen == pix.len());
        assert(wg * hg * sg <= pix.len());
        assert(c == 4);
    }
    if w <= 1 || h <= 1 {
        return (0, 1);
    }
    let mut acc: u64 = 0;
    let mut y: u32 = 0;
    while y < h - 1
        invariant
            img.wf(),
            pix == img.pixels@ && wg == img.width as int && hg == img.height as int,
            sg == img.pixel_stride_in_bytes as int,
            w == img.width && h == img.height && stride == img.pixel_stride_in_bytes,
            cut == spec_cut(alpha_cutoff) && scg == scale as int,
            alpha_cutoff matches Some(cv) ==> 0 <= cv <= FX_ONE,
            2 <= wg && 2 <= hg,
            4 <= sg,
            (wg - 1) * (hg - 1) <= 0x4000_0000,
            0 <= scg <= MAX_ALPHA_SCALE,
            wg * hg * sg <= pix.len() <= usize::MAX,
            0 <= y <= h - 1,
            acc == spec_cov_rows(pix, wg, sg, y as int, cut, scg),
        decreases h - 1 - y,
    {
        let ghost yg = y as int;
        let mut x: u32 = 0;
        while x < w - 1
            invariant
                img.wf(),
                pix == img.pixels@ && wg == img.width as int && hg == img.height as int,
                sg == img.pixel_stride_in_bytes as int,
                w == img.width && h == img.height && stride == img.pixel_stride_in_bytes,
                cut == spec_cut(alpha_cutoff) && scg == scale as int,
                alpha_cutoff matches Some(cv) ==> 0 <= cv <= FX_ONE,
                2 <= wg && 2 <= hg,
                4 <= sg,
                (wg - 1) * (hg - 1) <= 0x4000_0000,
                0 <= scg <= MAX_ALPHA_SCALE,
                wg * hg * sg <= pix.len() <= usize::MAX,
                0 <= yg < hg - 1 && yg == y as int,
                0 <= x <= w - 1,
                acc == spec_cov_rows(pix, wg, sg, yg, cut, scg) + spec_cov_row(
                    pix,
                    wg,
                    sg,
                    yg,
                    x as int,
                    cut,
                    scg,
                ),
            decreases w - 1 - x,
        {
            let ghost xg = x as int;
            proof {
                assert((yg * wg + xg) * sg + 3 < wg * hg * sg && 0 <= (yg * wg + xg) * sg && ((yg
                    + 1) * wg + xg + 1) * sg + 3 < wg * hg * sg && ((yg + 1) * wg + xg) * sg + 3
                    < wg * hg * sg && (yg * wg + xg + 1) * sg + 3 < wg * hg * sg && yg * wg + xg + 1
                    < wg * hg && (yg + 1) * wg + xg + 1 < wg * hg && wg * hg <= wg * hg * sg)
                    by (nonlinear_arith)
                    requires
                        0 <= yg < hg - 1,
                        0 <= xg < wg - 1,
                        4 <= sg,
                        2 <= wg,
                        2 <= hg,
                ;
            }
            let base: usize = ((y as usize) * (w as usize) + (x as usize)) * stride;
            let base_r: usize = ((y as usize) * (w as usize) + (x as usize) + 1) * stride;
            let base_d: usize = (((y as usize) + 1) * (w as usize) + (x as usize)) * stride;
            let base_dr: usize = (((y as usize) + 1) * (w as usize) + (x as usize) + 1) * stride;
            let a00: u8 = img.pixels[base + 3];
            let a10: u8 = img.pixels[base_r + 3];
            let a01: u8 = img.pixels[base_d + 3];
            let a11: u8 = img.pixels[base_dr + 3];
            proof {
                assert(a00 == spec_alpha_at(pix, wg, sg, xg, yg));
                assert(a10 == spec_alpha_at(pix, wg, sg, xg + 1, yg));
                assert(a01 == spec_alpha_at(pix, wg, sg, xg, yg + 1));
                assert(a11 == spec_alpha_at(pix, wg, sg, xg + 1, yg + 1));
            }
            let mut j: u64 = 0;
            while j < 4
                invariant
                    cut == spec_cut(alpha_cutoff) && scg == scale as int,
                    0 <= scg <= MAX_ALPHA_SCALE,
                    alpha_cutoff matches Some(cv) ==> 0 <= cv <= FX_ONE,
                    2 <= wg && 2 <= hg,
                    (wg - 1) * (hg - 1) <= 0x4000_0000,
                    0 <= yg < hg - 1 && 0 <= xg < wg - 1,
                    a00 == spec_alpha_at(pix, wg, sg, xg, yg),
                    a10 == spec_alpha_at(pix, wg, sg, xg + 1, yg),
                    a01 == spec_alpha_at(pix, wg, sg, xg, yg + 1),
                    a11 == spec_alpha_at(pix, wg, sg, xg + 1, yg + 1),
                    0 <= j <= 4,
                    acc == spec_cov_rows(pix, wg, sg, yg, cut, scg) + spec_cov_row(
                        pix,
                        wg,
                        sg,
                        yg,
                        xg,
                        cut,
                        scg,
                    ) + spec_sub_grid(pix, wg, sg, xg, yg, j as int, cut, scg),
                decreases 4 - j,
            {
                let mut i: u64 = 0;
                while i < 4
                    invariant
                        cut == spec_cut(alpha_cutoff) && scg == scale as int,
                        0 <= scg <= MAX_ALPHA_SCALE,
                        alpha_cutoff matches Some(cv) ==> 0 <= cv <= FX_ONE,
                        2 <= wg && 2 <= hg,
                        (wg - 1) * (hg - 1) <= 0x4000_0000,
                        0 <= yg < hg - 1 && 0 <= xg < wg - 1,
                        a00 == spec_alpha_at(pix, wg, sg, xg, yg),
                        a10 == spec_alpha_at(pix, wg, sg, xg + 1, yg),
                        a01 == spec_alpha_at(pix, wg, sg, xg, yg + 1),
                        a11 == spec_alpha_at(pix, wg, sg, xg + 1, yg + 1),
                        0 <= j < 4,
                        0 <= i <= 4,
                        acc == spec_cov_rows(pix, wg, sg, yg, cut, scg) + spec_cov_row(
                            pix,
                            wg,
                            sg,
                            yg,
                            xg,
                            cut,
                            scg,
                        ) + spec_sub_grid(pix, wg, sg, xg, yg, j as int, cut, scg) + spec_sub_row(
                            pix,
                            wg,
                            sg,
                            xg,
                            yg,
                            j as int,
                            i as int,
                            cut,
                            scg,
                        ),
                    decreases 4 - i,
                {
                    proof {
                        assert(0 <= (4 - (i as int)) * (4 - (j as int)) <= 16 && 0 <= (i as int) * (
                        4 - (j as int)) <= 16 && 0 <= (4 - (i as int)) * (j as int) <= 16 && 0 <= (
                        i as int) * (j as int) <= 16 && 0 <= (a00 as int) * ((4 - (i as int)) * (4
                            - (j as int))) <= 4080 && 0 <= (a10 as int) * ((i as int) * (4 - (
                        j as int))) <= 4080 && 0 <= (a01 as int) * ((4 - (i as int)) * (j as int))
                            <= 4080 && 0 <= (a11 as int) * ((i as int) * (j as int)) <= 4080)
                            by (nonlinear_arith)
                            requires
                                0 <= i < 4,
                                0 <= j < 4,
                                0 <= a00 <= 255 && 0 <= a10 <= 255,
                                0 <= a01 <= 255 && 0 <= a11 <= 255,
                        ;
                    }
                    let a16: u64 = (a00 as u64) * ((4 - i) * (4 - j)) + (a10 as u64) * (i * (4 - j))
                        + (a01 as u64) * ((4 - i) * j) + (a11 as u64) * (i * j);
                    proof {
                        lemma_sub_alpha_range(pix, wg, sg, xg, yg, i as int, j as int);
                        assert(a16 == spec_sub_alpha(pix, wg, sg, xg, yg, i as int, j as int));
                        assert(a16 * (scg as int) <= 4080 * 524288 && 0 <= a16 * (scg as int))
                            by (nonlinear_arith)
                            requires
                                0 <= a16 <= 4080,
                                0 <= scg <= 524288,
                        ;
                    }
                    let scaled: u64 = a16 * (scale as u64);
                    let clamped: u64 = if scaled > SUB_FULL {
                        SUB_FULL
                    } else {
                        scaled
                    };
                    let gain: u64 = match alpha_cutoff {
                        Some(cutv) => {
                            if clamped > (cutv as u64) * 4080 {
                                SUB_FULL
                            } else {
                                0
                            }
                        },
                        None => clamped,
                    };
                    proof {
                        assert(gain == spec_sub_contrib(
                            pix,
                            wg,
                            sg,
                            xg,
                            yg,
                            i as int,
                            j as int,
                            cut,
                            scg,
                        ));
                        lemma_cov_rows_bound(pix, wg, sg, yg, cut, scg);
                        lemma_cov_row_bound(pix, wg, sg, yg, xg, cut, scg);
                        lemma_sub_grid_bound(pix, wg, sg, xg, yg, j as int, cut, scg);
                        lemma_sub_row_bound(pix, wg, sg, xg, yg, j as int, i as int, cut, scg);
                        assert(yg * (wg - 1) * (16 * SUB_FULL as int) + xg * (16 * SUB_FULL as int)
                            + (j as int) * 4 * (SUB_FULL as int) + (i as int) * (SUB_FULL as int)
                            + SUB_FULL as int <= 0x7fff_ffff_ffff_ffffint) by (nonlinear_arith)
                            requires
                                0 <= yg < hg - 1,
                                0 <= xg < wg - 1,
                                0 <= i < 4 && 0 <= j < 4,
                                2 <= wg && 2 <= hg,
                                (wg - 1) * (hg - 1) <= 0x4000_0000,
                        ;
                    }
                    acc = acc + gain;
                    i += 1;
                }
                j += 1;
            }
            x += 1;
        }
        y += 1;
    }
    proof {
        assert(((wg - 1) * (hg - 1)) * (16 * SUB_FULL as int) <= 0x4000_0000_0000_0000int && 1 <= ((
        wg - 1) * (hg - 1)) * (16 * SUB_FULL as int) && (wg - 1) * (hg - 1) >= 1)
            by (nonlinear_arith)
            requires
                1 <= (wg - 1) && 1 <= (hg - 1),
                (wg - 1) * (hg - 1) <= 0x4000_0000,
        ;
        assert(((wg - 1) * (hg - 1)) * (16 * SUB_FULL as int) == (wg - 1) * (hg - 1) * (16
            * SUB_FULL as int)) by (nonlinear_arith);
        lemma_coverage_fraction(pix, wg, hg, sg, cut, scg);
    }
    let den: u64 = ((w - 1) as u64) * ((h - 1) as u64) * (16 * SUB_FULL);
    (acc, den)
}

/// One more round of the bisection for the alpha scale whose coverage best
/// matches `dn / dd`: evaluate the midpoint's coverage, return it on an
/// exact match, otherwise keep the best-seen scale (coverage under
/// subsampling is not trusted to be strictly monotone, so the best seen is
/// what the search returns) and narrow toward the side that is off.
pub open spec fn spec_search(
    pix: Seq<u8>,
    w: int,
    h: int,
    stride: int,
    cutoff: Option<int>,
    dn: int,
    dd: int,
    lo: int,
    hi: int,
    best: int,
    best_diff: int,
    fuel: nat,
) -> int
    decreases fuel,
{
    if fuel == 0 {
        best
    } else {
        let mid = (lo + hi) / 2;
        let cn = spec_coverage_num(pix, w, h, stride, cutoff, mid);
        let cd = spec_coverage_den(w, h);
        let diff = spec_abs(cn * dd - dn * cd);
        if diff == 0 {
            mid
        } else {
            let best2 = if diff < best_diff {
                mid
            } else {
                best
            };
            let bd2 = if diff < best_diff {
                diff
            } else {
                best_diff
            };
            if cn * dd < dn * cd {
                spec_search(pix, w, h, stride, cutoff, dn, dd, mid, hi, best2, bd2, (fuel - 1) as nat)
            } else {
                spec_search(pix, w, h, stride, cutoff, dn, dd, lo, mid, best2, bd2, (fuel - 1) as nat)
            }
        }
    }
}

/// The scale the ten-round bisection over `[0, 8]` settles on.
pub open spec fn spec_find_scale(
    pix: Seq<u8>,
    w: int,
    h: int,
    stride: int,
    cutoff: Option<int>,
    dn: int,
    dd: int,
) -> int {
    spec_search(
        pix,
        w,
        h,
        stride,
        cutoff,
        dn,
        dd,
        0,
        MAX_ALPHA_SCALE as int,
        0,
        0xffff_ffff_ffff_ffff_ffff_ffff_ffff_ffff,
        10,
    )
}

/// The search never leaves the interval it starts from.
pub proof fn lemma_search_in_range(
    pix: Seq<u8>,
    w: int,
    h: int,
    stride: int,
    cutoff: Option<int>,
    dn: int,
    dd: int,
    lo: int,
    hi: int,
    best: int,
    best_diff: int,
    fuel: nat,
    a: int,
    b: int,
)
    requires
        0 <= a <= lo <= hi <= b,
        a <= best <= b,
    ensures
        a <= spec_search(pix, w, h, stride, cutoff, dn, dd, lo, hi, best, best_diff, fuel) <= b,
    decreases fuel,
{
    if fuel > 0 {
        let mid = (lo + hi) / 2;
        assert(lo <= mid <= hi) by {
            vstd::arithmetic::div_mod::lemma_div_is_ordered(2 * lo, lo + hi, 2);
            vstd::arithmetic::div_mod::lemma_div_is_ordered(lo + hi, 2 * hi, 2);
            vstd::arithmetic::div_mod::lemma_div_by_multiple(lo, 2);
            vstd::arithmetic::div_mod::lemma_div_by_multiple(hi, 2);
            assert(lo * 2 == 2 * lo && hi * 2 == 2 * hi);
        }
        let cn = spec_coverage_num(pix, w, h, stride, cutoff, mid);
        let cd = spec_coverage_den(w, h);
        let diff = spec_abs(cn * dd - dn * cd);
        if diff != 0 {
            let best2 = if diff < best_diff {
                mid
            } else {
                best
            };
            let bd2 = if diff < best_diff {
                diff
            } else {
                best_diff
            };
            if cn * dd < dn * cd {
                lemma_search_in_range(
                    pix, w, h, stride, cutoff, dn, dd, mid, hi, best2, bd2, (fuel - 1) as nat, a, b,
                );
            } else {
                lemma_search_in_range(
                    pix, w, h, stride, cutoff, dn, dd, lo, mid, best2, bd2, (fuel - 1) as nat, a, b,
                );
            }
        }
    }
}

/// The search only ever improves on the best candidate it carries: its
/// result's coverage error never exceeds the best error seen so far.
proof fn lemma_search_result_diff(
    pix: Seq<u8>,
    w: int,
    h: int,
    stride: int,
    cutoff: Option<int>,
    dn: int,
    dd: int,
    lo: int,
    hi: int,
    best: int,
    best_diff: int,
    fuel: nat,
)
    requires
        spec_abs(
            spec_coverage_num(pix, w, h, stride, cutoff, best) * dd - dn * spec_coverage_den(w, h),
        ) <= best_diff,
    ensures
        ({
            let r = spec_search(pix, w, h, stride, cutoff, dn, dd, lo, hi, best, best_diff, fuel);
            spec_abs(
                spec_coverage_num(pix, w, h, stride, cutoff, r) * dd - dn * spec_coverage_den(
                    w,
                    h,
                ),
            ) <= best_diff
        }),
    decreases fuel,
{
    if fuel > 0 {
        let mid = (lo + hi) / 2;
        let cn = spec_coverage_num(pix, w, h, stride, cutoff, mid);
        let cd = spec_coverage_den(w, h);
        let diff = spec_abs(cn * dd - dn * cd);
        if diff != 0 {
            let best2 = if diff < best_diff {
                mid
            } else {
                best
            };
            let bd2 = if diff < best_diff {
                diff
            } else {
                best_diff
            };
            if cn * dd < dn * cd {
                lemma_search_result_diff(
                    pix, w, h, stride, cutoff, dn, dd, mid, hi, best2, bd2, (fuel - 1) as nat,
                );
            } else {
                lemma_search_result_diff(
                    pix, w, h, stride, cutoff, dn, dd, lo, mid, best2, bd2, (fuel - 1) as nat,
                );
            }
        }
    }
}

/// Best-seen fallback: whatever the bisection's path, the scale it returns
/// matches the desired coverage at least as well as the first probed scale
/// (the midpoint `4.0`) does — the search never ends on a worse candidate
/// than it has seen.
pub proof fn lemma_found_scale_best_effort(
    pix: Seq<u8>,
    w: int,
    h: int,
    stride: int,
    cutoff: Option<int>,
    dn: int,
    dd: int,
)
    requires
        1 <= w,
        1 <= h,
        (w - 1) * (h - 1) <= 0x4000_0000,
        0 <= dn <= dd <= 0x4000_0000_0000_0000,
    ensures
        ({
            let r = spec_find_scale(pix, w, h, stride, cutoff, dn, dd);
            let cd = spec_coverage_den(w, h);
            spec_abs(spec_coverage_num(pix, w, h, stride, cutoff, r) * dd - dn * cd) <= spec_abs(
                spec_coverage_num(pix, w, h, stride, cutoff, 262144) * dd - dn * cd,
            )
        }),
{
    let cd = spec_coverage_den(w, h);
    let cn4 = spec_coverage_num(pix, w, h, stride, cutoff, 262144);
    let diff4 = spec_abs(cn4 * dd - dn * cd);
    lemma_coverage_fraction(pix, w, h, stride, cutoff, 262144);
    if w > 1 && h > 1 {
        assert(1 <= (w - 1) * (h - 1)) by (nonlinear_arith)
            requires
                1 <= w - 1 && 1 <= h - 1,
        ;
        assert(cd <= 0x4000_0000_0000_0000) by (nonlinear_arith)
            requires
                cd == (w - 1) * (h - 1) * (16 * SUB_FULL as int),
                1 <= (w - 1) * (h - 1) <= 0x4000_0000,
        ;
    }
    assert(0 <= cn4 * dd <= cd * dd && 0 <= dn * cd <= cd * dd && cd * dd
        < 0xffff_ffff_ffff_ffff_ffff_ffff_ffff_ffffint) by (nonlinear_arith)
        requires
            0 <= cn4 <= cd <= 0x4000_0000_0000_0000,
            0 <= dn <= dd <= 0x4000_0000_0000_0000,
    ;
    if diff4 != 0 {
        if cn4 * dd < dn * cd {
            lemma_search_result_diff(
                pix,
                w,
                h,
                stride,
                cutoff,
                dn,
                dd,
                262144,
                524288,
                262144,
                diff4,
                9,
            );
        } else {
            lemma_search_result_diff(
                pix,
                w,
                h,
                stride,
                cutoff,
                dn,
                dd,
                0,
                262144,
                262144,
                diff4,
                9,
            );
        }
    }
}

/// Binary-searches the alpha scale in `[0, 8]` (ten rounds) whose coverage
/// of the image comes closest to the desired fraction `desired_num /
/// desired_den`, tracking the best scale seen and stopping early on an
/// exact match. The result always lies in `[0, 8]`.
pub fn find_scale_for_coverage(
    img: &Image<'_, AlbedoFormat>,
    desired_num: u64,
    desired_den: u64,
    alpha_cutoff: Option<i64>,
) -> (r: i64)
    requires
        img.wf(),
        img.format.spec_has_alpha(),
        (img.width - 1) * (img.height - 1) <= 0x4000_0000,
        alpha_cutoff matches Some(c) ==> 0 <= c <= FX_ONE,
        desired_num <= desired_den,
        1 <= desired_den <= 0x4000_0000_0000_0000,
    ensures
        r == spec_find_scale(
            img.pixels@,
            img.width as int,
            img.height as int,
            img.pixel_stride_in_bytes as int,
            spec_cut(alpha_cutoff),
            desired_num as int,
            desired_den as int,
        ),
        0 <= r <= MAX_ALPHA_SCALE,
{
    let ghost pix = img.pixels@;
    let ghost wg = img.width as int;
    let ghost hg = img.height as int;
    let ghost sg = img.pixel_stride_in_bytes as int;
    let ghost cut = spec_cut(alpha_cutoff);
    let ghost dn = desired_num as int;
    let ghost dd = desired_den as int;
    let ghost target = spec_find_scale(pix, wg, hg, sg, cut, dn, dd);
    let mut lo: u64 = 0;
    let mut hi: u64 = MAX_ALPHA_SCALE as u64;
    let mut best: u64 = 0;
    let mut best_diff: u128 = 0xffff_ffff_ffff_ffff_ffff_ffff_ffff_ffffu128;
    let mut it: u64 = 0;
    proof {
        lemma_search_in_range(
            pix,
            wg,
            hg,
            sg,
            cut,
            dn,
            dd,
            0,
            MAX_ALPHA_SCALE as int,
            0,
            best_diff as int,
            10,
            0,
            MAX_ALPHA_SCALE as int,
        );
    }
    while it < 10
        invariant
            img.wf(),
            img.format.spec_has_alpha(),
            pix == img.pixels@ && wg == img.width as int && hg == img.height as int,
            sg == img.pixel_stride_in_bytes as int,
            cut == spec_cut(alpha_cutoff),
            alpha_cutoff matches Some(c) ==> 0 <= c <= FX_ONE,
            (wg - 1) * (hg - 1) <= 0x4000_0000,
            dn == desired_num as int && dd == desired_den as int,
            dn <= dd && 1 <= dd <= 0x4000_0000_0000_0000,
            0 <= it <= 10,
            0 <= lo <= hi <= MAX_ALPHA_SCALE as u64,
            0 <= best <= MAX_ALPHA_SCALE as u64,
            target == spec_find_scale(pix, wg, hg, sg, cut, dn, dd),
            target == spec_search(
                pix,
                wg,
                hg,
                sg,
                cut,
                dn,
                dd,
                lo as int,
                hi as int,
                best as int,
                best_diff as int,
                (10 - it) as nat,
            ),
            0 <= target <= MAX_ALPHA_SCALE,
        decreases 10 - it,
    {
        let mid: u64 = (lo + hi) / 2;
        proof {
            vstd::arithmetic::div_mod::lemma_div_is_ordered(2 * lo, lo + hi, 2);
            vstd::arithmetic::div_mod::lemma_div_is_ordered(lo + hi, 2 * hi, 2);
            vstd::arithmetic::div_mod::lemma_div_by_multiple(lo as int, 2);
            vstd::arithmetic::div_mod::lemma_div_by_multiple(hi as int, 2);
            assert((lo as int) * 2 == 2 * lo && (hi as int) * 2 == 2 * hi);
            assert(lo <= mid <= hi);
        }
        let (cn, cd): (u64, u64) = calculate_coverage(img, alpha_cutoff, mid as i64);
        proof {
            assert(0 <= (cn as int) * dd <= 0x1000_0000_0000_0000_0000_0000_0000_0000int && 0 <= dn
                * (cd as int) <= 0x1000_0000_0000_0000_0000_0000_0000_0000int) by (nonlinear_arith)
                requires
                    0 <= cn as int <= 0x4000_0000_0000_0000,
                    0 <= dd <= 0x4000_0000_0000_0000,
                    0 <= dn <= 0x4000_0000_0000_0000,
                    0 <= cd as int <= 0x4000_0000_0000_0000,
            ;
        }
        let a: u128 = (cn as u128) * (desired_den as u128);
        let b: u128 = (desired_num as u128) * (cd as u128);
        let diff: u128 = if a >= b {
            a - b
        } else {
            b - a
        };
        if diff == 0 {
            proof {
                assert(spec_abs((cn as int) * dd - dn * (cd as int)) == 0);
            }
            return mid as i64;
        }
        if diff < best_diff {
            best = mid;
            best_diff = diff;
        }
        if a < b {
            lo = mid;
        } else {
            hi = mid;
        }
        it += 1;
    }
    best as i64
}

/// Byte `idx` of the rescaled buffer: alpha bytes of the `w x h` pixel
/// region are multiplied by `scale` (rounded and clamped to a byte), all
/// other bytes are copied unchanged.
pub open spec fn spec_rescaled_byte(
    pix: Seq<u8>,
    w: int,
    h: int,
    stride: int,
    scale: int,
    idx: int,
) -> int {
    if idx < w * h * stride && idx % stride == 3 {
        crate::resample::spec_round_clamp((pix[idx] as int) * scale)
    } else {
        pix[idx] as int
    }
}

/// Scales the alpha of the downscaled texture to preserve the overall alpha
/// coverage: the source's coverage at scale one is the goal, the bisection
/// finds the scale whose coverage of the downsampled image comes closest,
/// and every alpha byte is multiplied by that scale.
///
/// If `alpha_cutoff` is given, a subsample is counted as visible when its
/// scaled alpha exceeds the cutoff; otherwise visibility is the saturated
/// linear sum of the scaled alphas, measured the same way on both images.
pub fn scale_alpha_to_original_coverage(
    src: &Image<'_, AlbedoFormat>,
    downsampled: &Image<'_, AlbedoFormat>,
    alpha_cutoff: Option<i64>,
) -> (r: Vec<u8>)
    requires
        src.wf(),
        downsampled.wf(),
        src.format.spec_has_alpha(),
        downsampled.format.spec_has_alpha(),
        (src.width - 1) * (src.height - 1) <= 0x4000_0000,
        (downsampled.width - 1) * (downsampled.height - 1) <= 0x4000_0000,
        alpha_cutoff matches Some(c) ==> 0 <= c <= FX_ONE,
    ensures
        r@.len() == downsampled.pixels@.len(),
        ({
            let sc = spec_find_scale(
                downsampled.pixels@,
                downsampled.width as int,
                downsampled.height as int,
                downsampled.pixel_stride_in_bytes as int,
                spec_cut(alpha_cutoff),
                spec_coverage_num(
                    src.pixels@,
                    src.width as int,
                    src.height as int,
                    src.pixel_stride_in_bytes as int,
                    spec_cut(alpha_cutoff),
                    FX_ONE as int,
                ),
                spec_coverage_den(src.width as int, src.height as int),
            );
            forall|idx: int|
                0 <= idx < r@.len() ==> r@[idx] == spec_rescaled_byte(
                    downsampled.pixels@,
                    downsampled.width as int,
                    downsampled.height as int,
                    downsampled.pixel_stride_in_bytes as int,
                    sc,
                    idx,
                )
        }),
{
    let ghost dpix = downsampled.pixels@;
    let ghost dw = downsampled.width as int;
    let ghost dh = downsampled.height as int;
    let ghost dsg = downsampled.pixel_stride_in_bytes as int;
    let (dn, dd): (u64, u64) = calculate_coverage(src, alpha_cutoff, FX_ONE);
    let scale: i64 = find_scale_for_coverage(downsampled, dn, dd, alpha_cutoff);
    let ghost scg = scale as int;
    let stride: usize = downsampled.pixel_stride_in_bytes;
    let plen: usize = downsampled.pixels.len();
    let dc: usize = downsampled.format.num_channel_in_memory();
    let dcs: usize = downsampled.format.channel_size_in_bytes();
    proof {
        assert(plen == dpix.len());
        assert(dw * dh * dsg <= dpix.len());
        assert(dc == 4);
        assert((dc as int) * (dcs as int) <= dsg);
        assert(4 <= dsg) by (nonlinear_arith)
            requires
                (dc as int) * (dcs as int) <= dsg,
                dc == 4,
                dcs >= 1,
        ;
        assert(dw * dh <= dw * dh * dsg) by (nonlinear_arith)
            requires
                1 <= dw && 1 <= dh && 1 <= dsg,
        ;
    }
    let limit: usize = (downsampled.width as usize) * (downsampled.height as usize) * stride;
    let mut out: Vec<u8> = Vec::new();
    let mut idx: usize = 0;
    while idx < plen
        invariant
            downsampled.wf(),
            dpix == downsampled.pixels@ && dw == downsampled.width as int,
            dh == downsampled.height as int && dsg == downsampled.pixel_stride_in_bytes as int,
            stride == downsampled.pixel_stride_in_bytes,
            scg == scale as int,
            0 <= scg <= MAX_ALPHA_SCALE,
            plen == dpix.len(),
            limit == dw * dh * dsg,
            limit <= plen,
            4 <= dsg,
            0 <= idx <= plen,
            out@.len() == idx,
            forall|i2: int|
                0 <= i2 < idx ==> out@[i2] == spec_rescaled_byte(dpix, dw, dh, dsg, scg, i2),
        decreases plen - idx,
    {
        let b: u8 = downsampled.pixels[idx];
        let v: u8 = if idx < limit && idx % stride == 3 {
            proof {
                assert(-0x1_0000_0000_0000_0000_0000_0000i128 < (b as int) * scg
                    < 0x1_0000_0000_0000_0000_0000_0000i128) by (nonlinear_arith)
                    requires
                        0 <= b <= 255,
                        0 <= scg <= 524288,
                ;
            }
            crate::resample::round_clamp((b as i128) * (scale as i128))
        } else {
            b
        };
        out.push(v);
        idx += 1;
    }
    out
}

/// Coverage preservation idempotence: searching for the alpha scale that
/// restores an image's own coverage returns exactly one, whenever the
/// image's coverage still responds to scaling (doubling the scale changes
/// it). For a saturated mask — one whose coverage no longer grows past
/// scale one — the bisection cannot tell larger scales from one and the
/// property does not apply.
pub proof fn lemma_find_scale_identity(
    pix: Seq<u8>,
    w: int,
    h: int,
    stride: int,
    cutoff: Option<int>,
)
    requires
        2 <= w,
        2 <= h,
        (w - 1) * (h - 1) <= 0x4000_0000,
        spec_coverage_num(pix, w, h, stride, cutoff, FX_ONE as int) < spec_coverage_num(
            pix,
            w,
            h,
            stride,
            cutoff,
            2 * FX_ONE as int,
        ),
    ensures
        spec_find_scale(
            pix,
            w,
            h,
            stride,
            cutoff,
            spec_coverage_num(pix, w, h, stride, cutoff, FX_ONE as int),
            spec_coverage_den(w, h),
        ) == FX_ONE as int,
{
    let dn = spec_coverage_num(pix, w, h, stride, cutoff, 65536);
    let cd = spec_coverage_den(w, h);
    let cn2 = spec_coverage_num(pix, w, h, stride, cutoff, 131072);
    let cn4 = spec_coverage_num(pix, w, h, stride, cutoff, 262144);
    lemma_coverage_monotone(pix, w, h, stride, cutoff, 131072, 262144);
    lemma_coverage_fraction(pix, w, h, stride, cutoff, 65536);
    lemma_coverage_fraction(pix, w, h, stride, cutoff, 131072);
    lemma_coverage_fraction(pix, w, h, stride, cutoff, 262144);
    assert(1 <= (w - 1) * (h - 1)) by (nonlinear_arith)
        requires
            1 <= w - 1 && 1 <= h - 1,
    ;
    assert(cd <= 0x4000_0000_0000_0000) by (nonlinear_arith)
        requires
            cd == (w - 1) * (h - 1) * (16 * SUB_FULL as int),
            1 <= (w - 1) * (h - 1) <= 0x4000_0000,
    ;
    // Scale 4: coverage strictly above the goal, so the upper half is cut.
    let diff4 = spec_abs(cn4 * cd - dn * cd);
    assert(dn * cd + cd <= cn4 * cd && 0 <= dn * cd && cn4 * cd <= cd * cd && cd * cd
        < 0xffff_ffff_ffff_ffff_ffff_ffff_ffff_ffffint) by (nonlinear_arith)
        requires
            dn + 1 <= cn2 <= cn4 <= cd <= 0x4000_0000_0000_0000,
            0 <= dn,
            1 <= cd,
    ;
    assert(spec_find_scale(pix, w, h, stride, cutoff, dn, cd) == spec_search(
        pix,
        w,
        h,
        stride,
        cutoff,
        dn,
        cd,
        0,
        262144,
        262144,
        diff4,
        9,
    ));
    // Scale 2: still strictly above the goal, cut again.
    let diff2 = spec_abs(cn2 * cd - dn * cd);
    assert(dn * cd + cd <= cn2 * cd && cn2 * cd <= cd * cd) by (nonlinear_arith)
        requires
            dn + 1 <= cn2 <= cd <= 0x4000_0000_0000_0000,
            0 <= dn,
            1 <= cd,
    ;
    assert(spec_search(pix, w, h, stride, cutoff, dn, cd, 0, 262144, 262144, diff4, 9)
        == spec_search(
        pix,
        w,
        h,
        stride,
        cutoff,
        dn,
        cd,
        0,
        131072,
        (if diff2 < diff4 {
            131072int
        } else {
            262144int
        }),
        (if diff2 < diff4 {
            diff2
        } else {
            diff4
        }),
        8,
    ));
    // Scale 1: exact match, the search stops here.
    assert(spec_search(
        pix,
        w,
        h,
        stride,
        cutoff,
        dn,
        cd,
        0,
        131072,
        (if diff2 < diff4 {
            131072int
        } else {
            262144int
        }),
        (if diff2 < diff4 {
            diff2
        } else {
            diff4
        }),
        8,
    ) == 65536);
}

} // verus!
