//! Normal-map downsampling: a box filter over each target pixel's source
//! rectangle, followed by renormalization so that every output texel again
//! encodes a unit-length tangent-space normal.
//!
//! Channels store `(v + 1) / 2 * 255`: byte `b` encodes component
//! `2 b - 255` in units of `1/255`. A two-channel reconstructed-Z map stores
//! only x and y; z is rebuilt as `sqrt(255^2 - x^2 - y^2)` before averaging.

use vstd::prelude::*;

use crate::fixed::is_isqrt;
use crate::fixed::isqrt_u64;
use crate::fixed::lemma_isqrt_unique;
use crate::fixed::lemma_spec_isqrt;
use crate::fixed::spec_div_round;
use crate::fixed::spec_isqrt;
use crate::format::ImagePixelFormat;
use crate::format::NormalMapFormat;
use crate::image::Image;
use crate::lanczos::spec_abs;

verus! {

/// First source pixel (inclusive) of the box of target index `i` along an
/// axis of `src` source and `target` target pixels.
pub open spec fn spec_box_lo(src: int, target: int, i: int) -> int {
    i * src / target
}

/// Last source pixel (exclusive) of the box of target index `i`.
pub open spec fn spec_box_hi(src: int, target: int, i: int) -> int {
    (i + 1) * src / target
}

/// Each box is a nonempty range inside the source axis.
pub proof fn lemma_box_bounds(src: int, target: int, i: int)
    requires
        1 <= target <= src,
        0 <= i < target,
    ensures
        0 <= spec_box_lo(src, target, i),
        spec_box_lo(src, target, i) < spec_box_hi(src, target, i),
        spec_box_hi(src, target, i) <= src,
{
    let lo = i * src;
    let hi = (i + 1) * src;
    assert(0 <= lo && hi == lo + src && hi <= target * src) by (nonlinear_arith)
        requires
            1 <= target <= src,
            0 <= i < target,
            lo == i * src,
            hi == (i + 1) * src,
    ;
    vstd::arithmetic::div_mod::lemma_div_pos_is_pos(lo, target);
    vstd::arithmetic::div_mod::lemma_div_is_ordered(lo + target, hi, target);
    vstd::arithmetic::div_mod::lemma_div_plus_one(lo, target);
    vstd::arithmetic::div_mod::lemma_div_is_ordered(hi, target * src, target);
    vstd::arithmetic::div_mod::lemma_div_by_multiple(src, target);
    assert(target * src == src * target) by (nonlinear_arith);
}

/// Sum of channel `k` over source pixels `x0 <= x < x1` of row `y`.
pub open spec fn spec_row_sum(
    pix: Seq<u8>,
    w: int,
    stride: int,
    k: int,
    y: int,
    x0: int,
    x1: int,
) -> int
    decreases x1 - x0,
{
    if x1 <= x0 {
        0int
    } else {
        spec_row_sum(pix, w, stride, k, y, x0, x1 - 1) + pix[(y * w + (x1 - 1)) * stride + k]
    }
}

/// Sum of channel `k` over the rectangle `x0 <= x < x1`, `y0 <= y < y1`.
pub open spec fn spec_rect_sum(
    pix: Seq<u8>,
    w: int,
    stride: int,
    k: int,
    x0: int,
    x1: int,
    y0: int,
    y1: int,
) -> int
    decreases y1 - y0,
{
    if y1 <= y0 {
        0int
    } else {
        spec_rect_sum(pix, w, stride, k, x0, x1, y0, y1 - 1) + spec_row_sum(
            pix,
            w,
            stride,
            k,
            y1 - 1,
            x0,
            x1,
        )
    }
}

/// A row sum of `n` bytes lies in `[0, 255 n]`.
proof fn lemma_row_sum_bound(pix: Seq<u8>, w: int, stride: int, k: int, y: int, x0: int, x1: int)
    requires
        x0 <= x1,
    ensures
        0 <= spec_row_sum(pix, w, stride, k, y, x0, x1) <= 255 * (x1 - x0),
    decreases x1 - x0,
{
    if x1 > x0 {
        lemma_row_sum_bound(pix, w, stride, k, y, x0, x1 - 1);
    }
}

/// A rectangle sum of `m x n` bytes lies in `[0, 255 m n]`.
proof fn lemma_rect_sum_bound(
    pix: Seq<u8>,
    w: int,
    stride: int,
    k: int,
    x0: int,
    x1: int,
    y0: int,
    y1: int,
)
    requires
        x0 <= x1,
        y0 <= y1,
    ensures
        0 <= spec_rect_sum(pix, w, stride, k, x0, x1, y0, y1) <= 255 * (x1 - x0) * (y1 - y0),
    decreases y1 - y0,
{
    if y1 > y0 {
        lemma_rect_sum_bound(pix, w, stride, k, x0, x1, y0, y1 - 1);
        lemma_row_sum_bound(pix, w, stride, k, y1 - 1, x0, x1);
        assert(255 * (x1 - x0) * (y1 - y0 - 1) + 255 * (x1 - x0) == 255 * (x1 - x0) * (y1 - y0))
            by (nonlinear_arith);
    } else {
        assert(255 * (x1 - x0) * 0 == 0) by (nonlinear_arith);
    }
}

/// Box-filtered average of channel `k` over the rectangle, rounded to
/// nearest.
pub open spec fn spec_rect_avg(
    pix: Seq<u8>,
    w: int,
    stride: int,
    k: int,
    x0: int,
    x1: int,
    y0: int,
    y1: int,
) -> int {
    spec_div_round(spec_rect_sum(pix, w, stride, k, x0, x1, y0, y1), (x1 - x0) * (y1 - y0))
}

/// The signed component a channel byte encodes, in units of `1/255`.
pub open spec fn spec_decode(avg: int) -> int {
    2 * avg - 255
}

/// `round(v * 255 / len)`, truncating symmetrically around zero.
pub open spec fn spec_scale_to_unit(v: int, len: int) -> int {
    if v >= 0 {
        (v * 255 + len / 2) / len
    } else {
        -(((-v) * 255 + len / 2) / len)
    }
}

/// The three renormalized components of the averaged vector `(vx, vy, vz)`:
/// each is `round(v * 255 / |(vx, vy, vz)|)`, so the result again has
/// magnitude close to `255` (one unit). A zero vector falls back to the
/// straight-up normal.
pub open spec fn spec_renormalize(vx: int, vy: int, vz: int) -> (int, int, int) {
    let s = vx * vx + vy * vy + vz * vz;
    if s == 0 {
        (0int, 0int, 255int)
    } else {
        let len = spec_isqrt(s);
        (spec_scale_to_unit(vx, len), spec_scale_to_unit(vy, len), spec_scale_to_unit(vz, len))
    }
}

/// The byte that encodes component `n` (with `|n| <= 255`).
pub open spec fn spec_encode(n: int) -> int {
    (n + 256) / 2
}

/// Rounding a component to the unit sphere keeps it within a byte and
/// introduces at most half a unit of error: `|n * len - v * 255| <= len / 2`
/// (stated doubled to stay in integers).
proof fn lemma_scale_to_unit_error(v: int, len: int)
    requires
        1 <= len,
        -len <= v <= len,
    ensures
        2 * spec_abs(spec_scale_to_unit(v, len) * len - v * 255) <= len,
        spec_abs(spec_scale_to_unit(v, len)) <= 255,
{
    if v >= 0 {
        let q = (v * 255 + len / 2) / len;
        vstd::arithmetic::div_mod::lemma_fundamental_div_mod(v * 255 + len / 2, len);
        assert(0 <= (v * 255 + len / 2) % len < len);
        assert(2 * (len / 2) == len - len % 2);
        assert(q * len == len * q) by (nonlinear_arith);
        assert(v * 255 <= len * 255) by (nonlinear_arith)
            requires
                v <= len,
        ;
        assert(v * 255 + len / 2 < len * 256) by (nonlinear_arith)
            requires
                v * 255 <= len * 255,
                len / 2 < len,
                1 <= len,
        ;
        vstd::arithmetic::div_mod::lemma_multiply_divide_lt(v * 255 + len / 2, len, 256);
        vstd::arithmetic::div_mod::lemma_div_pos_is_pos(v * 255 + len / 2, len);
    } else {
        let q = ((-v) * 255 + len / 2) / len;
        vstd::arithmetic::div_mod::lemma_fundamental_div_mod((-v) * 255 + len / 2, len);
        assert(0 <= ((-v) * 255 + len / 2) % len < len);
        assert(2 * (len / 2) == len - len % 2);
        assert(q * len == len * q) by (nonlinear_arith);
        assert((-v) * 255 <= len * 255) by (nonlinear_arith)
            requires
                -v <= len,
        ;
        assert((-v) * 255 + len / 2 < len * 256) by (nonlinear_arith)
            requires
                (-v) * 255 <= len * 255,
                len / 2 < len,
                1 <= len,
        ;
        vstd::arithmetic::div_mod::lemma_multiply_divide_lt((-v) * 255 + len / 2, len, 256);
        vstd::arithmetic::div_mod::lemma_div_pos_is_pos((-v) * 255 + len / 2, len);
        assert((-q) * len - v * 255 == -(q * len - (-v) * 255)) by (nonlinear_arith);
    }
}

/// Renormalization restores unit length: the squared magnitude of the
/// output vector, scaled by the squared input magnitude `len^2`, equals
/// `255^2 * s` (a unit vector in `1/255` units, since `len^2 <= s <
/// (len + 1)^2`) up to the rounding slack `195075 * len + len^2`. For a
/// typical averaged normal (`len` near 255) the output magnitude is
/// within a fraction of a percent of one.
pub proof fn lemma_renormalize_magnitude(vx: int, vy: int, vz: int)
    requires
        -255 <= vx <= 255,
        -255 <= vy <= 255,
        -255 <= vz <= 255,
        1 <= vx * vx + vy * vy + vz * vz,
    ensures
        ({
            let s = vx * vx + vy * vy + vz * vz;
            let len = spec_isqrt(s);
            let nrm = spec_renormalize(vx, vy, vz);
            &&& len * len <= s < (len + 1) * (len + 1)
            &&& 1 <= len
            &&& spec_abs(
                (nrm.0 * nrm.0 + nrm.1 * nrm.1 + nrm.2 * nrm.2) * (len * len) - 65025 * s,
            ) <= 195075 * len + len * len
        }),
{
    let s = vx * vx + vy * vy + vz * vz;
    let len = spec_isqrt(s);
    lemma_spec_isqrt(s);
    assert(len >= 1) by (nonlinear_arith)
        requires
            is_isqrt(s, len),
            s >= 1,
    ;
    assert(vx * vx <= s && vy * vy <= s && vz * vz <= s) by (nonlinear_arith)
        requires
            s == vx * vx + vy * vy + vz * vz,
    ;
    assert(-len <= vx <= len && -len <= vy <= len && -len <= vz <= len) by (nonlinear_arith)
        requires
            vx * vx <= s && vy * vy <= s && vz * vz <= s,
            s < (len + 1) * (len + 1),
            len >= 0,
    ;
    lemma_scale_to_unit_error(vx, len);
    lemma_scale_to_unit_error(vy, len);
    lemma_scale_to_unit_error(vz, len);
    let nx = spec_scale_to_unit(vx, len);
    let ny = spec_scale_to_unit(vy, len);
    let nz = spec_scale_to_unit(vz, len);
    let ex = nx * len - vx * 255;
    let ey = ny * len - vy * 255;
    let ez = nz * len - vz * 255;
    // each squared component, scaled by len^2, expands exactly
    assert((nx * nx) * (len * len) == 65025 * (vx * vx) + 510 * (vx * ex) + ex * ex
        && (ny * ny) * (len * len) == 65025 * (vy * vy) + 510 * (vy * ey) + ey * ey
        && (nz * nz) * (len * len) == 65025 * (vz * vz) + 510 * (vz * ez) + ez * ez)
        by (nonlinear_arith)
        requires
            ex == nx * len - vx * 255,
            ey == ny * len - vy * 255,
            ez == nz * len - vz * 255,
    ;
    assert((nx * nx + ny * ny + nz * nz) * (len * len) == (nx * nx) * (len * len) + (ny * ny) * (len
        * len) + (nz * nz) * (len * len)) by (nonlinear_arith);
    // cross terms: |510 v e| <= 65025 len per component
    assert(2 * spec_abs(vx * ex) <= 255 * len && 2 * spec_abs(vy * ey) <= 255 * len && 2 * spec_abs(
        vz * ez,
    ) <= 255 * len) by (nonlinear_arith)
        requires
            2 * spec_abs(ex) <= len && 2 * spec_abs(ey) <= len && 2 * spec_abs(ez) <= len,
            -255 <= vx <= 255 && -255 <= vy <= 255 && -255 <= vz <= 255,
            0 <= len,
    ;
    // squared errors: 4 e^2 <= len^2 per component
    assert(4 * (ex * ex) <= len * len && 4 * (ey * ey) <= len * len && 4 * (ez * ez) <= len * len)
        by (nonlinear_arith)
        requires
            2 * spec_abs(ex) <= len && 2 * spec_abs(ey) <= len && 2 * spec_abs(ez) <= len,
    ;
    assert(0 <= ex * ex && 0 <= ey * ey && 0 <= ez * ez) by (nonlinear_arith);
}

/// The renormalization bound carried down to the texel level: for every
/// target pixel of a downsampled normal map whose averaged vector is not
/// degenerate, the stored components form a vector of squared magnitude
/// `65025 * s / len^2` up to the rounding slack — unit length, since
/// `s / len^2` rounds to one.
pub proof fn lemma_normal_components_unit(
    pix: Seq<u8>,
    w: int,
    h: int,
    stride: int,
    fmt: NormalMapFormat,
    tw: int,
    th: int,
    tx: int,
    ty: int,
)
    requires
        1 <= tw <= w,
        1 <= th <= h,
        0 <= tx < tw,
        0 <= ty < th,
    ensures
        ({
            let nrm = spec_normal_components(pix, w, h, stride, fmt, tw, th, tx, ty);
            nrm.0 * nrm.0 + nrm.1 * nrm.1 + nrm.2 * nrm.2 == 65025 || (exists|vx: int, vy: int, vz: int|
                {
                    let s = vx * vx + vy * vy + vz * vz;
                    let len = spec_isqrt(s);
                    &&& 1 <= s
                    &&& #[trigger] spec_renormalize(vx, vy, vz) == nrm
                    &&& len * len <= s < (len + 1) * (len + 1)
                    &&& spec_abs(
                        (nrm.0 * nrm.0 + nrm.1 * nrm.1 + nrm.2 * nrm.2) * (len * len) - 65025 * s,
                    ) <= 195075 * len + len * len
                })
        }),
{
    let x0 = spec_box_lo(w, tw, tx);
    let x1 = spec_box_hi(w, tw, tx);
    let y0 = spec_box_lo(h, th, ty);
    let y1 = spec_box_hi(h, th, ty);
    lemma_box_bounds(w, tw, tx);
    lemma_box_bounds(h, th, ty);
    let vx = spec_decode(spec_rect_avg(pix, w, stride, 0, x0, x1, y0, y1));
    let vy = spec_decode(spec_rect_avg(pix, w, stride, 1, x0, x1, y0, y1));
    lemma_rect_avg_range(pix, w, stride, 0, x0, x1, y0, y1);
    lemma_rect_avg_range(pix, w, stride, 1, x0, x1, y0, y1);
    let vz = match fmt {
        NormalMapFormat::Rgb8 => spec_decode(spec_rect_avg(pix, w, stride, 2, x0, x1, y0, y1)),
        NormalMapFormat::Rg8TangentSpaceReconstructedZ => {
            let s2 = 65025 - vx * vx - vy * vy;
            if s2 <= 0 {
                0int
            } else {
                spec_isqrt(s2)
            }
        },
    };
    if fmt is Rgb8 {
        lemma_rect_avg_range(pix, w, stride, 2, x0, x1, y0, y1);
    } else {
        let s2 = 65025 - vx * vx - vy * vy;
        if s2 > 0 {
            lemma_spec_isqrt(s2);
            assert(0 <= vx * vx && 0 <= vy * vy) by (nonlinear_arith);
            assert(vz <= 255) by (nonlinear_arith)
                requires
                    is_isqrt(s2, vz),
                    s2 <= 65025,
                    0 <= vz,
            ;
        }
    }
    let s = vx * vx + vy * vy + vz * vz;
    if s == 0 {
        assert(spec_normal_components(pix, w, h, stride, fmt, tw, th, tx, ty) == (0int, 0int, 255int));
    } else {
        assert(s >= 1) by (nonlinear_arith)
            requires
                s == vx * vx + vy * vy + vz * vz,
                s != 0,
        ;
        lemma_renormalize_magnitude(vx, vy, vz);
        let nrm = spec_normal_components(pix, w, h, stride, fmt, tw, th, tx, ty);
        assert(spec_renormalize(vx, vy, vz) == nrm);
    }
}

/// A box average of bytes is itself a byte value, so a decoded component
/// lies in `[-255, 255]`.
proof fn lemma_rect_avg_range(
    pix: Seq<u8>,
    w: int,
    stride: int,
    k: int,
    x0: int,
    x1: int,
    y0: int,
    y1: int,
)
    requires
        x0 < x1,
        y0 < y1,
    ensures
        0 <= spec_rect_avg(pix, w, stride, k, x0, x1, y0, y1) <= 255,
        -255 <= spec_decode(spec_rect_avg(pix, w, stride, k, x0, x1, y0, y1)) <= 255,
{
    let cnt = (x1 - x0) * (y1 - y0);
    let sum = spec_rect_sum(pix, w, stride, k, x0, x1, y0, y1);
    lemma_rect_sum_bound(pix, w, stride, k, x0, x1, y0, y1);
    assert(1 <= cnt && 255 * (x1 - x0) * (y1 - y0) == 255 * cnt) by (nonlinear_arith)
        requires
            1 <= x1 - x0,
            1 <= y1 - y0,
            cnt == (x1 - x0) * (y1 - y0),
    ;
    vstd::arithmetic::div_mod::lemma_div_pos_is_pos(sum + cnt / 2, cnt);
    assert(sum + cnt / 2 < cnt * 256) by (nonlinear_arith)
        requires
            sum <= 255 * cnt,
            cnt / 2 < cnt,
            1 <= cnt,
    ;
    vstd::arithmetic::div_mod::lemma_multiply_divide_lt(sum + cnt / 2, cnt, 256);
}

/// The averaged, reconstructed and renormalized components of target pixel
/// `(tx, ty)` when downsampling a normal map of extent `w x h` to `tw x th`.
pub open spec fn spec_normal_components(
    pix: Seq<u8>,
    w: int,
    h: int,
    stride: int,
    fmt: NormalMapFormat,
    tw: int,
    th: int,
    tx: int,
    ty: int,
) -> (int, int, int) {
    let x0 = spec_box_lo(w, tw, tx);
    let x1 = spec_box_hi(w, tw, tx);
    let y0 = spec_box_lo(h, th, ty);
    let y1 = spec_box_hi(h, th, ty);
    let vx = spec_decode(spec_rect_avg(pix, w, stride, 0, x0, x1, y0, y1));
    let vy = spec_decode(spec_rect_avg(pix, w, stride, 1, x0, x1, y0, y1));
    let vz = match fmt {
        NormalMapFormat::Rgb8 => spec_decode(spec_rect_avg(pix, w, stride, 2, x0, x1, y0, y1)),
        NormalMapFormat::Rg8TangentSpaceReconstructedZ => {
            let s2 = 65025 - vx * vx - vy * vy;
            if s2 <= 0 {
                0int
            } else {
                spec_isqrt(s2)
            }
        },
    };
    spec_renormalize(vx, vy, vz)
}

/// Byte `idx` of the downsampled normal map: rows of `tw` pixels of `stride`
/// bytes; the stored channels carry the renormalized components and every
/// padding byte holds 255.
pub open spec fn spec_normal_out_byte(
    pix: Seq<u8>,
    w: int,
    h: int,
    stride: int,
    fmt: NormalMapFormat,
    tw: int,
    th: int,
    idx: int,
) -> int {
    let ty = idx / (tw * stride);
    let rem = idx % (tw * stride);
    let tx = rem / stride;
    let k = rem % stride;
    let nrm = spec_normal_components(pix, w, h, stride, fmt, tw, th, tx, ty);
    if k == 0 {
        spec_encode(nrm.0)
    } else if k == 1 {
        spec_encode(nrm.1)
    } else if k == 2 && fmt is Rgb8 {
        spec_encode(nrm.2)
    } else {
        255int
    }
}

/// Computes the box-filtered average of channel `k` over the source
/// rectangle.
fn rect_avg(
    pixels: &[u8],
    w: u32,
    stride: usize,
    k: usize,
    x0: u64,
    x1: u64,
    y0: u64,
    y1: u64,
) -> (r: u8)
    requires
        0 <= x0 < x1 <= w <= 0x4000_0000,
        0 <= y0 < y1,
        y1 <= 0x4000_0000,
        x1 <= w,
        k < stride,
        1 <= stride,
        y1 * (w as int) * stride <= pixels@.len(),
    ensures
        r == spec_rect_avg(pixels@, w as int, stride as int, k as int, x0 as int, x1 as int, y0 as int, y1 as int),
{
    let ghost pix = pixels@;
    let ghost wg = w as int;
    let ghost sg = stride as int;
    let ghost kg = k as int;
    let plen: usize = pixels.len();
    proof {
        assert(plen == pix.len());
    }
    let mut sum: u128 = 0;
    let mut y: u64 = y0;
    while y < y1
        invariant
            0 <= x0 < x1 <= wg <= 0x4000_0000,
            0 <= y0 <= y <= y1 <= 0x4000_0000,
            kg == k as int && kg < sg && 1 <= sg,
            wg == w as int && sg == stride as int,
            pix == pixels@,
            y1 * wg * sg <= pix.len() <= usize::MAX,
            sum == spec_rect_sum(pix, wg, sg, kg, x0 as int, x1 as int, y0 as int, y as int),
            sum <= 0x1_0000_0000_0000_0000_0000u128,
        decreases y1 - y,
    {
        let mut x: u64 = x0;
        while x < x1
            invariant
                0 <= x0 <= x <= x1 <= wg <= 0x4000_0000,
                0 <= y0 <= y < y1 <= 0x4000_0000,
                kg == k as int && kg < sg && 1 <= sg,
                wg == w as int && sg == stride as int,
                pix == pixels@,
                y1 * wg * sg <= pix.len() <= usize::MAX,
                sum == spec_rect_sum(pix, wg, sg, kg, x0 as int, x1 as int, y0 as int, y as int)
                    + spec_row_sum(pix, wg, sg, kg, y as int, x0 as int, x as int),
                sum <= 0x1_0000_0000_0000_0000_0000u128,
            decreases x1 - x,
        {
            proof {
                assert(((y as int) * wg + x) * sg + kg < y1 * wg * sg && 0 <= ((y as int) * wg + x)
                    * sg + kg && (y as int) * wg + x < y1 * wg && y1 * wg <= y1 * wg * sg)
                    by (nonlinear_arith)
                    requires
                        0 <= y < y1,
                        0 <= x < wg,
                        0 <= kg < sg,
                        1 <= sg,
                        1 <= wg,
                ;
                lemma_rect_sum_bound(pix, wg, sg, kg, x0 as int, x1 as int, y0 as int, y as int);
                lemma_row_sum_bound(pix, wg, sg, kg, y as int, x0 as int, x as int);
                assert(255 * (x1 - x0) * (y - y0) + 255 * (x - x0) + 255
                    <= 0x1_0000_0000_0000_0000_0000int) by (nonlinear_arith)
                    requires
                        0 <= x0 <= x < x1 <= 0x4000_0000,
                        0 <= y0 <= y <= 0x4000_0000,
                ;
            }
            let idx: usize = ((y as usize) * (w as usize) + (x as usize)) * stride + k;
            let b: u8 = pixels[idx];
            sum = sum + (b as u128);
            x += 1;
        }
        y += 1;
    }
    proof {
        assert(1 <= ((x1 - x0) as int) * ((y1 - y0) as int) <= 0x1000_0000_0000_0000int)
            by (nonlinear_arith)
            requires
                1 <= x1 - x0 <= 0x4000_0000,
                1 <= y1 - y0 <= 0x4000_0000,
        ;
    }
    let cnt: u128 = ((x1 - x0) as u128) * ((y1 - y0) as u128);
    proof {
        lemma_rect_sum_bound(pix, wg, sg, kg, x0 as int, x1 as int, y0 as int, y1 as int);
        assert(255 * (x1 - x0) * (y1 - y0) == 255 * (((x1 - x0) as int) * ((y1 - y0) as int)))
            by (nonlinear_arith);
        vstd::arithmetic::div_mod::lemma_div_is_ordered(
            sum + cnt / 2,
            255 * (cnt as int) + cnt / 2,
            cnt as int,
        );
        assert(255 * (cnt as int) + cnt / 2 < (cnt as int) * 256) by (nonlinear_arith)
            requires
                cnt >= 1,
                cnt / 2 < cnt,
        ;
        vstd::arithmetic::div_mod::lemma_multiply_divide_lt(
            255 * (cnt as int) + cnt / 2,
            cnt as int,
            256,
        );
        vstd::arithmetic::div_mod::lemma_div_pos_is_pos(sum + cnt / 2, cnt as int);
    }
    let avg: u128 = (sum + cnt / 2) / cnt;
    avg as u8
}

/// Scales component `v` of a vector of magnitude `len` to a unit vector in
/// units of `1/255`.
fn scale_to_unit(v: i64, len: u64) -> (r: i64)
    requires
        1 <= len <= 0xFFFF,
        -(len as int) <= v <= len as int,
    ensures
        r == spec_scale_to_unit(v as int, len as int),
        -255 <= r <= 255,
{
    proof {
        assert((len as int) * 255 + (len as int) / 2 < (len as int) * 256) by (nonlinear_arith)
            requires
                len >= 1,
        ;
    }
    if v >= 0 {
        let num: u64 = (v as u64) * 255 + len / 2;
        proof {
            vstd::arithmetic::div_mod::lemma_div_is_ordered(
                num as int,
                (len as int) * 255 + (len as int) / 2,
                len as int,
            );
            vstd::arithmetic::div_mod::lemma_multiply_divide_lt(
                (len as int) * 255 + (len as int) / 2,
                len as int,
                256,
            );
            vstd::arithmetic::div_mod::lemma_div_pos_is_pos(num as int, len as int);
        }
        (num / len) as i64
    } else {
        let num: u64 = ((-v) as u64) * 255 + len / 2;
        proof {
            vstd::arithmetic::div_mod::lemma_div_is_ordered(
                num as int,
                (len as int) * 255 + (len as int) / 2,
                len as int,
            );
            vstd::arithmetic::div_mod::lemma_multiply_divide_lt(
                (len as int) * 255 + (len as int) / 2,
                len as int,
                256,
            );
            vstd::arithmetic::div_mod::lemma_div_pos_is_pos(num as int, len as int);
        }
        -((num / len) as i64)
    }
}

/// Downsamples an image that is meant to be used as a normal map. Uses a box
/// filter instead of a Lanczos filter, and renormalizes each pixel to
/// preserve unit length for the normals after downsampling.
///
/// Returns the downsampled data: `target_height` rows of `target_width`
/// pixels at the source's pixel stride; bytes past the format's channels are
/// initialized to 255.
pub fn downsample_normal_map(
    src: &Image<'_, NormalMapFormat>,
    target_width: u32,
    target_height: u32,
) -> (r: Vec<u8>)
    requires
        src.wf(),
        1 <= target_width <= src.width,
        1 <= target_height <= src.height,
    ensures
        r@.len() == target_width * target_height * src.pixel_stride_in_bytes,
        forall|idx: int|
            0 <= idx < r@.len() ==> r@[idx] == spec_normal_out_byte(
                src.pixels@,
                src.width as int,
                src.height as int,
                src.pixel_stride_in_bytes as int,
                src.format,
                target_width as int,
                target_height as int,
                idx,
            ),
{
    let ghost pix = src.pixels@;
    let ghost wg = src.width as int;
    let ghost hg = src.height as int;
    let ghost strideg = src.pixel_stride_in_bytes as int;
    let ghost twg = target_width as int;
    let ghost thg = target_height as int;
    let w: u32 = src.width;
    let h: u32 = src.height;
    let stride: usize = src.pixel_stride_in_bytes;
    let fmt: NormalMapFormat = src.format;
    let c: usize = src.format.num_channel_in_memory();
    let csz: usize = src.format.channel_size_in_bytes();
    let plen: usize = src.pixels.len();
    proof {
        assert(plen == pix.len());
        assert(wg * hg * strideg <= pix.len());
        assert((c as int) * (csz as int) <= strideg);
        assert(c as int <= strideg) by (nonlinear_arith)
            requires
                (c as int) * (csz as int) <= strideg,
                csz as int >= 1,
                c as int >= 1,
        ;
    }
    let mut out: Vec<u8> = Vec::new();
    let mut ty: u32 = 0;
    while ty < target_height
        invariant
            src.wf(),
            pix == src.pixels@ && wg == src.width as int && hg == src.height as int,
            strideg == src.pixel_stride_in_bytes as int,
            twg == target_width as int && thg == target_height as int,
            w == src.width && h == src.height && stride == src.pixel_stride_in_bytes,
            fmt == src.format,
            c as int == src.format.spec_num_channels() && 2 <= c <= 3 && c as int <= strideg,
            1 <= twg <= wg <= 0x4000_0000,
            1 <= thg <= hg <= 0x4000_0000,
            wg * hg * strideg <= pix.len() <= usize::MAX,
            0 <= ty <= target_height,
            out@.len() == ty * (twg * strideg),
            forall|idx: int|
                0 <= idx < out@.len() ==> out@[idx] == spec_normal_out_byte(
                    pix,
                    wg,
                    hg,
                    strideg,
                    fmt,
                    twg,
                    thg,
                    idx,
                ),
        decreases target_height - ty,
    {
        let ghost tyg = ty as int;
        proof {
            lemma_box_bounds(hg, thg, tyg);
        }
        proof {
            assert(0 <= tyg * hg <= (tyg + 1) * hg <= 0x4000_0000_0000_0000int)
                by (nonlinear_arith)
                requires
                    0 <= tyg < thg <= hg <= 0x4000_0000,
            ;
        }
        let y0: u64 = (ty as u64) * (h as u64) / (target_height as u64);
        let y1: u64 = ((ty as u64) + 1) * (h as u64) / (target_height as u64);
        let mut tx: u32 = 0;
        while tx < target_width
            invariant
                src.wf(),
                pix == src.pixels@ && wg == src.width as int && hg == src.height as int,
                strideg == src.pixel_stride_in_bytes as int,
                twg == target_width as int && thg == target_height as int,
                w == src.width && h == src.height && stride == src.pixel_stride_in_bytes,
                fmt == src.format,
                c as int == src.format.spec_num_channels() && 2 <= c <= 3 && c as int <= strideg,
                1 <= twg <= wg <= 0x4000_0000,
                1 <= thg <= hg <= 0x4000_0000,
                wg * hg * strideg <= pix.len() <= usize::MAX,
                0 <= tyg < thg && tyg == ty as int,
                y0 == spec_box_lo(hg, thg, tyg),
                y1 == spec_box_hi(hg, thg, tyg),
                0 <= y0 < y1 <= hg,
                0 <= tx <= target_width,
                out@.len() == tyg * (twg * strideg) + tx * strideg,
                forall|idx: int|
                    0 <= idx < out@.len() ==> out@[idx] == spec_normal_out_byte(
                        pix,
                        wg,
                        hg,
                        strideg,
                        fmt,
                        twg,
                        thg,
                        idx,
                    ),
            decreases target_width - tx,
        {
            let ghost txg = tx as int;
            proof {
                lemma_box_bounds(wg, twg, txg);
                assert(y1 * wg * strideg <= hg * wg * strideg && hg * wg * strideg == wg * hg
                    * strideg) by (nonlinear_arith)
                    requires
                        0 <= y1 <= hg,
                        1 <= wg,
                        1 <= strideg,
                ;
            }
            proof {
                assert(0 <= txg * wg <= (txg + 1) * wg <= 0x4000_0000_0000_0000int)
                    by (nonlinear_arith)
                    requires
                        0 <= txg < twg <= wg <= 0x4000_0000,
                ;
            }
            let x0: u64 = (tx as u64) * (w as u64) / (target_width as u64);
            let x1: u64 = ((tx as u64) + 1) * (w as u64) / (target_width as u64);
            let a0: u8 = rect_avg(src.pixels, w, stride, 0, x0, x1, y0, y1);
            let a1: u8 = rect_avg(src.pixels, w, stride, 1, x0, x1, y0, y1);
            let vx: i64 = 2 * (a0 as i64) - 255;
            let vy: i64 = 2 * (a1 as i64) - 255;
            let vz: i64 = match fmt {
                NormalMapFormat::Rgb8 => {
                    let a2: u8 = rect_avg(src.pixels, w, stride, 2, x0, x1, y0, y1);
                    2 * (a2 as i64) - 255
                },
                NormalMapFormat::Rg8TangentSpaceReconstructedZ => {
                    proof {
                        assert(0 <= vx * vx <= 65025 && 0 <= vy * vy <= 65025)
                            by (nonlinear_arith)
                            requires
                                -255 <= vx <= 255,
                                -255 <= vy <= 255,
                        ;
                    }
                    let s2: i64 = 65025 - vx * vx - vy * vy;
                    if s2 <= 0 {
                        0
                    } else {
                        let rz: u64 = isqrt_u64(s2 as u64);
                        proof {
                            lemma_spec_isqrt(s2 as int);
                            lemma_isqrt_unique(s2 as int, rz as int, spec_isqrt(s2 as int));
                            assert(rz as int * (rz as int) <= 65025);
                            assert(rz <= 255) by (nonlinear_arith)
                                requires
                                    0 <= rz,
                                    (rz as int) * (rz as int) <= 65025,
                            ;
                        }
                        rz as i64
                    }
                },
            };
            proof {
                assert(0 <= vx * vx <= 65025 && 0 <= vy * vy <= 65025 && 0 <= vz * vz <= 65025)
                    by (nonlinear_arith)
                    requires
                        -255 <= vx <= 255,
                        -255 <= vy <= 255,
                        -255 <= vz <= 255,
                ;
            }
            let s: u64 = ((vx * vx) + (vy * vy) + (vz * vz)) as u64;
            let ghost nrm = spec_normal_components(pix, wg, hg, strideg, fmt, twg, thg, txg, tyg);
            let (b0, b1, b2): (u8, u8, u8) = if s == 0 {
                (128, 128, 255)
            } else {
                let len: u64 = isqrt_u64(s);
                proof {
                    lemma_spec_isqrt(s as int);
                    lemma_isqrt_unique(s as int, len as int, spec_isqrt(s as int));
                    assert(len >= 1) by (nonlinear_arith)
                        requires
                            is_isqrt(s as int, len as int),
                            s >= 1,
                    ;
                    assert(vx * vx <= s && vy * vy <= s && vz * vz <= s) by (nonlinear_arith)
                        requires
                            s == vx * vx + vy * vy + vz * vz,
                    ;
                    assert(-(len as int) <= vx <= len as int && -(len as int) <= vy <= len as int
                        && -(len as int) <= vz <= len as int) by (nonlinear_arith)
                        requires
                            vx * vx <= s && vy * vy <= s && vz * vz <= s,
                            (s as int) < (len as int + 1) * (len as int + 1),
                            len >= 0,
                    ;
                    assert(len <= 442) by (nonlinear_arith)
                        requires
                            (len as int) * (len as int) <= s,
                            s <= 195075,
                            len >= 0,
                    ;
                }
                let nx: i64 = scale_to_unit(vx, len);
                let ny: i64 = scale_to_unit(vy, len);
                let nz: i64 = scale_to_unit(vz, len);
                (
                    (((nx + 256) as u64) / 2) as u8,
                    (((ny + 256) as u64) / 2) as u8,
                    (((nz + 256) as u64) / 2) as u8,
                )
            };
            proof {
                assert(b0 == spec_encode(nrm.0) && b1 == spec_encode(nrm.1) && b2 == spec_encode(
                    nrm.2,
                ));
            }
            let mut k: usize = 0;
            while k < stride
                invariant
                    twg == target_width as int && thg == target_height as int,
                    strideg == stride as int,
                    fmt == src.format,
                    c as int == src.format.spec_num_channels() && 2 <= c <= 3 && c as int
                        <= strideg,
                    0 <= tyg < thg && 0 <= txg < twg,
                    txg == tx as int,
                    b0 == spec_encode(nrm.0) && b1 == spec_encode(nrm.1) && b2 == spec_encode(
                        nrm.2,
                    ),
                    nrm == spec_normal_components(pix, wg, hg, strideg, fmt, twg, thg, txg, tyg),
                    (fmt is Rgb8 <==> c == 3),
                    0 <= k <= stride,
                    out@.len() == tyg * (twg * strideg) + txg * strideg + k,
                    forall|idx: int|
                        0 <= idx < out@.len() ==> out@[idx] == spec_normal_out_byte(
                            pix,
                            wg,
                            hg,
                            strideg,
                            fmt,
                            twg,
                            thg,
                            idx,
                        ),
                decreases stride - k,
            {
                let v: u8 = if k == 0 {
                    b0
                } else if k == 1 {
                    b1
                } else if k == 2 && c == 3 {
                    b2
                } else {
                    255
                };
                proof {
                    let idxg = out@.len() as int;
                    assert(idxg == (tyg * twg + txg) * strideg + k) by (nonlinear_arith)
                        requires
                            idxg == tyg * (twg * strideg) + txg * strideg + k,
                    ;
                    crate::resample::lemma_flat_index(tyg, txg, k as int, twg, strideg);
                    assert(v == spec_normal_out_byte(pix, wg, hg, strideg, fmt, twg, thg, idxg));
                }
                out.push(v);
                k += 1;
            }
            proof {
                assert(tyg * (twg * strideg) + txg * strideg + strideg == tyg * (twg * strideg) + (
                txg + 1) * strideg) by (nonlinear_arith);
            }
            tx += 1;
        }
        proof {
            assert(tyg * (twg * strideg) + twg * strideg == (tyg + 1) * (twg * strideg))
                by (nonlinear_arith);
        }
        ty += 1;
    }
    proof {
        assert(thg * (twg * strideg) == twg * thg * strideg) by (nonlinear_arith);
    }
    out
}

} // verus!
