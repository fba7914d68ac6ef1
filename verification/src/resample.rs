//! The separable two-pass resampling pipeline for albedo images.
//!
//! The horizontal pass convolves every source row with the width-axis weight
//! lines into a `src_height x target_width` scratch buffer; the vertical pass
//! convolves every scratch column with the height-axis lines into the output.
//! Every output byte is specified exactly, as a function of the input pixels
//! and the fixed-point filter coefficients.

use vstd::prelude::*;

use crate::format::AlbedoFormat;
use crate::format::ImagePixelFormat;
use crate::image::Image;
use crate::lanczos::spec_coeff;
use crate::weights::SampleWeights;
use crate::weights::WeightCollection;
use crate::weights::collection_matches;
use crate::weights::downsample_dims_valid;
use crate::weights::precompute_lanczos_weights;
use crate::weights::spec_win_count;
use crate::weights::spec_win_delta;
use crate::window::spec_window;
use crate::window::window_in_bounds;

verus! {

/// Default filter scale of [`downsample`]: `3.0` in Q16.16, a good
/// detail-to-cost trade-off.
pub const DEFAULT_FILTER_SCALE: i64 = 196608;

/// Byte `k` of the pixel at column `x`, row `y` of a buffer whose rows are
/// `width` pixels of `stride` bytes.
pub open spec fn spec_byte_at(pix: Seq<u8>, width: int, stride: int, x: int, y: int, k: int) -> u8 {
    pix[(y * width + x) * stride + k]
}

/// Normalized filter coefficient `j` of the weight line of target index `i`
/// along an axis going from `src` to `target` pixels.
pub open spec fn spec_axis_coeff(src: int, target: int, fs: int, i: int, j: int) -> int {
    spec_coeff(
        src,
        target,
        fs,
        spec_win_count(src, target, fs, i),
        spec_win_delta(src, target, fs, i),
        j,
    )
}

/// Fixed-point accumulator of the horizontal pass: the weighted sum of the
/// first `j` taps contributing to target column `tx` on source row `y`,
/// channel `k`.
pub open spec fn spec_hsum(
    pix: Seq<u8>,
    w: int,
    stride: int,
    fs: int,
    tw: int,
    tx: int,
    y: int,
    k: int,
    j: int,
) -> int
    decreases j,
{
    if j <= 0 {
        0int
    } else {
        spec_hsum(pix, w, stride, fs, tw, tx, y, k, j - 1) + spec_axis_coeff(w, tw, fs, tx, j - 1)
            * spec_byte_at(pix, w, stride, spec_window(w, tw, fs, tx).src_start + j - 1, y, k)
    }
}

/// Rounds a Q16.16 accumulator to the nearest byte, clamped to `[0, 255]`.
pub open spec fn spec_round_clamp(acc: int) -> int {
    let v = (acc + 32768) / 65536;
    if v < 0 {
        0int
    } else if v > 255 {
        255int
    } else {
        v
    }
}

/// The horizontally filtered value of target column `tx`, source row `y`,
/// channel `k`.
pub open spec fn spec_hpix(
    pix: Seq<u8>,
    w: int,
    stride: int,
    fs: int,
    tw: int,
    tx: int,
    y: int,
    k: int,
) -> int {
    spec_round_clamp(spec_hsum(pix, w, stride, fs, tw, tx, y, k, spec_win_count(w, tw, fs, tx)))
}

/// Fixed-point accumulator of the vertical pass: the weighted sum of the
/// first `j` taps (horizontally filtered rows) contributing to target pixel
/// `(tx, ty)`, channel `k`.
pub open spec fn spec_vsum(
    pix: Seq<u8>,
    w: int,
    h: int,
    stride: int,
    fs: int,
    tw: int,
    th: int,
    tx: int,
    ty: int,
    k: int,
    j: int,
) -> int
    decreases j,
{
    if j <= 0 {
        0int
    } else {
        spec_vsum(pix, w, h, stride, fs, tw, th, tx, ty, k, j - 1) + spec_axis_coeff(
            h,
            th,
            fs,
            ty,
            j - 1,
        ) * spec_hpix(pix, w, stride, fs, tw, tx, spec_window(h, th, fs, ty).src_start + j - 1, k)
    }
}

/// The fully filtered value of output pixel `(tx, ty)`, channel `k`.
pub open spec fn spec_out_pix(
    pix: Seq<u8>,
    w: int,
    h: int,
    stride: int,
    fs: int,
    tw: int,
    th: int,
    tx: int,
    ty: int,
    k: int,
) -> int {
    spec_round_clamp(
        spec_vsum(pix, w, h, stride, fs, tw, th, tx, ty, k, spec_win_count(h, th, fs, ty)),
    )
}

/// Byte `idx` of the downsampled output: rows of `tw` pixels of `stride`
/// bytes, the first `c` bytes of each pixel filtered, the padding bytes zero.
pub open spec fn spec_output_byte(
    pix: Seq<u8>,
    w: int,
    h: int,
    stride: int,
    c: int,
    fs: int,
    tw: int,
    th: int,
    idx: int,
) -> int {
    let ty = idx / (tw * stride);
    let rem = idx % (tw * stride);
    let tx = rem / stride;
    let k = rem % stride;
    if k < c {
        spec_out_pix(pix, w, h, stride, fs, tw, th, tx, ty, k)
    } else {
        0int
    }
}

/// Byte `idx` of the horizontal-pass scratch buffer: rows of `tw` pixels of
/// `c` bytes.
pub open spec fn spec_scratch_byte(
    pix: Seq<u8>,
    w: int,
    stride: int,
    c: int,
    fs: int,
    tw: int,
    idx: int,
) -> int {
    let y = idx / (tw * c);
    let rem = idx % (tw * c);
    let tx = rem / c;
    let k = rem % c;
    spec_hpix(pix, w, stride, fs, tw, tx, y, k)
}

/// Decomposes the flat index `(a * bb + b) * cc + c2` back into its digits.
pub(crate) proof fn lemma_flat_index(a: int, b: int, c2: int, bb: int, cc: int)
    requires
        0 <= a,
        0 <= b < bb,
        0 <= c2 < cc,
    ensures
        ((a * bb + b) * cc + c2) / (bb * cc) == a,
        (((a * bb + b) * cc + c2) % (bb * cc)) / cc == b,
        (((a * bb + b) * cc + c2) % (bb * cc)) % cc == c2,
{
    let idx = (a * bb + b) * cc + c2;
    let low = b * cc + c2;
    assert(idx == a * (bb * cc) + low && 0 <= low < bb * cc) by (nonlinear_arith)
        requires
            0 <= a && 0 <= b < bb && 0 <= c2 < cc,
            idx == (a * bb + b) * cc + c2,
            low == b * cc + c2,
    ;
    vstd::arithmetic::div_mod::lemma_fundamental_div_mod_converse(idx, bb * cc, a, low);
    vstd::arithmetic::div_mod::lemma_fundamental_div_mod_converse(low, cc, b, c2);
}

/// Rounds a Q16.16 accumulator to the nearest byte, clamping to `[0, 255]`.
pub(crate) fn round_clamp(acc: i128) -> (r: u8)
    requires
        -0x1_0000_0000_0000_0000_0000_0000i128 < acc < 0x1_0000_0000_0000_0000_0000_0000i128,
    ensures
        r == spec_round_clamp(acc as int),
{
    if acc < 0 {
        proof {
            vstd::arithmetic::div_mod::lemma_div_is_ordered(acc + 32768, 32768, 65536);
        }
        0
    } else {
        let v: u128 = ((acc as u128) + 32768) / 65536;
        if v > 255 {
            255
        } else {
            v as u8
        }
    }
}

/// Samples the provided image down to the specified width and height with a
/// caller-chosen filter scale (Q16.16; higher keeps more detail and costs
/// more time). Returns the downsampled pixels: `target_height` rows of
/// `target_width` pixels at the source's pixel stride, with any padding bytes
/// beyond the format's channels set to zero.
pub fn downsample_with_custom_scale(
    src: &Image<'_, AlbedoFormat>,
    target_width: u32,
    target_height: u32,
    filter_scale: i64,
) -> (r: Vec<u8>)
    requires
        src.wf(),
        downsample_dims_valid(
            src.width as int,
            src.height as int,
            target_width as int,
            target_height as int,
            filter_scale as int,
        ),
    ensures
        r@.len() == target_width * target_height * src.pixel_stride_in_bytes,
        forall|idx: int|
            0 <= idx < r@.len() ==> r@[idx] == spec_output_byte(
                src.pixels@,
                src.width as int,
                src.height as int,
                src.pixel_stride_in_bytes as int,
                src.format.spec_num_channels() as int,
                filter_scale as int,
                target_width as int,
                target_height as int,
                idx,
            ),
{
    let ghost pix = src.pixels@;
    let ghost wg = src.width as int;
    let ghost hg = src.height as int;
    let ghost strideg = src.pixel_stride_in_bytes as int;
    let ghost fsg = filter_scale as int;
    let ghost twg = target_width as int;
    let ghost thg = target_height as int;
    let w: u32 = src.width;
    let h: u32 = src.height;
    let stride: usize = src.pixel_stride_in_bytes;
    let c: usize = src.format.num_channel_in_memory();
    let csz: usize = src.format.channel_size_in_bytes();
    let plen: usize = src.pixels.len();
    let ghost cg = c as int;
    let weights: SampleWeights = precompute_lanczos_weights(
        w,
        h,
        target_width,
        target_height,
        filter_scale,
    );
    let hw: &WeightCollection = weights.horizontal();
    let vw: &WeightCollection = weights.vertical();
    proof {
        assert(plen == pix.len());
        assert(wg * hg * strideg <= pix.len());
        assert(cg * (csz as int) <= strideg);
        assert(cg <= strideg) by (nonlinear_arith)
            requires
                cg * (csz as int) <= strideg,
                csz as int >= 1,
                cg >= 1,
        ;
        assert(hg * (twg * cg) <= wg * hg * strideg && thg * (twg * strideg) <= wg * hg * strideg)
            by (nonlinear_arith)
            requires
                1 <= twg <= wg,
                1 <= thg <= hg,
                1 <= cg <= strideg,
        ;
    }
    // Horizontal pass: src_height rows of target_width pixels of c channels.
    let mut scratch: Vec<u8> = Vec::new();
    let mut y: u32 = 0;
    while y < h
        invariant
            src.wf(),
            downsample_dims_valid(wg, hg, twg, thg, fsg),
            pix == src.pixels@ && wg == src.width as int && hg == src.height as int,
            strideg == src.pixel_stride_in_bytes as int && fsg == filter_scale as int,
            twg == target_width as int && thg == target_height as int,
            w == src.width && h == src.height && stride == src.pixel_stride_in_bytes,
            cg == c as int && cg == src.format.spec_num_channels(),
            1 <= cg <= 4 && cg <= strideg,
            collection_matches(*hw, wg, twg, fsg),
            0 <= y <= h,
            scratch@.len() == y * (twg * cg),
            hg * (twg * cg) <= wg * hg * strideg <= pix.len() <= usize::MAX,
            forall|idx: int|
                0 <= idx < scratch@.len() ==> scratch@[idx] == spec_scratch_byte(
                    pix,
                    wg,
                    strideg,
                    cg,
                    fsg,
                    twg,
                    idx,
                ),
        decreases h - y,
    {
        let ghost yg = y as int;
        let mut tx: u32 = 0;
        while tx < target_width
            invariant
                src.wf(),
                downsample_dims_valid(wg, hg, twg, thg, fsg),
                pix == src.pixels@ && wg == src.width as int && hg == src.height as int,
                strideg == src.pixel_stride_in_bytes as int && fsg == filter_scale as int,
                twg == target_width as int && thg == target_height as int,
                w == src.width && h == src.height && stride == src.pixel_stride_in_bytes,
                cg == c as int && cg == src.format.spec_num_channels(),
                1 <= cg <= 4 && cg <= strideg,
                collection_matches(*hw, wg, twg, fsg),
                0 <= yg < hg && yg == y as int,
                0 <= tx <= target_width,
                scratch@.len() == yg * (twg * cg) + tx * cg,
                hg * (twg * cg) <= wg * hg * strideg <= pix.len() <= usize::MAX,
                forall|idx: int|
                    0 <= idx < scratch@.len() ==> scratch@[idx] == spec_scratch_byte(
                        pix,
                        wg,
                        strideg,
                        cg,
                        fsg,
                        twg,
                        idx,
                    ),
            decreases target_width - tx,
        {
            let ghost txg = tx as int;
            let line = hw.lines[tx as usize];
            let coeffs: &Vec<i64> = &hw.pool[line.line];
            let n: usize = coeffs.len();
            proof {
                assert(window_in_bounds(wg, twg, spec_window(wg, twg, fsg, txg)));
                assert(hw.spec_coeffs(txg) == coeffs@);
                assert(1 <= spec_win_count(wg, twg, fsg, txg) <= wg);
                assert(coeffs@.len() == spec_win_count(wg, twg, fsg, txg));
                assert(hw.spec_start(txg) == line.start as int);
                assert(line.start == spec_window(wg, twg, fsg, txg).src_start);
                assert(line.start + n <= wg);
            }
            let mut k: usize = 0;
            while k < c
                invariant
                    src.wf(),
                    pix == src.pixels@ && wg == src.width as int && hg == src.height as int,
                    strideg == src.pixel_stride_in_bytes as int && fsg == filter_scale as int,
                    twg == target_width as int,
                    w == src.width && h == src.height && stride == src.pixel_stride_in_bytes,
                    cg == c as int,
                    1 <= cg <= 4 && cg <= strideg,
                    collection_matches(*hw, wg, twg, fsg),
                    0 <= yg < hg && yg == y as int,
                    0 <= txg < twg && txg == tx as int,
                    1 <= twg <= wg && 1 <= hg,
                    coeffs@ == hw.spec_coeffs(txg),
                    n == coeffs@.len(),
                    n == spec_win_count(wg, twg, fsg, txg),
                    1 <= n,
                    line.start == spec_window(wg, twg, fsg, txg).src_start,
                    line.start + n <= wg,
                    0 <= k <= c,
                    scratch@.len() == yg * (twg * cg) + txg * cg + k,
                    hg * (twg * cg) <= wg * hg * strideg <= pix.len() <= usize::MAX,
                    forall|idx: int|
                        0 <= idx < scratch@.len() ==> scratch@[idx] == spec_scratch_byte(
                            pix,
                            wg,
                            strideg,
                            cg,
                            fsg,
                            twg,
                            idx,
                        ),
                decreases c - k,
            {
                let mut acc: i128 = 0;
                let mut j: usize = 0;
                while j < n
                    invariant
                        src.wf(),
                        pix == src.pixels@ && wg == src.width as int,
                        strideg == src.pixel_stride_in_bytes as int && fsg == filter_scale as int,
                        twg == target_width as int,
                        w == src.width && stride == src.pixel_stride_in_bytes,
                        hg == src.height as int && 1 <= hg,
                        cg == c as int && 1 <= cg <= 4 && cg <= strideg,
                        0 <= yg < hg && yg == y as int,
                        0 <= txg < twg && txg == tx as int,
                        1 <= twg <= wg,
                        coeffs@ == hw.spec_coeffs(txg),
                        collection_matches(*hw, wg, twg, fsg),
                        n == coeffs@.len(),
                        n == spec_win_count(wg, twg, fsg, txg),
                        line.start == spec_window(wg, twg, fsg, txg).src_start,
                        line.start + n <= wg,
                        0 <= k < c,
                        wg * hg * strideg <= pix.len() <= usize::MAX,
                        0 <= j <= n,
                        acc == spec_hsum(pix, wg, strideg, fsg, twg, txg, yg, k as int, j as int),
                        -0x1FE_0000_0000_0000i128 * (j as i128) <= acc <= 0x1FE_0000_0000_0000i128
                            * (j as i128),
                    decreases n - j,
                {
                    let coef: i64 = coeffs[j];
                    let x: usize = line.start as usize + j;
                    proof {
                        assert(-0x2_0000_0000_0000i64 <= coef <= 0x2_0000_0000_0000i64);
                        crate::lanczos::lemma_coeff_bound(
                            wg,
                            twg,
                            fsg,
                            n as int,
                            spec_win_delta(wg, twg, fsg, txg),
                            j as int,
                        );
                        assert(coef == spec_axis_coeff(wg, twg, fsg, txg, j as int));
                        assert((yg * wg + x) * strideg + k < wg * hg * strideg && 0 <= (yg * wg + x)
                            * strideg + k && yg * wg + x < wg * hg && wg * hg <= wg * hg * strideg)
                            by (nonlinear_arith)
                            requires
                                0 <= yg < hg,
                                0 <= x < wg,
                                0 <= k < strideg,
                                1 <= strideg,
                        ;
                    }
                    let idx: usize = ((y as usize) * (w as usize) + x) * stride + k;
                    let px: u8 = src.pixels[idx];
                    proof {
                        assert(-0x1FE_0000_0000_0000i128 <= (coef as int) * (px as int)
                            <= 0x1FE_0000_0000_0000i128) by (nonlinear_arith)
                            requires
                                -0x2_0000_0000_0000i64 <= coef <= 0x2_0000_0000_0000i64,
                                0 <= px <= 255,
                        ;
                    }
                    acc = acc + (coef as i128) * (px as i128);
                    j += 1;
                }
                let v: u8 = round_clamp(acc);
                proof {
                    let idxg = scratch@.len() as int;
                    assert(idxg == (yg * twg + txg) * cg + k) by (nonlinear_arith)
                        requires
                            idxg == yg * (twg * cg) + txg * cg + k,
                    ;
                    lemma_flat_index(yg, txg, k as int, twg, cg);
                    assert(v == spec_scratch_byte(pix, wg, strideg, cg, fsg, twg, idxg));
                }
                scratch.push(v);
                k += 1;
            }
            proof {
                assert(yg * (twg * cg) + txg * cg + cg == yg * (twg * cg) + (txg + 1) * cg)
                    by (nonlinear_arith);
            }
            tx += 1;
        }
        proof {
            assert(yg * (twg * cg) + twg * cg == (yg + 1) * (twg * cg)) by (nonlinear_arith);
        }
        y += 1;
    }
    let ghost scratchv = scratch@;
    // Vertical pass: target_height rows of target_width pixels of stride
    // bytes, channels filtered and padding zeroed.
    let mut out: Vec<u8> = Vec::new();
    let mut ty: u32 = 0;
    while ty < target_height
        invariant
            src.wf(),
            downsample_dims_valid(wg, hg, twg, thg, fsg),
            pix == src.pixels@ && wg == src.width as int && hg == src.height as int,
            strideg == src.pixel_stride_in_bytes as int && fsg == filter_scale as int,
            twg == target_width as int && thg == target_height as int,
            w == src.width && h == src.height && stride == src.pixel_stride_in_bytes,
            cg == c as int && cg == src.format.spec_num_channels(),
            1 <= cg <= 4 && cg <= strideg,
            collection_matches(*vw, hg, thg, fsg),
            scratch@ == scratchv,
            scratchv.len() == hg * (twg * cg),
            hg * (twg * cg) <= wg * hg * strideg <= pix.len() <= usize::MAX,
            thg * (twg * strideg) <= wg * hg * strideg,
            forall|idx: int|
                0 <= idx < scratchv.len() ==> scratchv[idx] == spec_scratch_byte(
                    pix,
                    wg,
                    strideg,
                    cg,
                    fsg,
                    twg,
                    idx,
                ),
            0 <= ty <= target_height,
            out@.len() == ty * (twg * strideg),
            forall|idx: int|
                0 <= idx < out@.len() ==> out@[idx] == spec_output_byte(
                    pix,
                    wg,
                    hg,
                    strideg,
                    cg,
                    fsg,
                    twg,
                    thg,
                    idx,
                ),
        decreases target_height - ty,
    {
        let ghost tyg = ty as int;
        let vline = vw.lines[ty as usize];
        let vcoeffs: &Vec<i64> = &vw.pool[vline.line];
        let vn: usize = vcoeffs.len();
        proof {
            assert(window_in_bounds(hg, thg, spec_window(hg, thg, fsg, tyg)));
            assert(vw.spec_coeffs(tyg) == vcoeffs@);
            assert(1 <= spec_win_count(hg, thg, fsg, tyg) <= hg);
            assert(vcoeffs@.len() == spec_win_count(hg, thg, fsg, tyg));
            assert(vw.spec_start(tyg) == vline.start as int);
            assert(vline.start == spec_window(hg, thg, fsg, tyg).src_start);
            assert(vline.start + vn <= hg);
        }
        let mut tx: u32 = 0;
        while tx < target_width
            invariant
                src.wf(),
                downsample_dims_valid(wg, hg, twg, thg, fsg),
                pix == src.pixels@ && wg == src.width as int && hg == src.height as int,
                strideg == src.pixel_stride_in_bytes as int && fsg == filter_scale as int,
                twg == target_width as int && thg == target_height as int,
                w == src.width && h == src.height && stride == src.pixel_stride_in_bytes,
                cg == c as int && cg == src.format.spec_num_channels(),
                1 <= cg <= 4 && cg <= strideg,
                collection_matches(*vw, hg, thg, fsg),
                scratch@ == scratchv,
                scratchv.len() == hg * (twg * cg),
                hg * (twg * cg) <= wg * hg * strideg <= pix.len() <= usize::MAX,
                thg * (twg * strideg) <= wg * hg * strideg,
                forall|idx: int|
                    0 <= idx < scratchv.len() ==> scratchv[idx] == spec_scratch_byte(
                        pix,
                        wg,
                        strideg,
                        cg,
                        fsg,
                        twg,
                        idx,
                    ),
                0 <= tyg < thg && tyg == ty as int,
                vcoeffs@ == vw.spec_coeffs(tyg),
                vn == vcoeffs@.len(),
                vn == spec_win_count(hg, thg, fsg, tyg),
                1 <= vn,
                vline.start == spec_window(hg, thg, fsg, tyg).src_start,
                vline.start + vn <= hg,
                0 <= tx <= target_width,
                out@.len() == tyg * (twg * strideg) + tx * strideg,
                forall|idx: int|
                    0 <= idx < out@.len() ==> out@[idx] == spec_output_byte(
                        pix,
                        wg,
                        hg,
                        strideg,
                        cg,
                        fsg,
                        twg,
                        thg,
                        idx,
                    ),
            decreases target_width - tx,
        {
            let ghost txg = tx as int;
            let mut k: usize = 0;
            while k < stride
                invariant
                    src.wf(),
                    pix == src.pixels@ && wg == src.width as int && hg == src.height as int,
                    strideg == src.pixel_stride_in_bytes as int && fsg == filter_scale as int,
                    twg == target_width as int && thg == target_height as int,
                    w == src.width && h == src.height && stride == src.pixel_stride_in_bytes,
                    cg == c as int && cg == src.format.spec_num_channels(),
                    1 <= cg <= 4 && cg <= strideg,
                    collection_matches(*vw, hg, thg, fsg),
                    scratch@ == scratchv,
                    scratchv.len() == hg * (twg * cg),
                    hg * (twg * cg) <= wg * hg * strideg <= pix.len() <= usize::MAX,
                    thg * (twg * strideg) <= wg * hg * strideg,
                    forall|idx: int|
                        0 <= idx < scratchv.len() ==> scratchv[idx] == spec_scratch_byte(
                            pix,
                            wg,
                            strideg,
                            cg,
                            fsg,
                            twg,
                            idx,
                        ),
                    0 <= tyg < thg && tyg == ty as int,
                    0 <= txg < twg && txg == tx as int,
                    1 <= twg <= wg && 1 <= thg <= hg,
                    vcoeffs@ == vw.spec_coeffs(tyg),
                    vn == vcoeffs@.len(),
                    vn == spec_win_count(hg, thg, fsg, tyg),
                    vline.start == spec_window(hg, thg, fsg, tyg).src_start,
                    vline.start + vn <= hg,
                    0 <= k <= stride,
                    out@.len() == tyg * (twg * strideg) + txg * strideg + k,
                    forall|idx: int|
                        0 <= idx < out@.len() ==> out@[idx] == spec_output_byte(
                            pix,
                            wg,
                            hg,
                            strideg,
                            cg,
                            fsg,
                            twg,
                            thg,
                            idx,
                        ),
                decreases stride - k,
            {
                let v: u8 = if k < c {
                    let mut acc: i128 = 0;
                    let mut j: usize = 0;
                    while j < vn
                        invariant
                            pix == src.pixels@ && wg == src.width as int && hg == src.height as int,
                            strideg == src.pixel_stride_in_bytes as int && fsg
                                == filter_scale as int,
                            twg == target_width as int && thg == target_height as int,
                            w == src.width && stride == src.pixel_stride_in_bytes,
                            cg == c as int && 1 <= cg <= 4 && cg <= strideg,
                            scratch@ == scratchv,
                            scratchv.len() == hg * (twg * cg),
                            hg * (twg * cg) <= wg * hg * strideg <= pix.len() <= usize::MAX,
                            forall|idx: int|
                                0 <= idx < scratchv.len() ==> scratchv[idx] == spec_scratch_byte(
                                    pix,
                                    wg,
                                    strideg,
                                    cg,
                                    fsg,
                                    twg,
                                    idx,
                                ),
                            0 <= tyg < thg && 0 <= txg < twg,
                            txg == tx as int,
                            1 <= twg && 1 <= thg <= hg,
                            vcoeffs@ == vw.spec_coeffs(tyg),
                            collection_matches(*vw, hg, thg, fsg),
                            vn == vcoeffs@.len(),
                            vn == spec_win_count(hg, thg, fsg, tyg),
                            vline.start == spec_window(hg, thg, fsg, tyg).src_start,
                            vline.start + vn <= hg,
                            0 <= k < cg,
                            0 <= j <= vn,
                            acc == spec_vsum(
                                pix,
                                wg,
                                hg,
                                strideg,
                                fsg,
                                twg,
                                thg,
                                txg,
                                tyg,
                                k as int,
                                j as int,
                            ),
                            -0x1FE_0000_0000_0000i128 * (j as i128) <= acc
                                <= 0x1FE_0000_0000_0000i128 * (j as i128),
                        decreases vn - j,
                    {
                        let coef: i64 = vcoeffs[j];
                        let sy: usize = vline.start as usize + j;
                        proof {
                            assert(-0x2_0000_0000_0000i64 <= coef <= 0x2_0000_0000_0000i64);
                            crate::lanczos::lemma_coeff_bound(
                                hg,
                                thg,
                                fsg,
                                vn as int,
                                spec_win_delta(hg, thg, fsg, tyg),
                                j as int,
                            );
                            assert(coef == spec_axis_coeff(hg, thg, fsg, tyg, j as int));
                            assert((sy * twg + txg) * cg + k < hg * (twg * cg) && 0 <= (sy * twg
                                + txg) * cg + k && sy * twg + txg < hg * twg && hg * twg <= hg * (twg
                                * cg)) by (nonlinear_arith)
                                requires
                                    0 <= sy < hg,
                                    0 <= txg < twg,
                                    0 <= k < cg,
                                    1 <= cg,
                                    1 <= twg,
                            ;
                        }
                        let sidx: usize = (sy * (target_width as usize) + (tx as usize)) * c + k;
                        let sb: u8 = scratch[sidx];
                        proof {
                            lemma_flat_index(sy as int, txg, k as int, twg, cg);
                            assert(sb == spec_hpix(
                                pix,
                                wg,
                                strideg,
                                fsg,
                                twg,
                                txg,
                                sy as int,
                                k as int,
                            ));
                            assert(-0x1FE_0000_0000_0000i128 <= (coef as int) * (sb as int)
                                <= 0x1FE_0000_0000_0000i128) by (nonlinear_arith)
                                requires
                                    -0x2_0000_0000_0000i64 <= coef <= 0x2_0000_0000_0000i64,
                                    0 <= sb <= 255,
                            ;
                        }
                        acc = acc + (coef as i128) * (sb as i128);
                        j += 1;
                    }
                    round_clamp(acc)
                } else {
                    0
                };
                proof {
                    let idxg = out@.len() as int;
                    assert(idxg == (tyg * twg + txg) * strideg + k) by (nonlinear_arith)
                        requires
                            idxg == tyg * (twg * strideg) + txg * strideg + k,
                    ;
                    lemma_flat_index(tyg, txg, k as int, twg, strideg);
                    assert(v == spec_output_byte(pix, wg, hg, strideg, cg, fsg, twg, thg, idxg));
                }
                out.push(v);
                k += 1;
            }
            proof {
                assert(tyg * (twg * strideg) + txg * strideg + strideg == tyg * (twg * strideg) + (
                txg + 1) * strideg) by (nonlinear_arith);
            }
            tx += 1;
        }
        proof {
            assert(tyg * (twg * strideg) + twg * strideg == (tyg + 1) * (twg * strideg))
                by (nonlinear_arith);
        }
        ty += 1;
    }
    proof {
        assert(thg * (twg * strideg) == twg * thg * strideg) by (nonlinear_arith);
    }
    out
}

/// Samples the provided image down to the specified width and height with
/// the default filter scale.
pub fn downsample(src: &Image<'_, AlbedoFormat>, target_width: u32, target_height: u32) -> (r: Vec<
    u8,
>)
    requires
        src.wf(),
        downsample_dims_valid(
            src.width as int,
            src.height as int,
            target_width as int,
            target_height as int,
            DEFAULT_FILTER_SCALE as int,
        ),
    ensures
        r@.len() == target_width * target_height * src.pixel_stride_in_bytes,
        forall|idx: int|
            0 <= idx < r@.len() ==> r@[idx] == spec_output_byte(
                src.pixels@,
                src.width as int,
                src.height as int,
                src.pixel_stride_in_bytes as int,
                src.format.spec_num_channels() as int,
                DEFAULT_FILTER_SCALE as int,
                target_width as int,
                target_height as int,
                idx,
            ),
{
    downsample_with_custom_scale(src, target_width, target_height, DEFAULT_FILTER_SCALE)
}

/// Checked entry point: validates the dimensions and the filter scale and
/// returns `None` instead of requiring them, so that a caller who has not
/// established the preconditions gets a clean failure and no output.
pub fn downsample_checked(
    src: &Image<'_, AlbedoFormat>,
    target_width: u32,
    target_height: u32,
) -> (r: Option<Vec<u8>>)
    requires
        src.wf(),
    ensures
        match r {
            Some(v) => {
                &&& downsample_dims_valid(
                    src.width as int,
                    src.height as int,
                    target_width as int,
                    target_height as int,
                    DEFAULT_FILTER_SCALE as int,
                )
                &&& v@.len() == target_width * target_height * src.pixel_stride_in_bytes
                &&& forall|idx: int|
                    0 <= idx < v@.len() ==> v@[idx] == spec_output_byte(
                        src.pixels@,
                        src.width as int,
                        src.height as int,
                        src.pixel_stride_in_bytes as int,
                        src.format.spec_num_channels() as int,
                        DEFAULT_FILTER_SCALE as int,
                        target_width as int,
                        target_height as int,
                        idx,
                    )
            },
            None => !downsample_dims_valid(
                src.width as int,
                src.height as int,
                target_width as int,
                target_height as int,
                DEFAULT_FILTER_SCALE as int,
            ),
        },
{
    if target_width == 0 || target_height == 0 {
        return None;
    }
    if target_width > src.width || target_height > src.height {
        return None;
    }
    if target_width == src.width && target_height == src.height {
        return None;
    }
    Some(downsample(src, target_width, target_height))
}

} // verus!
