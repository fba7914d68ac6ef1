//! Weight-window derivation: for every target pixel along one axis, the
//! contiguous run of source pixels that contributes to it, and the position
//! of the filter's peak.
//!
//! All positions are exact rationals. A window's center along an axis with
//! source extent `S` and target extent `T` is `((2 i + 1) S - T) / (2 T)`
//! for target index `i`; the window reaches `filter_scale * S / T` source
//! pixels to each side of the center, clipped to the source. Centers are
//! carried as numerators over the fixed denominator `2 T`.

use vstd::prelude::*;

use crate::fixed::FX_ONE;
use crate::image::MAX_EXTENT;

verus! {

/// Largest supported filter scale, `65536.0` in Q16.16; far beyond any useful
/// filter width, but small enough for the window arithmetic to stay exact.
pub const MAX_FILTER_SCALE: i64 = 0x1_0000_0000;

/// The support window of one target pixel along one axis: the source pixels
/// `src_start ..= src_end` contribute, and the filter peaks at
/// `center_num / (2 * target_extent)` in source-pixel coordinates.
#[derive(Clone, Copy, PartialEq, Eq, Structural, Debug)]
pub struct WeightWindow {
    pub src_start: u32,
    pub src_end: u32,
    pub center_num: u64,
}

/// Extents and filter scale an axis derivation accepts: downsampling only
/// (`target <= src`), positive extents within range, positive filter scale.
pub open spec fn axis_valid(src: int, target: int, fs: int) -> bool {
    &&& 1 <= target <= src <= MAX_EXTENT
    &&& 0 < fs <= MAX_FILTER_SCALE
}

/// Numerator of the window center for target index `i`, over denominator
/// `2 * target`.
pub open spec fn spec_center_num(src: int, target: int, i: int) -> int {
    (2 * i + 1) * src - target
}

/// First source pixel of the window: the center minus the filter reach,
/// rounded down and clamped to the source.
pub open spec fn spec_window_start(src: int, target: int, fs: int, i: int) -> int {
    let c_sc = (FX_ONE as int) * spec_center_num(src, target, i);
    let reach = 2 * fs * src;
    if c_sc <= reach {
        0int
    } else {
        (c_sc - reach) / ((FX_ONE as int) * 2 * target)
    }
}

/// Last source pixel of the window: the center plus the filter reach, rounded
/// up and clamped to the source.
pub open spec fn spec_window_end(src: int, target: int, fs: int, i: int) -> int {
    let c_sc = (FX_ONE as int) * spec_center_num(src, target, i);
    let reach = 2 * fs * src;
    let den = (FX_ONE as int) * 2 * target;
    let raw = (c_sc + reach + den - 1) / den;
    if raw <= src - 1 {
        raw
    } else {
        src - 1
    }
}

/// The window for target index `i`.
pub open spec fn spec_window(src: int, target: int, fs: int, i: int) -> WeightWindow {
    WeightWindow {
        src_start: spec_window_start(src, target, fs, i) as u32,
        src_end: spec_window_end(src, target, fs, i) as u32,
        center_num: spec_center_num(src, target, i) as u64,
    }
}

/// The window lies inside the source and brackets its own center:
/// `0 <= src_start <= center <= src_end < src`, with the center compared as
/// the rational `center_num / (2 * target)`.
pub open spec fn window_in_bounds(src: int, target: int, w: WeightWindow) -> bool {
    &&& w.src_start <= w.src_end < src
    &&& w.src_start * 2 * target <= w.center_num
    &&& w.center_num <= w.src_end * 2 * target
}

/// The center numerator of every in-range target index is nonnegative and at
/// most `2 * target * (src - 1)`.
proof fn lemma_center_num_range(src: int, target: int, i: int)
    requires
        1 <= target <= src,
        0 <= i < target,
    ensures
        0 <= spec_center_num(src, target, i),
        spec_center_num(src, target, i) <= 2 * target * (src - 1),
{
    assert((2 * i + 1) * src >= target) by (nonlinear_arith)
        requires
            1 <= target <= src,
            0 <= i,
    ;
    assert((2 * i + 1) * src - target <= 2 * target * (src - 1)) by (nonlinear_arith)
        requires
            1 <= target <= src,
            i < target,
    ;
}

/// Derives the `target` support windows of one axis (P-style window validity:
/// exactly `target` windows, each inside the source and bracketing its
/// center).
pub fn derive_weight_windows(src: u32, target: u32, filter_scale: i64) -> (r: Vec<WeightWindow>)
    requires
        axis_valid(src as int, target as int, filter_scale as int),
    ensures
        r@.len() == target,
        forall|i: int|
            0 <= i < target ==> (#[trigger] r@[i]) == spec_window(
                src as int,
                target as int,
                filter_scale as int,
                i,
            ),
        forall|i: int|
            0 <= i < target ==> window_in_bounds(src as int, target as int, #[trigger] r@[i]),
{
    let ghost s = src as int;
    let ghost t = target as int;
    let ghost fsg = filter_scale as int;
    proof {
        assert(2 * fsg * s <= 0x8000_0000_0000_0000int) by (nonlinear_arith)
            requires
                0 < fsg <= MAX_FILTER_SCALE as int,
                0 < s <= MAX_EXTENT as int,
        ;
    }
    let den: u128 = (FX_ONE as u128) * 2 * (target as u128);
    let reach: u128 = 2 * (filter_scale as u128) * (src as u128);
    proof {
        assert(den >= 1 && den <= 0x1_0000_0000_0000int) by (nonlinear_arith)
            requires
                den == (FX_ONE as int) * 2 * t,
                1 <= t <= MAX_EXTENT as int,
        ;
    }
    let mut res: Vec<WeightWindow> = Vec::new();
    let mut i: u32 = 0;
    while i < target
        invariant
            axis_valid(s, t, fsg),
            s == src as int && t == target as int && fsg == filter_scale as int,
            den == (FX_ONE as int) * 2 * t,
            1 <= den <= 0x1_0000_0000_0000,
            reach == 2 * fsg * s,
            reach <= 0x8000_0000_0000_0000,
            0 <= i <= target,
            res@.len() == i,
            forall|j: int| 0 <= j < i ==> (#[trigger] res@[j]) == spec_window(s, t, fsg, j),
            forall|j: int| 0 <= j < i ==> window_in_bounds(s, t, #[trigger] res@[j]),
        decreases target - i,
    {
        proof {
            lemma_center_num_range(s, t, i as int);
            assert((2 * (i as int) + 1) * s <= 0x4000_0000_0000_0000int) by (nonlinear_arith)
                requires
                    0 <= i < t <= s <= MAX_EXTENT as int,
            ;
            assert(2 * t * (s - 1) <= 0x2000_0000_0000_0000int) by (nonlinear_arith)
                requires
                    1 <= t <= s <= MAX_EXTENT as int,
            ;
        }
        let c_num: u128 = (2 * (i as u128) + 1) * (src as u128) - (target as u128);
        let ghost cn = spec_center_num(s, t, i as int);
        assert(c_num == cn);
        let c_sc: u128 = (FX_ONE as u128) * c_num;
        // The clamped floor of (center - reach).
        let start32: u32 = if c_sc <= reach {
            0
        } else {
            let q: u128 = (c_sc - reach) / den;
            proof {
                let d = den as int;
                let x = c_sc - reach;
                assert((s - 1) * d == (FX_ONE as int) * (2 * t * (s - 1))) by (nonlinear_arith)
                    requires
                        d == (FX_ONE as int) * 2 * t,
                ;
                assert((FX_ONE as int) * cn <= (FX_ONE as int) * (2 * t * (s - 1)))
                    by (nonlinear_arith)
                    requires
                        cn <= 2 * t * (s - 1),
                ;
                assert(x <= (s - 1) * d);
                vstd::arithmetic::div_mod::lemma_div_is_ordered(x, (s - 1) * d, d);
                vstd::arithmetic::div_mod::lemma_div_by_multiple(s - 1, d);
                assert(x / d <= s - 1);
            }
            assert(q <= s - 1);
            q as u32
        };
        // The clamped ceiling of (center + reach).
        let raw_num: u128 = c_sc + reach + den - 1;
        let raw: u128 = raw_num / den;
        let last: u128 = (src as u128) - 1;
        let end32: u32 = if raw <= last {
            raw as u32
        } else {
            last as u32
        };
        proof {
            let ghost st = start32 as int;
            let ghost en = end32 as int;
            // start * 2t <= cn
            if st > 0 {
                vstd::arithmetic::div_mod::lemma_fundamental_div_mod(
                    c_sc as int - reach,
                    den as int,
                );
                assert(st * (den as int) <= c_sc - reach);
                assert(st * ((FX_ONE as int) * 2 * t) == (FX_ONE as int) * (st * 2 * t))
                    by (nonlinear_arith);
                assert(st * 2 * t <= cn) by (nonlinear_arith)
                    requires
                        (FX_ONE as int) * (st * 2 * t) <= (FX_ONE as int) * cn,
                ;
            } else {
                assert(st * 2 * t == 0) by (nonlinear_arith)
                    requires
                        st == 0,
                ;
            }
            // cn <= end * 2t
            if raw <= last {
                let d = den as int;
                vstd::arithmetic::div_mod::lemma_fundamental_div_mod(raw_num as int, d);
                assert(raw_num == d * (raw_num as int / d) + (raw_num as int % d));
                assert(0 <= (raw_num as int % d) < d);
                assert(en == raw_num as int / d);
                assert(d * en >= raw_num - (d - 1));
                assert(d * en >= c_sc + reach);
                assert(en * ((FX_ONE as int) * 2 * t) == (FX_ONE as int) * (en * 2 * t))
                    by (nonlinear_arith);
                assert(d * en == en * d) by (nonlinear_arith);
                assert(cn <= en * 2 * t) by (nonlinear_arith)
                    requires
                        (FX_ONE as int) * cn <= (FX_ONE as int) * (en * 2 * t),
                ;
            } else {
                assert(cn <= en * 2 * t) by (nonlinear_arith)
                    requires
                        cn <= 2 * t * (s - 1),
                        en == s - 1,
                ;
            }
            // start <= end follows by cancelling the positive factor 2t.
            assert(st <= en) by (nonlinear_arith)
                requires
                    st * 2 * t <= cn,
                    cn <= en * 2 * t,
                    t >= 1,
                    st >= 0,
            ;
        }
        let w = WeightWindow { src_start: start32, src_end: end32, center_num: c_num as u64 };
        assert(w == spec_window(s, t, fsg, i as int));
        assert(window_in_bounds(s, t, w));
        res.push(w);
        i += 1;
    }
    res
}

} // verus!
