//! Fixed-point evaluation of the Lanczos reconstruction filter and the
//! normalized coefficient line of one support window.
//!
//! `lanczos(x) = a * sin(pi x) * sin(pi x / a) / (pi^2 x^2)` for `0 < x < a`,
//! `1` at the peak and `0` outside the support, where `a` is the filter
//! scale. The sine is evaluated with the classical rational approximation
//! `sin(pi t) ~ 16 t (1 - t) / (5 - 4 t (1 - t))` on `[0, 1]`, which is exact
//! at `0`, `1/2` and `1` and stays within two thousandths everywhere else.
//! Every coefficient line is normalized so that its taps sum exactly to
//! `FX_ONE`, by making the first tap absorb the rounding remainder.

use vstd::prelude::*;

use crate::fixed::FX_HALF;
use crate::fixed::FX_ONE;
use crate::fixed::spec_div_round;
use crate::window::MAX_FILTER_SCALE;

verus! {

/// `pi^2` in Q16.16, rounded to nearest.
pub const PI_SQUARED_FX: i64 = 646879;

/// Division truncating toward zero (what the normalization uses for
/// possibly-negative weights).
pub open spec fn spec_div_trunc(a: int, b: int) -> int
    recommends
        b >= 1,
{
    if a >= 0 {
        a / b
    } else {
        -((-a) / b)
    }
}

/// Absolute value of an integer.
pub open spec fn spec_abs(a: int) -> int {
    if a >= 0 {
        a
    } else {
        -a
    }
}

/// The sine approximation on one half-period: `sin(pi * t / FX_ONE)` in
/// Q16.16 for `t` in `[0, FX_ONE]`.
pub open spec fn spec_sin_pi_frac(t: int) -> int {
    let u = t * (FX_ONE - t) / (FX_ONE as int);
    let den = 5 * (FX_ONE as int) - 4 * u;
    (16 * u * (FX_ONE as int) + den / 2) / den
}

/// The Lanczos kernel in Q16.16 at distance `x >= 0` from the center, with
/// filter scale (lobe count) `a`: zero outside the support, one at the peak,
/// and the windowed sinc elsewhere, clamped to `[-2, 2]` so that every
/// evaluation carries an a-priori bound.
pub open spec fn spec_lanczos_term(x: int, a: int) -> int {
    if x >= a {
        0int
    } else if x <= 256 {
        FX_ONE as int
    } else {
        let k = x / (FX_ONE as int);
        let s1 = spec_sin_pi_frac(x % (FX_ONE as int));
        let s2 = spec_sin_pi_frac(x * (FX_ONE as int) / a);
        let x2 = x * x / (FX_ONE as int);
        let pp = (PI_SQUARED_FX as int) * x2 / (FX_ONE as int);
        let mag = a * s1 * s2 / (pp * (FX_ONE as int));
        let v = if k % 2 == 1 {
            -mag
        } else {
            mag
        };
        if v > 2 * (FX_ONE as int) {
            2 * (FX_ONE as int)
        } else if v < -2 * (FX_ONE as int) {
            -2 * (FX_ONE as int)
        } else {
            v
        }
    }
}

/// The kernel value is bounded by two, whatever its arguments.
pub proof fn lemma_lanczos_term_bounds(x: int, a: int)
    ensures
        -2 * (FX_ONE as int) <= spec_lanczos_term(x, a) <= 2 * (FX_ONE as int),
{
}

/// The sine approximation stays within `[0, FX_ONE]`.
pub proof fn lemma_sin_pi_frac_bounds(t: int)
    requires
        0 <= t <= FX_ONE as int,
    ensures
        0 <= spec_sin_pi_frac(t) <= FX_ONE as int,
{
    let q = FX_ONE as int;
    let p = t * (q - t);
    assert(0 <= p && 4 * p <= q * q) by (nonlinear_arith)
        requires
            0 <= t <= q,
            p == t * (q - t),
    ;
    assert(p <= q * q / 4) by {
        vstd::arithmetic::div_mod::lemma_div_is_ordered(4 * p, q * q, 4);
        vstd::arithmetic::div_mod::lemma_div_by_multiple(p, 4);
        assert(p * 4 == 4 * p);
    }
    let u = p / q;
    vstd::arithmetic::div_mod::lemma_div_pos_is_pos(p, q);
    vstd::arithmetic::div_mod::lemma_div_is_ordered(p, q * q / 4, q);
    assert(q * q / 4 == (q / 4) * q);
    vstd::arithmetic::div_mod::lemma_div_by_multiple(q / 4, q);
    assert(0 <= u <= q / 4);
    let den = 5 * q - 4 * u;
    let num = 16 * u * q + den / 2;
    assert(16 * u * q <= den * q) by (nonlinear_arith)
        requires
            16 * u <= den,
            q > 0,
    ;
    assert(num < den * (q + 1)) by (nonlinear_arith)
        requires
            16 * u * q <= den * q,
            num == 16 * u * q + den / 2,
            den / 2 < den,
            den > 0,
    ;
    vstd::arithmetic::div_mod::lemma_div_pos_is_pos(num, den);
    vstd::arithmetic::div_mod::lemma_multiply_divide_lt(num, den, q + 1);
}

/// Evaluates `spec_sin_pi_frac` exactly.
fn sin_pi_frac(t: u64) -> (r: u64)
    requires
        t <= FX_ONE as u64,
    ensures
        r == spec_sin_pi_frac(t as int),
        r <= FX_ONE as u64,
{
    let q: u64 = FX_ONE as u64;
    proof {
        lemma_sin_pi_frac_bounds(t as int);
        assert((t as int) * (q - t) <= 0x1_0000_0000int) by (nonlinear_arith)
            requires
                0 <= t as int <= q as int,
                q == 0x1_0000,
        ;
    }
    let p: u64 = t * (q - t);
    let u: u64 = p / q;
    proof {
        vstd::arithmetic::div_mod::lemma_div_pos_is_pos(p as int, q as int);
        vstd::arithmetic::div_mod::lemma_div_is_ordered(p as int, 0x1_0000_0000, q as int);
        assert(u <= 0x1_0000);
    }
    let den: u64 = 5 * q - 4 * u;
    let num: u64 = 16 * u * q + den / 2;
    num / den
}

/// Evaluates `spec_lanczos_term` exactly inside the support.
fn lanczos_term(x: i64, a: i64) -> (r: i64)
    requires
        0 <= x < a <= MAX_FILTER_SCALE,
    ensures
        r == spec_lanczos_term(x as int, a as int),
        -2 * (FX_ONE as int) <= r <= 2 * (FX_ONE as int),
{
    proof {
        lemma_lanczos_term_bounds(x as int, a as int);
    }
    if x <= 256 {
        return FX_ONE;
    }
    let q: u64 = FX_ONE as u64;
    let xu: u64 = x as u64;
    let au: u128 = a as u128;
    let k: u64 = xu / q;
    let t: u64 = xu % q;
    let s1: u64 = sin_pi_frac(t);
    proof {
        assert((xu as int) * (q as int) < (au as int) * (q as int)) by (nonlinear_arith)
            requires
                (xu as int) < au as int,
                q >= 1,
        ;
        vstd::arithmetic::div_mod::lemma_multiply_divide_lt(
            (xu as int) * (q as int),
            au as int,
            q as int,
        );
    }
    let xa: u64 = (((xu as u128) * (q as u128)) / au) as u64;
    let s2: u64 = sin_pi_frac(xa);
    proof {
        assert(66049 <= (xu as int) * (xu as int) <= 0x1_0000_0000_0000_0000int)
            by (nonlinear_arith)
            requires
                257 <= xu as int <= 0x1_0000_0000,
        ;
        vstd::arithmetic::div_mod::lemma_div_is_ordered(
            (xu as int) * (xu as int),
            0x1_0000_0000_0000_0000int,
            q as int,
        );
    }
    let x2: u128 = ((xu as u128) * (xu as u128)) / (q as u128);
    let pp: u128 = ((PI_SQUARED_FX as u128) * x2) / (q as u128);
    proof {
        vstd::arithmetic::div_mod::lemma_div_is_ordered(
            66049,
            (xu as int) * (xu as int),
            q as int,
        );
        assert(x2 >= 1);
        vstd::arithmetic::div_mod::lemma_div_is_ordered(
            PI_SQUARED_FX as int,
            (PI_SQUARED_FX as int) * x2,
            q as int,
        );
        assert((PI_SQUARED_FX as int) * 1 <= (PI_SQUARED_FX as int) * x2) by (nonlinear_arith)
            requires
                x2 >= 1,
        ;
        assert(pp >= 9);
    }
    proof {
        assert((au as int) * (s1 as int) <= 0x1_0000_0000_0000int && (au as int) * (s1 as int) * (
        s2 as int) <= 0x1_0000_0000_0000_0000) by (nonlinear_arith)
            requires
                0 <= au as int <= 0x1_0000_0000,
                0 <= s1 as int <= 0x1_0000,
                0 <= s2 as int <= 0x1_0000,
        ;
    }
    let numer: u128 = au * (s1 as u128) * (s2 as u128);
    let denom: u128 = pp * (q as u128);
    let magw: u128 = numer / denom;
    proof {
        vstd::arithmetic::div_mod::lemma_div_is_ordered(
            numer as int,
            0x1_0000_0000_0000_0000,
            denom as int,
        );
        vstd::arithmetic::div_mod::lemma_div_is_ordered_by_denominator(
            0x1_0000_0000_0000_0000,
            9 * (q as int),
            denom as int,
        );
        vstd::arithmetic::div_mod::lemma_div_pos_is_pos(numer as int, denom as int);
        assert(magw <= 0x1_0000_0000_0000_0000int / (9 * (q as int)));
    }
    let mag: i64 = magw as i64;
    let v: i64 = if k % 2 == 1 {
        -mag
    } else {
        mag
    };
    let two: i64 = 2 * FX_ONE;
    if v > two {
        two
    } else if v < -two {
        -two
    } else {
        v
    }
}

/// Fixed-point distance (Q16.16) of tap `j` from the window center, in
/// target-pixel units: `|j - (center - start)| * target / src`, carried as
/// `round(|2 target j - delta| * FX_ONE / (2 src))` where `delta` is the
/// center-minus-start numerator over `2 target`.
pub open spec fn spec_tap_x(src: int, target: int, delta: int, j: int) -> int {
    spec_div_round(spec_abs(2 * target * j - delta) * (FX_ONE as int), 2 * src)
}

/// Unnormalized filter weight of tap `j`.
pub open spec fn spec_raw_weight(src: int, target: int, fs: int, delta: int, j: int) -> int {
    spec_lanczos_term(spec_tap_x(src, target, delta, j), fs)
}

/// Sum of the unnormalized weights of taps `0 ..= j - 1`.
pub open spec fn spec_raw_sum(src: int, target: int, fs: int, delta: int, j: int) -> int
    decreases j,
{
    if j <= 0 {
        0int
    } else {
        spec_raw_sum(src, target, fs, delta, j - 1) + spec_raw_weight(src, target, fs, delta, j - 1)
    }
}

/// Normalized coefficient of a tap other than the first: the raw weight
/// scaled so the line sums to `FX_ONE`, truncated toward zero. When the raw
/// sum is too small for a stable division the line degrades to a box filter.
pub open spec fn spec_tail_coeff(src: int, target: int, fs: int, n: int, delta: int, j: int) -> int {
    let sum = spec_raw_sum(src, target, fs, delta, n);
    if sum >= FX_HALF as int {
        spec_div_trunc(spec_raw_weight(src, target, fs, delta, j) * (FX_ONE as int), sum)
    } else {
        (FX_ONE as int) / n
    }
}

/// Sum of the normalized coefficients of taps `1 ..= j - 1`.
pub open spec fn spec_tail_sum(src: int, target: int, fs: int, n: int, delta: int, j: int) -> int
    decreases j,
{
    if j <= 1 {
        0int
    } else {
        spec_tail_sum(src, target, fs, n, delta, j - 1) + spec_tail_coeff(
            src,
            target,
            fs,
            n,
            delta,
            j - 1,
        )
    }
}

/// Normalized coefficient of tap `j` in a line of `n` taps: the first tap
/// absorbs the rounding remainder so that the whole line sums to `FX_ONE`
/// exactly.
pub open spec fn spec_coeff(src: int, target: int, fs: int, n: int, delta: int, j: int) -> int {
    if j == 0 {
        (FX_ONE as int) - spec_tail_sum(src, target, fs, n, delta, n)
    } else {
        spec_tail_coeff(src, target, fs, n, delta, j)
    }
}

/// Sum of the normalized coefficients of taps `0 ..= j - 1`.
pub open spec fn spec_coeff_sum(src: int, target: int, fs: int, n: int, delta: int, j: int) -> int
    decreases j,
{
    if j <= 0 {
        0int
    } else {
        spec_coeff_sum(src, target, fs, n, delta, j - 1) + spec_coeff(
            src,
            target,
            fs,
            n,
            delta,
            j - 1,
        )
    }
}

/// Every normalized coefficient line sums to exactly `FX_ONE`: the
/// normalization property that keeps constant images constant under
/// resampling.
pub proof fn lemma_coeff_sum_one(src: int, target: int, fs: int, n: int, delta: int)
    requires
        n >= 1,
    ensures
        spec_coeff_sum(src, target, fs, n, delta, n) == FX_ONE as int,
{
    assert forall|j: int| 1 <= j <= n implies spec_coeff_sum(src, target, fs, n, delta, j)
        == spec_coeff(src, target, fs, n, delta, 0) + spec_tail_sum(
        src,
        target,
        fs,
        n,
        delta,
        j,
    ) by {
        lemma_coeff_sum_unrolls(src, target, fs, n, delta, j);
    }
}

/// The coefficient sum over `0 ..= j - 1` is the first coefficient plus the
/// tail sum over `1 ..= j - 1`.
proof fn lemma_coeff_sum_unrolls(src: int, target: int, fs: int, n: int, delta: int, j: int)
    requires
        1 <= j,
    ensures
        spec_coeff_sum(src, target, fs, n, delta, j) == spec_coeff(src, target, fs, n, delta, 0)
            + spec_tail_sum(src, target, fs, n, delta, j),
    decreases j,
{
    if j > 1 {
        lemma_coeff_sum_unrolls(src, target, fs, n, delta, j - 1);
    } else {
        assert(spec_coeff_sum(src, target, fs, n, delta, 0) == 0);
        assert(spec_tail_sum(src, target, fs, n, delta, 1) == 0);
    }
}

/// Bound on every normalized coefficient: `|c| <= 5 * FX_ONE * n`.
pub proof fn lemma_coeff_bound(src: int, target: int, fs: int, n: int, delta: int, j: int)
    requires
        1 <= n,
        0 <= j < n,
    ensures
        spec_abs(spec_coeff(src, target, fs, n, delta, j)) <= 327680 * n,
{
    let q = FX_ONE as int;
    if j == 0 {
        lemma_tail_sum_bound(src, target, fs, n, delta, n);
    } else {
        lemma_tail_coeff_bound(src, target, fs, n, delta, j);
    }
}

/// Bound on a non-first coefficient: `|c| <= 4 * FX_ONE`.
proof fn lemma_tail_coeff_bound(src: int, target: int, fs: int, n: int, delta: int, j: int)
    requires
        1 <= n,
    ensures
        spec_abs(spec_tail_coeff(src, target, fs, n, delta, j)) <= 262144,
{
    let q = FX_ONE as int;
    let sum = spec_raw_sum(src, target, fs, delta, n);
    let w = spec_raw_weight(src, target, fs, delta, j);
    lemma_lanczos_term_bounds(spec_tap_x(src, target, delta, j), fs);
    if sum >= FX_HALF as int {
        assert(spec_abs(w) * q <= sum * (4 * q)) by (nonlinear_arith)
            requires
                spec_abs(w) <= 2 * q,
                sum >= q / 2,
                q == 0x1_0000,
        ;
        if w >= 0 {
            vstd::arithmetic::div_mod::lemma_multiply_divide_le(w * q, sum, 4 * q);
        } else {
            vstd::arithmetic::div_mod::lemma_multiply_divide_le(-(w * q), sum, 4 * q);
            vstd::arithmetic::div_mod::lemma_div_pos_is_pos(-(w * q), sum);
        }
    } else {
        vstd::arithmetic::div_mod::lemma_div_pos_is_pos(q, n);
        vstd::arithmetic::div_mod::lemma_div_is_ordered_by_denominator(q, 1, n);
    }
}

/// Bound on the tail sum: `|sum| <= 4 * FX_ONE * (j - 1)`.
proof fn lemma_tail_sum_bound(src: int, target: int, fs: int, n: int, delta: int, j: int)
    requires
        1 <= n,
        1 <= j,
    ensures
        spec_abs(spec_tail_sum(src, target, fs, n, delta, j)) <= 262144 * (j - 1),
    decreases j,
{
    if j > 1 {
        lemma_tail_sum_bound(src, target, fs, n, delta, j - 1);
        lemma_tail_coeff_bound(src, target, fs, n, delta, j - 1);
    }
}

/// Computes the normalized coefficient line of one window shape: `count`
/// taps whose center sits `delta / (2 target)` source pixels past the first
/// tap. The result depends only on `(count, delta)` and the axis parameters,
/// which is what makes the window cache sound.
pub fn lanczos_line(src: u32, target: u32, filter_scale: i64, count: u32, delta: u64) -> (r: Vec<
    i64,
>)
    requires
        crate::window::axis_valid(src as int, target as int, filter_scale as int),
        1 <= count <= src,
        delta <= 2 * (target as int) * (src as int),
    ensures
        r@.len() == count,
        forall|j: int|
            0 <= j < count ==> r@[j] == spec_coeff(
                src as int,
                target as int,
                filter_scale as int,
                count as int,
                delta as int,
                j,
            ),
{
    let ghost s = src as int;
    let ghost t = target as int;
    let ghost fsg = filter_scale as int;
    let ghost n = count as int;
    let ghost d = delta as int;
    let q: i64 = FX_ONE;
    // First pass: raw filter weights and their sum.
    let mut raws: Vec<i64> = Vec::new();
    let mut rsum: i64 = 0;
    let mut j: u32 = 0;
    while j < count
        invariant
            crate::window::axis_valid(s, t, fsg),
            s == src as int && t == target as int && fsg == filter_scale as int,
            n == count as int && d == delta as int,
            1 <= n <= s,
            d <= 2 * t * s,
            0 <= j <= count,
            raws@.len() == j,
            forall|k: int| 0 <= k < j ==> raws@[k] == spec_raw_weight(s, t, fsg, d, k),
            forall|k: int| 0 <= k < j ==> -131072 <= #[trigger] raws@[k] <= 131072,
            rsum == spec_raw_sum(s, t, fsg, d, j as int),
            -131072 * (j as int) <= rsum <= 131072 * (j as int),
        decreases count - j,
    {
        proof {
            assert(2 * t * (j as int) <= 2 * t * s && 2 * t * (j as int) >= 0 && 2 * t * s
                <= 0x2000_0000_0000_0000int) by (nonlinear_arith)
                requires
                    0 <= j as int <= s,
                    1 <= t <= 0x4000_0000,
                    t <= s <= 0x4000_0000,
            ;
        }
        let tj: u64 = 2 * (target as u64) * (j as u64);
        let dist: u64 = if tj >= delta {
            tj - delta
        } else {
            delta - tj
        };
        proof {
            assert(tj <= 0x2000_0000_0000_0000u64);
            assert(dist <= 0x2000_0000_0000_0000u64);
            assert((dist as int) * (FX_ONE as int) <= 0x2000_0000_0000_0000_0000_0000int)
                by (nonlinear_arith)
                requires
                    dist <= 0x2000_0000_0000_0000u64,
            ;
        }
        let ax: u128 = ((dist as u128) * (FX_ONE as u128) + (src as u128)) / (2 * (src as u128));
        assert(ax == spec_tap_x(s, t, d, j as int));
        let w: i64 = if ax >= filter_scale as u128 {
            proof {
                lemma_lanczos_term_bounds(ax as int, fsg);
            }
            0
        } else {
            lanczos_term(ax as i64, filter_scale)
        };
        assert(w == spec_raw_weight(s, t, fsg, d, j as int));
        raws.push(w);
        rsum = rsum + w;
        j += 1;
    }
    let sum: i64 = rsum;
    // Second pass: normalized coefficients of taps 1 .. count.
    let box_coeff: i64 = ((FX_ONE as u64) / (count as u64)) as i64;
    proof {
        vstd::arithmetic::div_mod::lemma_div_pos_is_pos(FX_ONE as int, n);
        vstd::arithmetic::div_mod::lemma_div_is_ordered_by_denominator(FX_ONE as int, 1, n);
    }
    let mut tail: Vec<i64> = Vec::new();
    let mut tsum: i64 = 0;
    let mut m: u32 = 1;
    while m < count
        invariant
            crate::window::axis_valid(s, t, fsg),
            s == src as int && t == target as int && fsg == filter_scale as int,
            n == count as int && d == delta as int,
            1 <= n <= s,
            1 <= m <= count,
            sum == spec_raw_sum(s, t, fsg, d, n),
            -0x8000_0000_0000_0000i64 < sum,
            box_coeff == (FX_ONE as int) / n,
            raws@.len() == n,
            forall|k: int| 0 <= k < n ==> raws@[k] == spec_raw_weight(s, t, fsg, d, k),
            forall|k: int| 0 <= k < n ==> -131072 <= #[trigger] raws@[k] <= 131072,
            tail@.len() == m - 1,
            forall|k: int| 0 <= k < m - 1 ==> tail@[k] == spec_tail_coeff(s, t, fsg, n, d, k + 1),
            tsum == spec_tail_sum(s, t, fsg, n, d, m as int),
            -262144 * (m as int - 1) <= tsum <= 262144 * (m as int - 1),
        decreases count - m,
    {
        proof {
            lemma_tail_coeff_bound(s, t, fsg, n, d, m as int);
        }
        let c: i64 = if sum >= FX_HALF {
            let w: i64 = raws[m as usize];
            if w >= 0 {
                (((w as u128) * (FX_ONE as u128)) / (sum as u128)) as i64
            } else {
                let pos: u128 = (((-w) as u128) * (FX_ONE as u128)) / (sum as u128);
                -(pos as i64)
            }
        } else {
            box_coeff
        };
        assert(c == spec_tail_coeff(s, t, fsg, n, d, m as int));
        tail.push(c);
        tsum = tsum + c;
        m += 1;
    }
    proof {
        lemma_tail_sum_bound(s, t, fsg, n, d, n);
    }
    let first: i64 = q - tsum;
    let mut res: Vec<i64> = Vec::new();
    res.push(first);
    let mut k: usize = 0;
    while k < tail.len()
        invariant
            1 <= n,
            tail@.len() == n - 1,
            forall|i3: int| 0 <= i3 < n - 1 ==> tail@[i3] == spec_tail_coeff(s, t, fsg, n, d, i3 + 1),
            first == (FX_ONE as int) - spec_tail_sum(s, t, fsg, n, d, n),
            0 <= k <= tail@.len(),
            res@.len() == k + 1,
            res@[0] == first,
            forall|i2: int| 0 <= i2 < k ==> res@[i2 + 1] == tail@[i2],
        decreases tail@.len() - k,
    {
        let c: i64 = tail[k];
        res.push(c);
        k += 1;
    }
    proof {
        assert forall|j2: int| 0 <= j2 < n implies res@[j2] == spec_coeff(s, t, fsg, n, d, j2) by {
            if j2 > 0 {
                let i2 = j2 - 1;
                assert(res@[i2 + 1] == tail@[i2]);
                assert(tail@[i2] == spec_tail_coeff(s, t, fsg, n, d, i2 + 1));
            }
        }
    }
    res
}

} // verus!
