//! The weight cache and the per-call weight collections.
//!
//! Windows whose shape is structurally identical — same tap count and same
//! center-minus-start offset — get bit-identical coefficient lines, because
//! the filter value at each tap depends only on the tap's distance from the
//! window center. The cache therefore computes one line per distinct
//! structural key and lets every line of the collection point into a shared
//! pool, so the generator runs at most once per key.

use vstd::prelude::*;

use crate::lanczos::lanczos_line;
use crate::lanczos::spec_coeff;
use crate::window::WeightWindow;
use crate::window::axis_valid;
use crate::window::derive_weight_windows;
use crate::window::spec_window;
use crate::window::window_in_bounds;

verus! {

/// One target pixel's weight line: the first contributing source pixel and
/// the index of its coefficient array in the collection's pool.
#[derive(Clone, Copy, PartialEq, Eq, Structural, Debug)]
pub struct CachedWeight {
    pub start: u32,
    pub line: usize,
}

/// A structural window key as stored by the cache.
#[derive(Clone, Copy, PartialEq, Eq, Structural, Debug)]
struct ShapeKey {
    count: u32,
    delta: u64,
}

/// The weight lines of one axis: one `CachedWeight` per target pixel, and a
/// pool holding one coefficient array per distinct window shape.
pub struct WeightCollection {
    pub lines: Vec<CachedWeight>,
    pub pool: Vec<Vec<i64>>,
}

/// Tap count of the window of target index `i`.
pub open spec fn spec_win_count(src: int, target: int, fs: int, i: int) -> int {
    let w = spec_window(src, target, fs, i);
    w.src_end - w.src_start + 1
}

/// Center-minus-start numerator (over `2 * target`) of the window of target
/// index `i`: together with the tap count, the structural key of the window.
pub open spec fn spec_win_delta(src: int, target: int, fs: int, i: int) -> int {
    let w = spec_window(src, target, fs, i);
    w.center_num - w.src_start * 2 * target
}

/// The coefficient line of a window shape, as a sequence.
pub open spec fn spec_line_seq(src: int, target: int, fs: int, n: int, delta: int) -> Seq<i64> {
    Seq::new(n as nat, |j: int| spec_coeff(src, target, fs, n, delta, j) as i64)
}

impl WeightCollection {
    /// Number of weight lines (one per target pixel).
    pub open spec fn line_count(self) -> nat {
        self.lines@.len()
    }

    /// First contributing source pixel of line `i`.
    pub open spec fn spec_start(self, i: int) -> int {
        self.lines@[i].start as int
    }

    /// Coefficients of line `i`.
    pub open spec fn spec_coeffs(self, i: int) -> Seq<i64> {
        self.pool@[self.lines@[i].line as int]@
    }

    /// Every line points into the pool and stays inside a source axis of
    /// extent `src`, with bounded coefficients.
    pub open spec fn wf(self, src: int) -> bool {
        &&& forall|i: int|
            0 <= i < self.lines@.len() ==> (#[trigger] self.lines@[i]).line < self.pool@.len()
        &&& forall|i: int|
            0 <= i < self.lines@.len() ==> 1 <= #[trigger] self.spec_coeffs(i).len()
        &&& forall|i: int|
            0 <= i < self.lines@.len() ==> #[trigger] self.spec_start(i) + self.spec_coeffs(
                i,
            ).len() <= src
        &&& forall|i: int, j: int|
            0 <= i < self.lines@.len() && 0 <= j < self.spec_coeffs(i).len()
                ==> -0x2_0000_0000_0000i64 <= #[trigger] self.spec_coeffs(i)[j]
                <= 0x2_0000_0000_0000i64
    }

    /// Number of weight lines.
    pub fn line_count_exec(&self) -> (r: usize)
        ensures
            r == self.line_count(),
    {
        self.lines.len()
    }
}

/// Some line of the collection references pool entry `p`.
pub open spec fn pool_entry_used(r: WeightCollection, target: int, p: int) -> bool {
    exists|i: int| 0 <= i < target && (#[trigger] r.lines@[i]).line == p
}

/// The collection is exactly what `calculate_weights` promises for the axis
/// `(src, target, filter_scale)`: one line per target pixel, each line the
/// Lanczos coefficients of its own window shape, lines with equal structural
/// keys sharing one pool entry, lines with different keys pointing at
/// different entries, and no pool entry unused — so the coefficient
/// generator ran at most once per distinct key.
pub open spec fn collection_matches(r: WeightCollection, src: int, target: int, fs: int) -> bool {
    &&& r.wf(src)
    &&& r.line_count() == target
    &&& forall|i: int|
        0 <= i < target ==> #[trigger] window_in_bounds(src, target, spec_window(src, target, fs, i))
    &&& forall|i: int|
        0 <= i < target ==> #[trigger] r.spec_start(i) == spec_window(src, target, fs, i).src_start
    &&& forall|i: int|
        0 <= i < target ==> #[trigger] r.spec_coeffs(i) =~= spec_line_seq(
            src,
            target,
            fs,
            spec_win_count(src, target, fs, i),
            spec_win_delta(src, target, fs, i),
        )
    &&& forall|i: int, j: int|
        0 <= i < target && 0 <= j < target && spec_win_count(src, target, fs, i) == spec_win_count(
            src,
            target,
            fs,
            j,
        ) && spec_win_delta(src, target, fs, i) == spec_win_delta(src, target, fs, j)
            ==> #[trigger] r.lines@[i].line == #[trigger] r.lines@[j].line
    &&& forall|i: int, j: int|
        0 <= i < target && 0 <= j < target && !(spec_win_count(src, target, fs, i)
            == spec_win_count(src, target, fs, j) && spec_win_delta(src, target, fs, i)
            == spec_win_delta(src, target, fs, j)) ==> #[trigger] r.lines@[i].line
            != #[trigger] r.lines@[j].line
    &&& forall|p: int| 0 <= p < r.pool@.len() ==> #[trigger] pool_entry_used(r, target, p)
}

/// Two windows with the same structural key get the same coefficient line
/// and share the same pool entry.
pub proof fn lemma_cache_key_determines_coefficients(
    r: WeightCollection,
    src: int,
    target: int,
    fs: int,
    i: int,
    j: int,
)
    requires
        collection_matches(r, src, target, fs),
        0 <= i < target,
        0 <= j < target,
        spec_win_count(src, target, fs, i) == spec_win_count(src, target, fs, j),
        spec_win_delta(src, target, fs, i) == spec_win_delta(src, target, fs, j),
    ensures
        r.spec_coeffs(i) == r.spec_coeffs(j),
        r.lines@[i].line == r.lines@[j].line,
{
    assert(r.spec_coeffs(i) =~= r.spec_coeffs(j));
}

/// Derives the windows of one axis and computes their coefficient lines,
/// caching and sharing lines between windows of the same structural key.
pub fn calculate_weights(src: u32, target: u32, filter_scale: i64) -> (r: WeightCollection)
    requires
        axis_valid(src as int, target as int, filter_scale as int),
    ensures
        collection_matches(r, src as int, target as int, filter_scale as int),
{
    let ghost s = src as int;
    let ghost t = target as int;
    let ghost fsg = filter_scale as int;
    let windows: Vec<WeightWindow> = derive_weight_windows(src, target, filter_scale);
    let mut keys: Vec<ShapeKey> = Vec::new();
    let mut pool: Vec<Vec<i64>> = Vec::new();
    let mut lines: Vec<CachedWeight> = Vec::new();
    let ghost mut owners: Seq<int> = Seq::empty();
    let mut i: u32 = 0;
    while i < target
        invariant
            axis_valid(s, t, fsg),
            s == src as int && t == target as int && fsg == filter_scale as int,
            windows@.len() == target,
            forall|i2: int|
                0 <= i2 < target ==> (#[trigger] windows@[i2]) == spec_window(s, t, fsg, i2),
            forall|i2: int| 0 <= i2 < target ==> window_in_bounds(s, t, #[trigger] windows@[i2]),
            0 <= i <= target,
            lines@.len() == i,
            keys@.len() == pool@.len(),
            // pool entries are the lines of their keys
            forall|e: int|
                0 <= e < keys@.len() ==> (#[trigger] pool@[e])@ =~= spec_line_seq(
                    s,
                    t,
                    fsg,
                    keys@[e].count as int,
                    keys@[e].delta as int,
                ),
            // keys are pairwise distinct
            forall|e1: int, e2: int|
                0 <= e1 < keys@.len() && 0 <= e2 < keys@.len() && e1 != e2 ==> (
                #[trigger] keys@[e1]) != (#[trigger] keys@[e2]),
            // every pool entry is referenced by the processed line that made it
            owners.len() == pool@.len(),
            forall|p: int|
                #![trigger owners[p]]
                0 <= p < pool@.len() ==> 0 <= owners[p] < i && lines@[owners[p]].line == p,
            // each processed line mirrors its window and points at its key
            forall|i2: int|
                0 <= i2 < i ==> (#[trigger] lines@[i2]).line < pool@.len(),
            forall|i2: int|
                0 <= i2 < i ==> (#[trigger] lines@[i2]).start == spec_window(
                    s,
                    t,
                    fsg,
                    i2,
                ).src_start,
            forall|i2: int|
                0 <= i2 < i ==> (#[trigger] keys@[lines@[i2].line as int]).count == spec_win_count(
                    s,
                    t,
                    fsg,
                    i2,
                ) && keys@[lines@[i2].line as int].delta == spec_win_delta(s, t, fsg, i2),
        decreases target - i,
    {
        let w: WeightWindow = windows[i as usize];
        let count: u32 = w.src_end - w.src_start + 1;
        proof {
            assert((w.src_start as int) * 2 * t <= w.center_num as int);
            assert((w.src_start as int) * (2 * t) == (w.src_start as int) * 2 * t)
                by (nonlinear_arith);
            assert((w.src_start as int) * (2 * t) <= 0x2000_0000_0000_0000int) by (nonlinear_arith)
                requires
                    0 <= w.src_start as int <= 0x4000_0000,
                    0 <= t <= 0x4000_0000,
            ;
        }
        let delta: u64 = w.center_num - (w.src_start as u64) * (2 * (target as u64));
        assert(count == spec_win_count(s, t, fsg, i as int));
        assert(delta == spec_win_delta(s, t, fsg, i as int));
        // Look for a cached line with the same structural key.
        let elen: usize = keys.len();
        let mut found: usize = elen;
        let mut e: usize = 0;
        while e < elen
            invariant
                elen == keys@.len(),
                0 <= e <= elen,
                found == elen || (found < e && keys@[found as int].count == count
                    && keys@[found as int].delta == delta),
                found == elen ==> forall|e2: int|
                    0 <= e2 < e ==> !((#[trigger] keys@[e2]).count == count && keys@[e2].delta
                        == delta),
            decreases elen - e,
        {
            if found == elen {
                let k: ShapeKey = keys[e];
                if k.count == count && k.delta == delta {
                    found = e;
                }
            }
            e += 1;
        }
        let ghost pool0 = pool@;
        let ghost lines0 = lines@;
        proof {
            assert(window_in_bounds(s, t, w));
            assert(delta as int <= 2 * t * s) by (nonlinear_arith)
                requires
                    delta as int <= w.center_num as int,
                    w.center_num as int <= (w.src_end as int) * 2 * t,
                    (w.src_end as int) < s,
                    t >= 1,
            ;
        }
        let line: usize = if found < elen {
            found
        } else {
            // First window of this shape: run the generator once.
            let coeffs: Vec<i64> = lanczos_line(src, target, filter_scale, count, delta);
            let fresh: usize = pool.len();
            pool.push(coeffs);
            keys.push(ShapeKey { count, delta });
            proof {
                owners = owners.push(i as int);
            }
            fresh
        };
        lines.push(CachedWeight { start: w.src_start, line });
        i += 1;
    }
    let r = WeightCollection { lines, pool };
    proof {
        assert forall|i2: int|
            0 <= i2 < target implies #[trigger] window_in_bounds(
            s,
            t,
            spec_window(s, t, fsg, i2),
        ) by {
            assert(window_in_bounds(s, t, windows@[i2]));
        }
        assert forall|p: int| 0 <= p < r.pool@.len() implies #[trigger] pool_entry_used(
            r,
            t,
            p,
        ) by {
            assert(0 <= owners[p] < target && r.lines@[owners[p]].line == p);
        }
        assert forall|i2: int, j2: int|
            0 <= i2 < target && 0 <= j2 < target && spec_win_count(s, t, fsg, i2) == spec_win_count(
                s,
                t,
                fsg,
                j2,
            ) && spec_win_delta(s, t, fsg, i2) == spec_win_delta(
                s,
                t,
                fsg,
                j2,
            ) implies #[trigger] r.lines@[i2].line == #[trigger] r.lines@[j2].line by {
            let e1 = r.lines@[i2].line as int;
            let e2 = r.lines@[j2].line as int;
            assert(keys@[e1] == keys@[e2]);
        }
        assert forall|i2: int, j2: int|
            0 <= i2 < target && 0 <= j2 < target && !(spec_win_count(s, t, fsg, i2)
                == spec_win_count(s, t, fsg, j2) && spec_win_delta(s, t, fsg, i2) == spec_win_delta(
                s,
                t,
                fsg,
                j2,
            )) implies #[trigger] r.lines@[i2].line != #[trigger] r.lines@[j2].line by {
            let e1 = r.lines@[i2].line as int;
            let e2 = r.lines@[j2].line as int;
            assert(keys@[e1].count == spec_win_count(s, t, fsg, i2));
            assert(keys@[e2].count == spec_win_count(s, t, fsg, j2));
            assert(keys@[e1].delta == spec_win_delta(s, t, fsg, i2));
            assert(keys@[e2].delta == spec_win_delta(s, t, fsg, j2));
        }
        assert forall|i2: int|
            0 <= i2 < target implies #[trigger] r.spec_coeffs(i2) =~= spec_line_seq(
            s,
            t,
            fsg,
            spec_win_count(s, t, fsg, i2),
            spec_win_delta(s, t, fsg, i2),
        ) by {
            let e1 = r.lines@[i2].line as int;
            assert(pool@[e1]@ =~= spec_line_seq(
                s,
                t,
                fsg,
                keys@[e1].count as int,
                keys@[e1].delta as int,
            ));
        }
        assert forall|i2: int|
            0 <= i2 < target implies 1 <= #[trigger] r.spec_coeffs(i2).len() && r.spec_start(i2)
            + r.spec_coeffs(i2).len() <= s by {
            assert(window_in_bounds(s, t, windows@[i2]));
        }
        assert forall|i2: int, j2: int|
            0 <= i2 < target && 0 <= j2 < r.spec_coeffs(i2).len() implies -0x2_0000_0000_0000i64
            <= (#[trigger] r.spec_coeffs(i2)[j2]) <= 0x2_0000_0000_0000i64 by {
            let n = spec_win_count(s, t, fsg, i2);
            assert(window_in_bounds(s, t, windows@[i2]));
            assert(1 <= n <= s);
            crate::lanczos::lemma_coeff_bound(s, t, fsg, n, spec_win_delta(s, t, fsg, i2), j2);
        }
    }
    r
}

/// The per-axis weight collections of one downsampling call. When both axes
/// are structurally identical the single shared collection serves as both
/// horizontal and vertical weights — the `Shared` variant holds one
/// collection, not two copies.
pub enum SampleWeights {
    Shared(WeightCollection),
    PerAxis(WeightCollection, WeightCollection),
}

impl SampleWeights {
    /// The horizontal (width-axis) collection.
    pub open spec fn spec_horizontal(self) -> WeightCollection {
        match self {
            SampleWeights::Shared(c) => c,
            SampleWeights::PerAxis(h, _) => h,
        }
    }

    /// The vertical (height-axis) collection.
    pub open spec fn spec_vertical(self) -> WeightCollection {
        match self {
            SampleWeights::Shared(c) => c,
            SampleWeights::PerAxis(_, v) => v,
        }
    }

    /// Borrows the horizontal collection.
    pub fn horizontal(&self) -> (r: &WeightCollection)
        ensures
            *r == self.spec_horizontal(),
    {
        match self {
            SampleWeights::Shared(c) => c,
            SampleWeights::PerAxis(h, _) => h,
        }
    }

    /// Borrows the vertical collection.
    pub fn vertical(&self) -> (r: &WeightCollection)
        ensures
            *r == self.spec_vertical(),
    {
        match self {
            SampleWeights::Shared(c) => c,
            SampleWeights::PerAxis(_, v) => v,
        }
    }

    /// Both axes use the same underlying collection.
    pub fn is_shared(&self) -> (r: bool)
        ensures
            r == (self is Shared),
    {
        match self {
            SampleWeights::Shared(_) => true,
            SampleWeights::PerAxis(_, _) => false,
        }
    }
}

/// The dimensions a downsampling call accepts: a true downscale on both
/// axes (no upsampling, no same-size no-op) with a positive filter scale.
pub open spec fn downsample_dims_valid(
    src_width: int,
    src_height: int,
    dst_width: int,
    dst_height: int,
    fs: int,
) -> bool {
    &&& axis_valid(src_width, dst_width, fs)
    &&& axis_valid(src_height, dst_height, fs)
    &&& !(src_width == dst_width && src_height == dst_height)
}

/// Builds the per-axis weight collections, sharing one collection for both
/// axes exactly when source and target are square (same source extents and
/// same target extents on both axes).
pub fn precompute_lanczos_weights(
    src_width: u32,
    src_height: u32,
    dst_width: u32,
    dst_height: u32,
    filter_scale: i64,
) -> (r: SampleWeights)
    requires
        downsample_dims_valid(
            src_width as int,
            src_height as int,
            dst_width as int,
            dst_height as int,
            filter_scale as int,
        ),
    ensures
        (r is Shared) <==> (src_width == src_height && dst_width == dst_height),
        collection_matches(
            r.spec_horizontal(),
            src_width as int,
            dst_width as int,
            filter_scale as int,
        ),
        collection_matches(
            r.spec_vertical(),
            src_height as int,
            dst_height as int,
            filter_scale as int,
        ),
{
    // The weights of an axis depend only on that axis's extents, so two
    // structurally identical axes can share one collection.
    let width_weights = calculate_weights(src_width, dst_width, filter_scale);
    if src_width == src_height && dst_width == dst_height {
        SampleWeights::Shared(width_weights)
    } else {
        let height_weights = calculate_weights(src_height, dst_height, filter_scale);
        SampleWeights::PerAxis(width_weights, height_weights)
    }
}

} // verus!
