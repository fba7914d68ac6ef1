//! Q16.16 fixed-point helpers shared by the filtering and coverage code.

use vstd::prelude::*;

verus! {

/// The fixed-point unit: all fractional quantities in this crate are carried
/// as integers scaled by `FX_ONE` (Q16.16).
pub const FX_ONE: i64 = 65536;

/// Half of `FX_ONE`, used for round-to-nearest.
pub const FX_HALF: i64 = 32768;

/// Divide nonnegative integers, rounding the quotient to the nearest integer
/// (halves round up).
pub open spec fn spec_div_round(num: int, den: int) -> int
    recommends
        den >= 1,
{
    (num + den / 2) / den
}

/// `r` is the integer square root of `n`.
pub open spec fn is_isqrt(n: int, r: int) -> bool {
    0 <= r && r * r <= n && n < (r + 1) * (r + 1)
}

/// The integer square root, as a function.
pub open spec fn spec_isqrt(n: int) -> int
    decreases n,
{
    if n <= 0 {
        0int
    } else {
        let p = spec_isqrt(n - 1);
        if (p + 1) * (p + 1) <= n {
            p + 1
        } else {
            p
        }
    }
}

/// `spec_isqrt` is an integer square root.
pub proof fn lemma_spec_isqrt(n: int)
    requires
        0 <= n,
    ensures
        is_isqrt(n, spec_isqrt(n)),
    decreases n,
{
    if n > 0 {
        lemma_spec_isqrt(n - 1);
        let p = spec_isqrt(n - 1);
        assert((p + 1) * (p + 1) < (p + 2) * (p + 2)) by (nonlinear_arith)
            requires
                p >= 0,
        ;
    }
}

/// A number has only one integer square root.
pub proof fn lemma_isqrt_unique(n: int, a: int, b: int)
    requires
        is_isqrt(n, a),
        is_isqrt(n, b),
    ensures
        a == b,
{
    assert(a == b) by (nonlinear_arith)
        requires
            0 <= a && a * a <= n && n < (a + 1) * (a + 1),
            0 <= b && b * b <= n && n < (b + 1) * (b + 1),
    ;
}

/// Integer square root by bisection.
pub fn isqrt_u64(n: u64) -> (r: u64)
    ensures
        is_isqrt(n as int, r as int),
{
    if n == 0 {
        return 0;
    }
    let mut lo: u64 = 0;
    let mut hi: u64 = 4294967296;
    proof {
        assert((4294967296int) * (4294967296int) > u64::MAX) by (nonlinear_arith);
    }
    while lo + 1 < hi
        invariant
            lo < hi <= 4294967296,
            lo * lo <= n,
            n < hi * hi,
        decreases hi - lo,
    {
        let mid: u64 = lo + (hi - lo) / 2;
        assert(mid * mid <= u64::MAX) by (nonlinear_arith)
            requires
                mid < 4294967296,
        ;
        if mid * mid <= n {
            lo = mid;
        } else {
            hi = mid;
        }
    }
    lo
}

} // verus!
