//! Deterministic fixed-point scalar arithmetic.
//!
//! A scalar world quantity `q` is stored as the integer `q * SCALE`, rounded
//! toward zero. All operations are exact integer computations, so every
//! result is a mathematical function of its operands: the same inputs give
//! the same outputs on every machine and in every run.

use vstd::prelude::*;

verus! {

use vstd::arithmetic::div_mod::lemma_div_is_ordered;
use vstd::arithmetic::div_mod::lemma_fundamental_div_mod;

/// Number of integer steps per world unit.
pub const SCALE: i64 = 1_000_000;

/// Geometric degeneracy threshold: `1e-5` world units.
pub const EPSILON: i64 = 10;

/// Largest magnitude any stored fixed-point scalar may take (`2^61`); the
/// headroom below `i64::MAX` keeps sums of a few in-range values representable.
pub const RAW_MAX: i64 = 0x2000_0000_0000_0000;

/// A scalar that the fixed-point representation can hold.
pub open spec fn in_range(x: int) -> bool {
    -RAW_MAX <= x <= RAW_MAX
}

/// Absolute value.
pub open spec fn abs_i(x: int) -> int {
    if x >= 0 {
        x
    } else {
        -x
    }
}

/// Division truncating toward zero (the rounding every fixed-point operation
/// uses), defined for `d != 0`.
pub open spec fn tdiv(n: int, d: int) -> int {
    let q = abs_i(n) / abs_i(d);
    if (n < 0) != (d < 0) {
        -q
    } else {
        q
    }
}

/// Fixed-point product: `a * b` rescaled, rounded toward zero.
pub open spec fn fmul_s(a: int, b: int) -> int {
    tdiv(a * b, SCALE as int)
}

/// Fixed-point quotient: `a / b` rescaled, rounded toward zero; zero when the
/// divisor is zero.
pub open spec fn fdiv_s(a: int, b: int) -> int {
    if b == 0 {
        0
    } else {
        tdiv(a * (SCALE as int), b)
    }
}

/// `|a|` of an `i64`, as a `u64` so that `i64::MIN` needs no special case.
pub fn abs_u64(a: i64) -> (r: u64)
    ensures
        r == abs_i(a as int),
{
    if a >= 0 {
        a as u64
    } else {
        let w: i128 = -(a as i128);
        w as u64
    }
}

/// `|a|` within the in-range domain.
pub fn abs_fx(a: i64) -> (r: i64)
    requires
        in_range(a as int),
    ensures
        r == abs_i(a as int),
{
    if a >= 0 {
        a
    } else {
        -a
    }
}

proof fn lemma_abs_mul(a: int, b: int)
    ensures
        abs_i(a * b) == abs_i(a) * abs_i(b),
{
    assert(abs_i(a * b) == abs_i(a) * abs_i(b)) by (nonlinear_arith);
}

/// The magnitude of a truncating quotient is the quotient of the magnitudes.
proof fn lemma_tdiv_abs(n: int, d: int)
    requires
        d != 0,
    ensures
        abs_i(tdiv(n, d)) == abs_i(n) / abs_i(d),
{
    assert(abs_i(n) >= 0);
    assert(abs_i(d) > 0);
    assert(abs_i(n) / abs_i(d) >= 0) by (nonlinear_arith)
        requires
            abs_i(n) >= 0 && abs_i(d) > 0,
    ;
}

/// Truncating division shrinks magnitudes monotonically.
pub proof fn lemma_tdiv_bound(n: int, d: int, nb: int)
    requires
        d > 0,
        abs_i(n) <= nb,
    ensures
        abs_i(tdiv(n, d)) <= nb / d,
{
    lemma_tdiv_abs(n, d);
    lemma_div_is_ordered(abs_i(n), nb, d);
}

/// Magnitude bound for a fixed-point product.
pub proof fn lemma_fmul_bound(a: int, b: int, ab: int, bb: int)
    requires
        abs_i(a) <= ab,
        abs_i(b) <= bb,
    ensures
        abs_i(fmul_s(a, b)) <= ab * bb / (SCALE as int),
{
    lemma_abs_mul(a, b);
    assert(abs_i(a) * abs_i(b) <= ab * bb) by (nonlinear_arith)
        requires
            0 <= abs_i(a) <= ab && 0 <= abs_i(b) <= bb,
    ;
    lemma_tdiv_bound(a * b, SCALE as int, ab * bb);
}

/// Magnitude bound for a fixed-point quotient with a divisor bounded away
/// from zero.
pub proof fn lemma_fdiv_bound(a: int, b: int, ab: int, dmin: int)
    requires
        abs_i(a) <= ab,
        abs_i(b) >= dmin,
        dmin > 0,
    ensures
        abs_i(fdiv_s(a, b)) <= ab * (SCALE as int) / dmin,
{
    lemma_tdiv_abs(a * (SCALE as int), b);
    lemma_abs_mul(a, SCALE as int);
    assert(abs_i(a * (SCALE as int)) / abs_i(b) <= ab * (SCALE as int) / dmin) by (nonlinear_arith)
        requires
            0 <= abs_i(a * (SCALE as int)) <= ab * (SCALE as int) && abs_i(b) >= dmin > 0,
    ;
}

/// A product of non-negative factors rescales to a non-negative value.
pub proof fn lemma_fmul_nonneg(a: int, b: int)
    requires
        a >= 0,
        b >= 0,
    ensures
        fmul_s(a, b) >= 0,
{
    assert(a * b >= 0) by (nonlinear_arith)
        requires
            a >= 0 && b >= 0,
    ;
}

/// A quotient of a non-negative value by a positive one is non-negative.
pub proof fn lemma_fdiv_nonneg(a: int, b: int)
    requires
        a >= 0,
        b > 0,
    ensures
        fdiv_s(a, b) >= 0,
{
    assert(a * (SCALE as int) >= 0) by (nonlinear_arith)
        requires
            a >= 0,
    ;
}

/// Dividing a value at least `d` by `d` gives at least one.
pub proof fn lemma_fmul_lower_one(a: int, b: int)
    requires
        a >= 0,
        b >= 0,
        a * b >= SCALE,
    ensures
        fmul_s(a, b) >= 1,
{
    lemma_div_is_ordered(SCALE as int, a * b, SCALE as int);
    assert((SCALE as int) / (SCALE as int) == 1) by (nonlinear_arith);
    assert(a * b >= 0) by (nonlinear_arith)
        requires
            a >= 0 && b >= 0,
    ;
}

/// Scaling by a factor in `[0, 1]` keeps the result between `0` and `d`.
pub proof fn lemma_fmul_convex(t: int, d: int)
    requires
        0 <= t <= SCALE,
    ensures
        d >= 0 ==> 0 <= fmul_s(t, d) <= d,
        d < 0 ==> d <= fmul_s(t, d) <= 0,
        abs_i(fmul_s(t, d)) <= abs_i(d),
{
    lemma_tdiv_abs(t * d, SCALE as int);
    lemma_abs_mul(t, d);
    assert(abs_i(t) * abs_i(d) <= (SCALE as int) * abs_i(d)) by (nonlinear_arith)
        requires
            0 <= abs_i(t) <= SCALE as int && abs_i(d) >= 0,
    ;
    lemma_div_is_ordered(abs_i(t) * abs_i(d), (SCALE as int) * abs_i(d), SCALE as int);
    assert(((SCALE as int) * abs_i(d)) / (SCALE as int) == abs_i(d)) by (nonlinear_arith);
    assert(abs_i(fmul_s(t, d)) <= abs_i(d));
    if d >= 0 {
        assert(t * d >= 0) by (nonlinear_arith)
            requires
                t >= 0 && d >= 0,
        ;
        assert(fmul_s(t, d) >= 0);
    } else {
        assert(t * d <= 0) by (nonlinear_arith)
            requires
                t >= 0 && d < 0,
        ;
        if t * d == 0 {
            assert(fmul_s(t, d) == 0);
        } else {
            assert(fmul_s(t, d) <= 0);
        }
    }
}

/// Fixed-point product; the caller guarantees the result is representable.
pub fn fmul(a: i64, b: i64) -> (r: i64)
    requires
        in_range(fmul_s(a as int, b as int)),
    ensures
        r == fmul_s(a as int, b as int),
{
    let neg = (a < 0) != (b < 0);
    let au = abs_u64(a);
    let bu = abs_u64(b);
    proof {
        assert((au as int) * (bu as int) <= 0x8000_0000_0000_0000int * 0x8000_0000_0000_0000int)
            by (nonlinear_arith)
            requires
                0 <= au as int <= 0x8000_0000_0000_0000int && 0 <= bu as int
                    <= 0x8000_0000_0000_0000int,
        ;
    }
    let p: u128 = (au as u128) * (bu as u128);
    let q: u128 = p / (SCALE as u128);
    proof {
        lemma_abs_mul(a as int, b as int);
        lemma_tdiv_abs((a as int) * (b as int), SCALE as int);
        assert(q == abs_i(fmul_s(a as int, b as int)));
    }
    let m = q as i64;
    proof {
        if a == 0 || b == 0 {
            assert((a as int) * (b as int) == 0) by (nonlinear_arith)
                requires
                    a == 0 || b == 0,
            ;
            assert(m == 0);
        } else {
            assert(((a as int) * (b as int) < 0) == neg) by (nonlinear_arith)
                requires
                    a != 0 && b != 0 && neg == ((a < 0) != (b < 0)),
            ;
        }
    }
    if neg {
        -m
    } else {
        m
    }
}

/// Checked fixed-point product: `None` exactly when the result would leave
/// the representable range.
pub fn fmul_c(a: i64, b: i64) -> (r: Option<i64>)
    ensures
        in_range(fmul_s(a as int, b as int)) ==> r == Some(
            fmul_s(a as int, b as int) as i64,
        ),
        !in_range(fmul_s(a as int, b as int)) ==> r is None,
{
    let au = abs_u64(a);
    let bu = abs_u64(b);
    proof {
        assert((au as int) * (bu as int) <= 0x8000_0000_0000_0000int * 0x8000_0000_0000_0000int)
            by (nonlinear_arith)
            requires
                0 <= au as int <= 0x8000_0000_0000_0000int && 0 <= bu as int
                    <= 0x8000_0000_0000_0000int,
        ;
    }
    let p: u128 = (au as u128) * (bu as u128);
    let q: u128 = p / (SCALE as u128);
    proof {
        lemma_abs_mul(a as int, b as int);
        lemma_tdiv_abs((a as int) * (b as int), SCALE as int);
        assert(q == abs_i(fmul_s(a as int, b as int)));
    }
    if q > (RAW_MAX as u128) {
        None
    } else {
        Some(fmul(a, b))
    }
}

/// Fixed-point quotient; the caller guarantees a nonzero divisor and a
/// representable result.
pub fn fdiv(a: i64, b: i64) -> (r: i64)
    requires
        b != 0,
        in_range(fdiv_s(a as int, b as int)),
    ensures
        r == fdiv_s(a as int, b as int),
{
    let neg = (a < 0) != (b < 0);
    let au = abs_u64(a);
    proof {
        assert((au as int) * (SCALE as int) <= 0x8000_0000_0000_0000int * (SCALE as int))
            by (nonlinear_arith)
            requires
                0 <= au as int <= 0x8000_0000_0000_0000int,
        ;
    }
    let p: u128 = (au as u128) * (SCALE as u128);
    let q: u128 = p / (abs_u64(b) as u128);
    proof {
        lemma_abs_mul(a as int, SCALE as int);
        lemma_tdiv_abs((a as int) * (SCALE as int), b as int);
        assert(q == abs_i(fdiv_s(a as int, b as int)));
    }
    let m = q as i64;
    if neg {
        proof {
            if (a as int) * (SCALE as int) == 0 {
                assert(a == 0) by (nonlinear_arith)
                    requires
                        (a as int) * (SCALE as int) == 0,
                ;
                assert(fdiv_s(a as int, b as int) == 0);
            } else {
                assert((((a as int) * (SCALE as int) < 0) != ((b as int) < 0)) == neg)
                    by (nonlinear_arith)
                    requires
                        a != 0 && neg == ((a < 0) != (b < 0)),
                ;
            }
        }
        if m == 0 {
            0
        } else {
            -m
        }
    } else {
        proof {
            if a == 0 {
                assert((a as int) * (SCALE as int) == 0) by (nonlinear_arith)
                    requires
                        a == 0,
                ;
            } else {
                assert((((a as int) * (SCALE as int) < 0) != ((b as int) < 0)) == neg)
                    by (nonlinear_arith)
                    requires
                        a != 0 && neg == ((a < 0) != (b < 0)),
                ;
            }
        }
        m
    }
}

/// Checked fixed-point quotient: `None` when the divisor is zero or the
/// result would leave the representable range.
pub fn fdiv_c(a: i64, b: i64) -> (r: Option<i64>)
    ensures
        b != 0 && in_range(fdiv_s(a as int, b as int)) ==> r == Some(
            fdiv_s(a as int, b as int) as i64,
        ),
        !(b != 0 && in_range(fdiv_s(a as int, b as int))) ==> r is None,
{
    if b == 0 {
        return None;
    }
    let au = abs_u64(a);
    proof {
        assert((au as int) * (SCALE as int) <= 0x8000_0000_0000_0000int * (SCALE as int))
            by (nonlinear_arith)
            requires
                0 <= au as int <= 0x8000_0000_0000_0000int,
        ;
    }
    let p: u128 = (au as u128) * (SCALE as u128);
    let q: u128 = p / (abs_u64(b) as u128);
    proof {
        lemma_abs_mul(a as int, SCALE as int);
        lemma_tdiv_abs((a as int) * (SCALE as int), b as int);
        assert(q == abs_i(fdiv_s(a as int, b as int)));
    }
    if q > (RAW_MAX as u128) {
        None
    } else {
        Some(fdiv(a, b))
    }
}

/// Checked sum: `None` exactly when the sum would leave the representable
/// range.
pub fn fadd_c(a: i64, b: i64) -> (r: Option<i64>)
    ensures
        in_range(a + b) ==> r == Some((a + b) as i64),
        !in_range(a + b) ==> r is None,
{
    let s: i128 = (a as i128) + (b as i128);
    if s > (RAW_MAX as i128) || s < -(RAW_MAX as i128) {
        None
    } else {
        Some(s as i64)
    }
}

/// Rescale a wide intermediate sum of products back to fixed point,
/// truncating toward zero.
pub fn tdiv_scale(s: i128) -> (r: i64)
    requires
        abs_i(s as int) <= 0x4000_0000_0000_0000_0000_0000_0000_0000int,
        in_range(tdiv(s as int, SCALE as int)),
    ensures
        r == tdiv(s as int, SCALE as int),
{
    proof {
        lemma_tdiv_abs(s as int, SCALE as int);
    }
    if s >= 0 {
        let q: u128 = (s as u128) / (SCALE as u128);
        q as i64
    } else {
        let su: u128 = (-s) as u128;
        let q: u128 = su / (SCALE as u128);
        -(q as i64)
    }
}

/// Checked variant of [`tdiv_scale`]: `None` exactly when the rescaled value
/// would leave the representable range.
pub fn tdiv_scale_c(s: i128) -> (r: Option<i64>)
    requires
        abs_i(s as int) <= 0x4000_0000_0000_0000_0000_0000_0000_0000int,
    ensures
        in_range(tdiv(s as int, SCALE as int)) ==> r == Some(
            tdiv(s as int, SCALE as int) as i64,
        ),
        !in_range(tdiv(s as int, SCALE as int)) ==> r is None,
{
    proof {
        lemma_tdiv_abs(s as int, SCALE as int);
    }
    let su: u128 = if s >= 0 {
        s as u128
    } else {
        (-s) as u128
    };
    let q: u128 = su / (SCALE as u128);
    if q > (RAW_MAX as u128) {
        None
    } else {
        Some(tdiv_scale(s))
    }
}

/// The exact integer square root, digit by digit.
pub open spec fn sqrt_s(n: nat) -> nat
    decreases n,
{
    if n == 0 {
        0
    } else {
        let r = 2 * sqrt_s((n / 4) as nat);
        if (r + 1) * (r + 1) <= n {
            (r + 1) as nat
        } else {
            r as nat
        }
    }
}

/// `sqrt_s(n)` is the rounded-down square root of `n`.
pub proof fn lemma_sqrt_s(n: nat)
    ensures
        sqrt_s(n) * sqrt_s(n) <= n,
        n < (sqrt_s(n) + 1) * (sqrt_s(n) + 1),
    decreases n,
{
    if n == 0 {
        assert(sqrt_s(n) == 0);
        assert(n < (sqrt_s(n) + 1) * (sqrt_s(n) + 1)) by (nonlinear_arith)
            requires
                n == 0 && sqrt_s(n) == 0,
        ;
    } else {
        let m = (n / 4) as nat;
        lemma_sqrt_s(m);
        let r0 = sqrt_s(m);
        let r = 2 * r0;
        lemma_fundamental_div_mod(n as int, 4);
        assert(4 * m <= n < 4 * m + 4);
        assert(r * r <= n) by (nonlinear_arith)
            requires
                r == 2 * r0 && r0 * r0 <= m && 4 * m <= n,
        ;
        assert(n < (r + 2) * (r + 2)) by (nonlinear_arith)
            requires
                r == 2 * r0 && m < (r0 + 1) * (r0 + 1) && n < 4 * m + 4,
        ;
        let s = sqrt_s(n);
        if (r + 1) * (r + 1) <= n {
            assert(s == r + 1);
            assert(s * s <= n && n < (s + 1) * (s + 1)) by (nonlinear_arith)
                requires
                    s == r + 1 && (r + 1) * (r + 1) <= n && n < (r + 2) * (r + 2),
            ;
        } else {
            assert(s == r);
            assert(s * s <= n && n < (s + 1) * (s + 1)) by (nonlinear_arith)
                requires
                    s == r && r * r <= n && !((r + 1) * (r + 1) <= n),
            ;
        }
    }
}

/// The rounded-down square root is unique.
pub proof fn lemma_sqrt_unique(n: nat, r: nat)
    requires
        r * r <= n,
        n < (r + 1) * (r + 1),
    ensures
        r == sqrt_s(n),
{
    lemma_sqrt_s(n);
    let s = sqrt_s(n);
    assert(r == s) by (nonlinear_arith)
        requires
            r * r <= n && n < (r + 1) * (r + 1) && s * s <= n && n < (s + 1) * (s + 1) && r >= 0
                && s >= 0,
    ;
}

/// Integer square root by bisection.
pub fn isqrt(v: u128) -> (r: u64)
    ensures
        r == sqrt_s(v as nat),
{
    let mut lo: u128 = 0;
    let mut hi: u128 = 0x1_0000_0000_0000_0000;
    proof {
        assert((hi as int) * (hi as int) > v as int) by (nonlinear_arith)
            requires
                hi == 0x1_0000_0000_0000_0000u128 && v <= u128::MAX,
        ;
    }
    while hi - lo > 1
        invariant
            lo < hi <= 0x1_0000_0000_0000_0000u128,
            (lo as int) * (lo as int) <= v as int,
            (hi as int) * (hi as int) > v as int,
        decreases hi - lo,
    {
        let mid = lo + (hi - lo) / 2;
        assert(lo < mid < hi);
        proof {
            assert((mid as int) * (mid as int) < 0x1_0000_0000_0000_0000_0000_0000_0000_0000int)
                by (nonlinear_arith)
                requires
                    0 <= mid as int <= 0xffff_ffff_ffff_ffffint,
            ;
        }
        if mid * mid <= v {
            lo = mid;
        } else {
            hi = mid;
        }
    }
    proof {
        assert(hi == lo + 1);
        lemma_sqrt_unique(v as nat, lo as nat);
    }
    lo as u64
}

} // verus!
