//! Fixed-point vectors, quaternions, matrices and planes.
//!
//! Every executable operation is specified against a ghost model (`V3`, `Q4`,
//! `M3`) over unbounded integers; the contracts state the exact rounded
//! result of each operation.

use vstd::prelude::*;

verus! {

use crate::fixed::EPSILON;
use crate::fixed::RAW_MAX;
use crate::fixed::SCALE;
use crate::fixed::abs_i;
use crate::fixed::abs_u64;
use crate::fixed::fdiv;
use crate::fixed::fdiv_s;
use crate::fixed::fmul;
use crate::fixed::fmul_c;
use crate::fixed::fmul_s;
use crate::fixed::in_range;
use crate::fixed::isqrt;
use crate::fixed::lemma_fdiv_bound;
use crate::fixed::lemma_fmul_bound;
use crate::fixed::lemma_fmul_convex;
use crate::fixed::lemma_sqrt_s;
use crate::fixed::lemma_tdiv_bound;
use crate::fixed::sqrt_s;
use crate::fixed::tdiv;
use crate::fixed::tdiv_scale;

/// Largest component magnitude accepted by `Vec3::rotate`.
pub const ROTATE_IN_MAX: i64 = 0x100_0000_0000;

/// Component bound guaranteed for `Vec3::rotate` results.
pub const ROTATE_OUT_MAX: i64 = 0x4000_0000_0000;

/// Scalars within `EPSILON` of each other count as geometrically equal.
pub trait EpsilonEquals {
    fn epsilon_equals(self, other: Self) -> bool;
}

impl EpsilonEquals for i64 {
    /// `|self - other| <= EPSILON`, computed without overflow.
    fn epsilon_equals(self, other: Self) -> (r: bool)
        ensures
            r == (abs_i(self - other) <= EPSILON),
    {
        let d: i128 = (self as i128) - (other as i128);
        let a: i128 = if d >= 0 {
            d
        } else {
            -d
        };
        a <= EPSILON as i128
    }
}

/// Ghost model of a vector: three unbounded integer coordinates.
pub struct V3 {
    pub x: int,
    pub y: int,
    pub z: int,
}

/// All three components within `b` in magnitude.
pub open spec fn bounded3(a: V3, b: int) -> bool {
    abs_i(a.x) <= b && abs_i(a.y) <= b && abs_i(a.z) <= b
}

/// Representable vector.
pub open spec fn okv(a: V3) -> bool {
    bounded3(a, RAW_MAX as int)
}

pub open spec fn zerov() -> V3 {
    V3 { x: 0, y: 0, z: 0 }
}

pub open spec fn addv(a: V3, b: V3) -> V3 {
    V3 { x: a.x + b.x, y: a.y + b.y, z: a.z + b.z }
}

pub open spec fn subv(a: V3, b: V3) -> V3 {
    V3 { x: a.x - b.x, y: a.y - b.y, z: a.z - b.z }
}

pub open spec fn negv(a: V3) -> V3 {
    V3 { x: -a.x, y: -a.y, z: -a.z }
}

/// Fixed-point dot product: one truncation of the exact sum of products.
pub open spec fn dotv(a: V3, b: V3) -> int {
    tdiv(a.x * b.x + a.y * b.y + a.z * b.z, SCALE as int)
}

/// The exact (unscaled) sum of coordinate products, for sign tests.
pub open spec fn dot_raw(a: V3, b: V3) -> int {
    a.x * b.x + a.y * b.y + a.z * b.z
}

/// Fixed-point cross product, each term truncated separately.
pub open spec fn crossv(a: V3, b: V3) -> V3 {
    V3 {
        x: fmul_s(a.y, b.z) - fmul_s(a.z, b.y),
        y: fmul_s(a.z, b.x) - fmul_s(a.x, b.z),
        z: fmul_s(a.x, b.y) - fmul_s(a.y, b.x),
    }
}

/// Whether every intermediate of `crossv` is representable.
pub open spec fn cross_fits(a: V3, b: V3) -> bool {
    &&& in_range(fmul_s(a.y, b.z))
    &&& in_range(fmul_s(a.z, b.y))
    &&& in_range(fmul_s(a.z, b.x))
    &&& in_range(fmul_s(a.x, b.z))
    &&& in_range(fmul_s(a.x, b.y))
    &&& in_range(fmul_s(a.y, b.x))
    &&& in_range(crossv(a, b).x)
    &&& in_range(crossv(a, b).y)
    &&& in_range(crossv(a, b).z)
}

/// Componentwise scaling by a fixed-point factor.
pub open spec fn smulv(a: V3, s: int) -> V3 {
    V3 { x: fmul_s(a.x, s), y: fmul_s(a.y, s), z: fmul_s(a.z, s) }
}

pub open spec fn smul_fits(a: V3, s: int) -> bool {
    in_range(fmul_s(a.x, s)) && in_range(fmul_s(a.y, s)) && in_range(fmul_s(a.z, s))
}

/// Vector magnitude: because the representation is linear in the stored
/// integers, the raw magnitude is the integer square root of the raw sum of
/// squares, with no rescaling.
pub open spec fn magv(a: V3) -> int {
    sqrt_s((a.x * a.x + a.y * a.y + a.z * a.z) as nat) as int
}

/// The unit vector along `a` (meaningful when `magv(a) > EPSILON`).
pub open spec fn normv(a: V3) -> V3 {
    V3 { x: fdiv_s(a.x, magv(a)), y: fdiv_s(a.y, magv(a)), z: fdiv_s(a.z, magv(a)) }
}

/// A world-space vector in fixed-point coordinates.
#[derive(Clone, Copy, PartialEq, Eq, Structural, Debug, Default)]
pub struct Vec3 {
    pub x: i64,
    pub y: i64,
    pub z: i64,
}

impl View for Vec3 {
    type V = V3;

    open spec fn view(&self) -> V3 {
        V3 { x: self.x as int, y: self.y as int, z: self.z as int }
    }
}

/// Dot products shrink no faster than the product of component bounds.
pub proof fn lemma_dotv_bound(a: V3, b: V3, ab: int, bb: int, c: int)
    requires
        bounded3(a, ab),
        bounded3(b, bb),
        3 * ab * bb <= c * (SCALE as int),
    ensures
        abs_i(dotv(a, b)) <= c,
{
    assert(abs_i(a.x * b.x) <= ab * bb) by (nonlinear_arith)
        requires
            abs_i(a.x) <= ab && abs_i(b.x) <= bb,
    ;
    assert(abs_i(a.y * b.y) <= ab * bb) by (nonlinear_arith)
        requires
            abs_i(a.y) <= ab && abs_i(b.y) <= bb,
    ;
    assert(abs_i(a.z * b.z) <= ab * bb) by (nonlinear_arith)
        requires
            abs_i(a.z) <= ab && abs_i(b.z) <= bb,
    ;
    assert(3 * ab * bb == 3 * (ab * bb)) by (nonlinear_arith);
    assert(abs_i(a.x * b.x + a.y * b.y + a.z * b.z) <= 3 * ab * bb);
    lemma_tdiv_bound(a.x * b.x + a.y * b.y + a.z * b.z, SCALE as int, c * (SCALE as int));
    assert((c * (SCALE as int)) / (SCALE as int) == c) by (nonlinear_arith)
        requires
            SCALE == 1_000_000i64,
    ;
}

/// Cross products stay bounded and all their intermediates representable.
pub proof fn lemma_crossv_bound(a: V3, b: V3, ab: int, bb: int, c: int)
    requires
        bounded3(a, ab),
        bounded3(b, bb),
        2 * ab * bb <= c * (SCALE as int),
        0 <= c <= RAW_MAX,
    ensures
        bounded3(crossv(a, b), c),
        cross_fits(a, b),
{
    assert(ab * bb <= c * (SCALE as int)) by (nonlinear_arith)
        requires
            2 * ab * bb <= c * (SCALE as int) && abs_i(a.x) <= ab && abs_i(b.x) <= bb,
    ;
    lemma_fmul_bound(a.y, b.z, ab, bb);
    lemma_fmul_bound(a.z, b.y, ab, bb);
    lemma_fmul_bound(a.z, b.x, ab, bb);
    lemma_fmul_bound(a.x, b.z, ab, bb);
    lemma_fmul_bound(a.x, b.y, ab, bb);
    lemma_fmul_bound(a.y, b.x, ab, bb);
    assert(2 * (ab * bb / (SCALE as int)) <= c && ab * bb / (SCALE as int) <= c)
        by (nonlinear_arith)
        requires
            2 * ab * bb <= c * (SCALE as int) && 0 <= ab * bb && SCALE == 1_000_000i64 && c >= 0,
    ;
}

/// Each component is at most the magnitude.
pub proof fn lemma_magv_comps(a: V3)
    ensures
        abs_i(a.x) <= magv(a),
        abs_i(a.y) <= magv(a),
        abs_i(a.z) <= magv(a),
        magv(a) >= 0,
{
    assert(a.x * a.x + a.y * a.y + a.z * a.z >= 0) by (nonlinear_arith);
    let n = (a.x * a.x + a.y * a.y + a.z * a.z) as nat;
    lemma_sqrt_s(n);
    let s = sqrt_s(n);
    assert(abs_i(a.x) <= s && abs_i(a.y) <= s && abs_i(a.z) <= s) by (nonlinear_arith)
        requires
            n == a.x * a.x + a.y * a.y + a.z * a.z && n < (s + 1) * (s + 1) && s >= 0,
    ;
}

/// Negation preserves the magnitude.
pub proof fn lemma_magv_neg(a: V3)
    ensures
        magv(negv(a)) == magv(a),
{
    let n = negv(a);
    assert(n.x * n.x == a.x * a.x && n.y * n.y == a.y * a.y && n.z * n.z == a.z * a.z)
        by (nonlinear_arith)
        requires
            n.x == -a.x && n.y == -a.y && n.z == -a.z,
    ;
}

/// The magnitude is at most twice the largest component bound.
pub proof fn lemma_magv_bound(a: V3, b: int)
    requires
        bounded3(a, b),
    ensures
        0 <= magv(a) <= 2 * b,
{
    assert(a.x * a.x + a.y * a.y + a.z * a.z >= 0) by (nonlinear_arith);
    let n = (a.x * a.x + a.y * a.y + a.z * a.z) as nat;
    lemma_sqrt_s(n);
    let s = sqrt_s(n);
    assert(s <= 2 * b) by (nonlinear_arith)
        requires
            n == a.x * a.x + a.y * a.y + a.z * a.z && s * s <= n && s >= 0 && abs_i(a.x) <= b
                && abs_i(a.y) <= b && abs_i(a.z) <= b,
    ;
}

impl Vec3 {
    /// Componentwise sum.
    pub fn plus(&self, other: &Vec3) -> (r: Vec3)
        requires
            in_range(self@.x + other@.x),
            in_range(self@.y + other@.y),
            in_range(self@.z + other@.z),
        ensures
            r@ == addv(self@, other@),
    {
        Vec3 { x: self.x + other.x, y: self.y + other.y, z: self.z + other.z }
    }

    /// Componentwise difference.
    pub fn minus(&self, other: &Vec3) -> (r: Vec3)
        requires
            in_range(self@.x - other@.x),
            in_range(self@.y - other@.y),
            in_range(self@.z - other@.z),
        ensures
            r@ == subv(self@, other@),
    {
        Vec3 { x: self.x - other.x, y: self.y - other.y, z: self.z - other.z }
    }

    /// Componentwise negation.
    pub fn negate(&self) -> (r: Vec3)
        requires
            okv(self@),
        ensures
            r@ == negv(self@),
    {
        Vec3 { x: -self.x, y: -self.y, z: -self.z }
    }

    /// Fixed-point dot product.
    pub fn dot(&self, other: &Vec3) -> (r: i64)
        requires
            okv(self@),
            okv(other@),
            in_range(dotv(self@, other@)),
        ensures
            r == dotv(self@, other@),
    {
        proof {
            lemma_dot_products_fit(self@, other@);
        }
        let s: i128 = (self.x as i128) * (other.x as i128) + (self.y as i128) * (other.y as i128)
            + (self.z as i128) * (other.z as i128);
        tdiv_scale(s)
    }

    /// Whether the exact (unscaled) dot product is non-negative; used for
    /// orientation tests, which need no rescaling.
    pub fn dot_sign_nonneg(&self, other: &Vec3) -> (r: bool)
        requires
            okv(self@),
            okv(other@),
        ensures
            r == (dot_raw(self@, other@) >= 0),
    {
        proof {
            lemma_dot_products_fit(self@, other@);
        }
        let s: i128 = (self.x as i128) * (other.x as i128) + (self.y as i128) * (other.y as i128)
            + (self.z as i128) * (other.z as i128);
        s >= 0
    }

    /// Fixed-point cross product.
    pub fn cross(&self, other: &Vec3) -> (r: Vec3)
        requires
            okv(self@),
            okv(other@),
            cross_fits(self@, other@),
        ensures
            r@ == crossv(self@, other@),
    {
        let a = self;
        let b = other;
        Vec3 {
            x: fmul(a.y, b.z) - fmul(a.z, b.y),
            y: fmul(a.z, b.x) - fmul(a.x, b.z),
            z: fmul(a.x, b.y) - fmul(a.y, b.x),
        }
    }

    /// Scale by a fixed-point factor.
    pub fn scaled(&self, s: i64) -> (r: Vec3)
        requires
            smul_fits(self@, s as int),
        ensures
            r@ == smulv(self@, s as int),
    {
        Vec3 { x: fmul(self.x, s), y: fmul(self.y, s), z: fmul(self.z, s) }
    }

    /// Vector magnitude (rounded down).
    pub fn mag(&self) -> (r: i64)
        requires
            bounded3(self@, RAW_MAX as int / 2),
        ensures
            r == magv(self@),
            0 <= r <= RAW_MAX,
    {
        let ax = abs_u64(self.x);
        let ay = abs_u64(self.y);
        let az = abs_u64(self.z);
        proof {
            assert((ax as int) * (ax as int) == self@.x * self@.x && (ay as int) * (ay as int)
                == self@.y * self@.y && (az as int) * (az as int) == self@.z * self@.z)
                by (nonlinear_arith)
                requires
                    ax == abs_i(self@.x) && ay == abs_i(self@.y) && az == abs_i(self@.z),
            ;
            assert((ax as int) * (ax as int) <= 0x1000_0000_0000_0000_0000_0000_0000_0000int && (
            ay as int) * (ay as int) <= 0x1000_0000_0000_0000_0000_0000_0000_0000int && (
            az as int) * (az as int) <= 0x1000_0000_0000_0000_0000_0000_0000_0000int)
                by (nonlinear_arith)
                requires
                    0 <= ax as int <= RAW_MAX as int && 0 <= ay as int <= RAW_MAX as int && 0
                        <= az as int <= RAW_MAX as int,
            ;
        }
        let n: u128 = (ax as u128) * (ax as u128) + (ay as u128) * (ay as u128) + (az as u128) * (
        az as u128);
        let r = isqrt(n);
        proof {
            lemma_magv_bound(self@, RAW_MAX as int / 2);
        }
        r as i64
    }

    /// The unit vector along `self`, or `None` when the magnitude is at or
    /// below `EPSILON` (so a degenerate direction never yields garbage).
    pub fn normalize(&self) -> (r: Option<Vec3>)
        requires
            bounded3(self@, RAW_MAX as int / 2),
        ensures
            (magv(self@) <= EPSILON) <==> r is None,
            r is Some ==> r.unwrap()@ == normv(self@) && bounded3(r.unwrap()@, SCALE as int)
                && 500_000 <= magv(r.unwrap()@) <= 2 * SCALE,
    {
        let m = self.mag();
        if m <= EPSILON {
            None
        } else {
            proof {
                lemma_magv_comps(self@);
                lemma_fdiv_bound(self@.x, m as int, m as int, m as int);
                lemma_fdiv_bound(self@.y, m as int, m as int, m as int);
                lemma_fdiv_bound(self@.z, m as int, m as int, m as int);
                assert((m as int) * (SCALE as int) / (m as int) == SCALE as int)
                    by (nonlinear_arith)
                    requires
                        m >= 1,
                ;
            }
            let r = Vec3 { x: fdiv(self.x, m), y: fdiv(self.y, m), z: fdiv(self.z, m) };
            proof {
                lemma_norm_result(self@, r@);
            }
            Some(r)
        }
    }
}

/// With representable components, the wide intermediates of a dot product
/// fit comfortably in the 128-bit accumulators.
proof fn lemma_dot_products_fit(a: V3, b: V3)
    requires
        okv(a),
        okv(b),
    ensures
        abs_i(a.x * b.x) <= 0x1000_0000_0000_0000_0000_0000_0000_0000int,
        abs_i(a.y * b.y) <= 0x1000_0000_0000_0000_0000_0000_0000_0000int,
        abs_i(a.z * b.z) <= 0x1000_0000_0000_0000_0000_0000_0000_0000int,
{
    assert(abs_i(a.x * b.x) <= 0x1000_0000_0000_0000_0000_0000_0000_0000int && abs_i(a.y * b.y)
        <= 0x1000_0000_0000_0000_0000_0000_0000_0000int && abs_i(a.z * b.z)
        <= 0x1000_0000_0000_0000_0000_0000_0000_0000int) by (nonlinear_arith)
        requires
            abs_i(a.x) <= RAW_MAX as int && abs_i(a.y) <= RAW_MAX as int && abs_i(a.z)
                <= RAW_MAX as int && abs_i(b.x) <= RAW_MAX as int && abs_i(b.y) <= RAW_MAX as int
                && abs_i(b.z) <= RAW_MAX as int && RAW_MAX == 0x2000_0000_0000_0000i64,
    ;
}

/// A freshly normalized vector has magnitude close to one: at least `0.5`
/// and at most `2` world units.
pub proof fn lemma_norm_result(a: V3, r: V3)
    requires
        magv(a) > EPSILON,
        r == normv(a),
    ensures
        bounded3(r, SCALE as int),
        500_000 <= magv(r) <= 2 * SCALE,
{
    let m = magv(a);
    lemma_magv_comps(a);
    lemma_fdiv_bound(a.x, m, m, m);
    lemma_fdiv_bound(a.y, m, m, m);
    lemma_fdiv_bound(a.z, m, m, m);
    assert(m * (SCALE as int) / m == SCALE as int) by (nonlinear_arith)
        requires
            m >= 1,
    ;
    assert(bounded3(r, SCALE as int));
    lemma_magv_bound(r, SCALE as int);
    // Some component of `a` carries at least half the magnitude; after
    // dividing by the magnitude it is at least half a unit.
    assert(a.x * a.x + a.y * a.y + a.z * a.z >= 0) by (nonlinear_arith);
    let n = (a.x * a.x + a.y * a.y + a.z * a.z) as nat;
    lemma_sqrt_s(n);
    let xm = if abs_i(a.x) >= abs_i(a.y) && abs_i(a.x) >= abs_i(a.z) {
        abs_i(a.x)
    } else if abs_i(a.y) >= abs_i(a.z) {
        abs_i(a.y)
    } else {
        abs_i(a.z)
    };
    assert(m < 2 * xm) by (nonlinear_arith)
        requires
            n == a.x * a.x + a.y * a.y + a.z * a.z && m == sqrt_s(n) && m * m <= n && m > EPSILON
                && xm >= abs_i(a.x) && xm >= abs_i(a.y) && xm >= abs_i(a.z) && (xm == abs_i(a.x)
                || xm == abs_i(a.y) || xm == abs_i(a.z)),
    ;
    // fdiv_s of the dominant component against m is at least SCALE/2.
    assert(xm * (SCALE as int) / m >= 500_000) by (nonlinear_arith)
        requires
            0 < m < 2 * xm && SCALE == 1_000_000i64,
    ;
    lemma_magv_comps(r);
    assert(abs_i(fdiv_s(a.x, m)) == abs_i(a.x) * (SCALE as int) / m && abs_i(fdiv_s(a.y, m))
        == abs_i(a.y) * (SCALE as int) / m && abs_i(fdiv_s(a.z, m)) == abs_i(a.z) * (SCALE as int)
        / m) by {
        lemma_fdiv_abs_all(a, m);
    };
    if xm == abs_i(a.x) {
        assert(abs_i(r.x) >= 500_000);
    } else if xm == abs_i(a.y) {
        assert(abs_i(r.y) >= 500_000);
    } else {
        assert(abs_i(r.z) >= 500_000);
    }
}

/// Magnitude form of `fdiv_s` against a positive divisor.
proof fn lemma_fdiv_abs_all(a: V3, m: int)
    requires
        m > 0,
    ensures
        abs_i(fdiv_s(a.x, m)) == abs_i(a.x) * (SCALE as int) / m,
        abs_i(fdiv_s(a.y, m)) == abs_i(a.y) * (SCALE as int) / m,
        abs_i(fdiv_s(a.z, m)) == abs_i(a.z) * (SCALE as int) / m,
{
    lemma_fdiv_abs(a.x, m);
    lemma_fdiv_abs(a.y, m);
    lemma_fdiv_abs(a.z, m);
}

proof fn lemma_fdiv_abs(x: int, m: int)
    requires
        m > 0,
    ensures
        abs_i(fdiv_s(x, m)) == abs_i(x) * (SCALE as int) / m,
{
    assert(abs_i(x * (SCALE as int)) == abs_i(x) * (SCALE as int)) by (nonlinear_arith);
    assert(abs_i(x * (SCALE as int)) / m >= 0) by (nonlinear_arith)
        requires
            abs_i(x * (SCALE as int)) >= 0 && m > 0,
    ;
}

/// A product of two representable scalars fits the wide accumulators.
proof fn lemma_prod128(x: int, y: int)
    requires
        abs_i(x) <= RAW_MAX,
        abs_i(y) <= RAW_MAX,
    ensures
        abs_i(x * y) <= 0x400_0000_0000_0000_0000_0000_0000_0000int,
{
    assert(abs_i(x * y) <= 0x400_0000_0000_0000_0000_0000_0000_0000int) by (nonlinear_arith)
        requires
            abs_i(x) <= RAW_MAX as int && abs_i(y) <= RAW_MAX as int && RAW_MAX
                == 0x2000_0000_0000_0000i64,
    ;
}

impl Vec3 {
    /// Checked componentwise sum.
    pub fn plus_c(&self, other: &Vec3) -> (r: Option<Vec3>)
        requires
            okv(self@),
            okv(other@),
        ensures
            add3_fits(self@, other@) ==> r is Some && r.unwrap()@ == addv(self@, other@),
            !add3_fits(self@, other@) ==> r is None,
    {
        let x = self.x + other.x;
        let y = self.y + other.y;
        let z = self.z + other.z;
        if x > RAW_MAX || x < -RAW_MAX || y > RAW_MAX || y < -RAW_MAX || z > RAW_MAX || z
            < -RAW_MAX {
            None
        } else {
            Some(Vec3 { x, y, z })
        }
    }

    /// Checked componentwise difference.
    pub fn minus_c(&self, other: &Vec3) -> (r: Option<Vec3>)
        requires
            okv(self@),
            okv(other@),
        ensures
            sub3_fits(self@, other@) ==> r is Some && r.unwrap()@ == subv(self@, other@),
            !sub3_fits(self@, other@) ==> r is None,
    {
        let x = self.x - other.x;
        let y = self.y - other.y;
        let z = self.z - other.z;
        if x > RAW_MAX || x < -RAW_MAX || y > RAW_MAX || y < -RAW_MAX || z > RAW_MAX || z
            < -RAW_MAX {
            None
        } else {
            Some(Vec3 { x, y, z })
        }
    }

    /// Checked dot product.
    pub fn dot_c(&self, other: &Vec3) -> (r: Option<i64>)
        requires
            okv(self@),
            okv(other@),
        ensures
            in_range(dotv(self@, other@)) ==> r == Some(dotv(self@, other@) as i64),
            !in_range(dotv(self@, other@)) ==> r is None,
    {
        proof {
            lemma_dot_products_fit(self@, other@);
        }
        let s: i128 = (self.x as i128) * (other.x as i128) + (self.y as i128) * (other.y as i128)
            + (self.z as i128) * (other.z as i128);
        crate::fixed::tdiv_scale_c(s)
    }

    /// Checked cross product.
    pub fn cross_c(&self, other: &Vec3) -> (r: Option<Vec3>)
        requires
            okv(self@),
            okv(other@),
        ensures
            cross_fits(self@, other@) ==> r is Some && r.unwrap()@ == crossv(self@, other@),
            !cross_fits(self@, other@) ==> r is None,
    {
        let p0 = fmul_c(self.y, other.z);
        let p1 = fmul_c(self.z, other.y);
        let p2 = fmul_c(self.z, other.x);
        let p3 = fmul_c(self.x, other.z);
        let p4 = fmul_c(self.x, other.y);
        let p5 = fmul_c(self.y, other.x);
        match (p0, p1, p2, p3, p4, p5) {
            (Some(a0), Some(a1), Some(a2), Some(a3), Some(a4), Some(a5)) => {
                let x = a0 - a1;
                let y = a2 - a3;
                let z = a4 - a5;
                if x > RAW_MAX || x < -RAW_MAX || y > RAW_MAX || y < -RAW_MAX || z > RAW_MAX || z
                    < -RAW_MAX {
                    None
                } else {
                    Some(Vec3 { x, y, z })
                }
            },
            _ => None,
        }
    }

    /// Checked scaling by a fixed-point factor.
    pub fn scaled_c(&self, s: i64) -> (r: Option<Vec3>)
        ensures
            smul_fits(self@, s as int) ==> r is Some && r.unwrap()@ == smulv(self@, s as int),
            !smul_fits(self@, s as int) ==> r is None,
    {
        let p0 = fmul_c(self.x, s);
        let p1 = fmul_c(self.y, s);
        let p2 = fmul_c(self.z, s);
        match (p0, p1, p2) {
            (Some(x), Some(y), Some(z)) => Some(Vec3 { x, y, z }),
            _ => None,
        }
    }
}

/// Whether a componentwise sum stays representable.
pub open spec fn add3_fits(a: V3, b: V3) -> bool {
    in_range(a.x + b.x) && in_range(a.y + b.y) && in_range(a.z + b.z)
}

/// Whether a componentwise difference stays representable.
pub open spec fn sub3_fits(a: V3, b: V3) -> bool {
    in_range(a.x - b.x) && in_range(a.y - b.y) && in_range(a.z - b.z)
}

/// Ghost model of a quaternion.
pub struct Q4 {
    pub r: int,
    pub x: int,
    pub y: int,
    pub z: int,
}

/// All four components within `b` in magnitude.
pub open spec fn bounded_q(a: Q4, b: int) -> bool {
    abs_i(a.r) <= b && abs_i(a.x) <= b && abs_i(a.y) <= b && abs_i(a.z) <= b
}

pub open spec fn okq(a: Q4) -> bool {
    bounded_q(a, RAW_MAX as int)
}

/// The Hamilton product in fixed point: each component is the exact sum of
/// products, truncated once.
pub open spec fn qmul_s(a: Q4, b: Q4) -> Q4 {
    Q4 {
        r: tdiv(a.r * b.r - a.x * b.x - a.y * b.y - a.z * b.z, SCALE as int),
        x: tdiv(a.r * b.x + b.r * a.x + a.y * b.z - a.z * b.y, SCALE as int),
        y: tdiv(a.r * b.y - a.x * b.z + a.y * b.r + a.z * b.x, SCALE as int),
        z: tdiv(a.r * b.z + a.x * b.y - a.y * b.x + a.z * b.r, SCALE as int),
    }
}

pub open spec fn qmul_fits(a: Q4, b: Q4) -> bool {
    &&& in_range(qmul_s(a, b).r)
    &&& in_range(qmul_s(a, b).x)
    &&& in_range(qmul_s(a, b).y)
    &&& in_range(qmul_s(a, b).z)
}

pub open spec fn conj_q(a: Q4) -> Q4 {
    Q4 { r: a.r, x: -a.x, y: -a.y, z: -a.z }
}

pub open spec fn from_vec_q(v: V3) -> Q4 {
    Q4 { r: 0, x: v.x, y: v.y, z: v.z }
}

pub open spec fn to_vec_q(a: Q4) -> V3 {
    V3 { x: a.x, y: a.y, z: a.z }
}

/// Quaternion magnitude in raw units (linear in the representation, like
/// `magv`).
pub open spec fn magq(a: Q4) -> int {
    sqrt_s((a.r * a.r + a.x * a.x + a.y * a.y + a.z * a.z) as nat) as int
}

/// The normalized quaternion (meaningful when `magq(a) > 0`).
pub open spec fn normq(a: Q4) -> Q4 {
    Q4 {
        r: fdiv_s(a.r, magq(a)),
        x: fdiv_s(a.x, magq(a)),
        y: fdiv_s(a.y, magq(a)),
        z: fdiv_s(a.z, magq(a)),
    }
}

/// Rotation of a vector by a quaternion: `q * (0, v) * conj(q)`.
pub open spec fn rotv(v: V3, q: Q4) -> V3 {
    to_vec_q(qmul_s(qmul_s(q, from_vec_q(v)), conj_q(q)))
}

/// Componentwise bound for the Hamilton product.
pub proof fn lemma_qmul_bound(a: Q4, b: Q4, ab: int, bb: int, c: int)
    requires
        bounded_q(a, ab),
        bounded_q(b, bb),
        4 * ab * bb <= c * (SCALE as int),
        0 <= c <= RAW_MAX,
    ensures
        bounded_q(qmul_s(a, b), c),
        qmul_fits(a, b),
{
    let t = ab * bb;
    assert(4 * ab * bb == 4 * t) by (nonlinear_arith)
        requires
            t == ab * bb,
    ;
    assert forall|x: int, y: int|
        ((abs_i(x) <= ab && abs_i(y) <= bb) || (abs_i(x) <= bb && abs_i(y)
            <= ab)) implies #[trigger] abs_i(x * y) <= t by {
        assert(abs_i(x * y) <= ab * bb) by (nonlinear_arith)
            requires
                t == ab * bb && ((abs_i(x) <= ab && abs_i(y) <= bb) || (abs_i(x) <= bb && abs_i(y)
                    <= ab)),
        ;
    }
    assert(abs_i(a.r * b.r) <= t && abs_i(a.x * b.x) <= t && abs_i(a.y * b.y) <= t && abs_i(
        a.z * b.z,
    ) <= t);
    assert(abs_i(a.r * b.x) <= t && abs_i(b.r * a.x) <= t && abs_i(a.y * b.z) <= t && abs_i(
        a.z * b.y,
    ) <= t);
    assert(abs_i(a.r * b.y) <= t && abs_i(a.x * b.z) <= t && abs_i(a.y * b.r) <= t && abs_i(
        a.z * b.x,
    ) <= t);
    assert(abs_i(a.r * b.z) <= t && abs_i(a.x * b.y) <= t && abs_i(a.y * b.x) <= t && abs_i(
        a.z * b.r,
    ) <= t);
    lemma_tdiv_bound(a.r * b.r - a.x * b.x - a.y * b.y - a.z * b.z, SCALE as int, c * (
    SCALE as int));
    lemma_tdiv_bound(a.r * b.x + b.r * a.x + a.y * b.z - a.z * b.y, SCALE as int, c * (
    SCALE as int));
    lemma_tdiv_bound(a.r * b.y - a.x * b.z + a.y * b.r + a.z * b.x, SCALE as int, c * (
    SCALE as int));
    lemma_tdiv_bound(a.r * b.z + a.x * b.y - a.y * b.x + a.z * b.r, SCALE as int, c * (
    SCALE as int));
    assert((c * (SCALE as int)) / (SCALE as int) == c) by (nonlinear_arith)
        requires
            SCALE == 1_000_000i64,
    ;
}

/// A world-space rotation (or any quaternion) in fixed-point coordinates.
#[derive(Clone, Copy, Debug)]
pub struct Quaternion {
    pub real: i64,
    pub x: i64,
    pub y: i64,
    pub z: i64,
}

impl View for Quaternion {
    type V = Q4;

    open spec fn view(&self) -> Q4 {
        Q4 { r: self.real as int, x: self.x as int, y: self.y as int, z: self.z as int }
    }
}

impl Default for Quaternion {
    /// The identity rotation.
    fn default() -> (r: Quaternion)
        ensures
            r@ == (Q4 { r: SCALE as int, x: 0, y: 0, z: 0 }),
    {
        Quaternion { real: SCALE, x: 0, y: 0, z: 0 }
    }
}

impl Quaternion {
    /// The zero quaternion.
    pub fn zero() -> (r: Quaternion)
        ensures
            r@ == (Q4 { r: 0, x: 0, y: 0, z: 0 }),
    {
        Quaternion { real: 0, x: 0, y: 0, z: 0 }
    }

    /// A pure (real part zero) quaternion from a vector.
    pub fn from_vec3(vec3: &Vec3) -> (r: Quaternion)
        ensures
            r@ == from_vec_q(vec3@),
    {
        Quaternion { real: 0, x: vec3.x, y: vec3.y, z: vec3.z }
    }

    /// The vector part.
    pub fn to_vec3(&self) -> (r: Vec3)
        ensures
            r@ == to_vec_q(self@),
    {
        Vec3 { x: self.x, y: self.y, z: self.z }
    }

    /// The conjugate (the inverse, for unit quaternions).
    pub fn conj(&self) -> (r: Quaternion)
        requires
            okq(self@),
        ensures
            r@ == conj_q(self@),
    {
        Quaternion { real: self.real, x: -self.x, y: -self.y, z: -self.z }
    }

    /// The Hamilton product; callers bound the operands so each component
    /// stays representable.
    pub fn qmul(&self, other: &Quaternion) -> (r: Quaternion)
        requires
            okq(self@),
            okq(other@),
            qmul_fits(self@, other@),
        ensures
            r@ == qmul_s(self@, other@),
    {
        proof {
            lemma_prod128(self@.r, other@.r);
            lemma_prod128(self@.r, other@.x);
            lemma_prod128(self@.r, other@.y);
            lemma_prod128(self@.r, other@.z);
            lemma_prod128(self@.x, other@.r);
            lemma_prod128(self@.x, other@.x);
            lemma_prod128(self@.x, other@.y);
            lemma_prod128(self@.x, other@.z);
            lemma_prod128(self@.y, other@.r);
            lemma_prod128(self@.y, other@.x);
            lemma_prod128(self@.y, other@.y);
            lemma_prod128(self@.y, other@.z);
            lemma_prod128(self@.z, other@.r);
            lemma_prod128(self@.z, other@.x);
            lemma_prod128(self@.z, other@.y);
            lemma_prod128(self@.z, other@.z);
        }
        let (r1, x1, y1, z1) = (self.real as i128, self.x as i128, self.y as i128, self.z as i128);
        let (r2, x2, y2, z2) = (
            other.real as i128,
            other.x as i128,
            other.y as i128,
            other.z as i128,
        );
        let sr: i128 = r1 * r2 - x1 * x2 - y1 * y2 - z1 * z2;
        let sx: i128 = r1 * x2 + r2 * x1 + y1 * z2 - z1 * y2;
        let sy: i128 = r1 * y2 - x1 * z2 + y1 * r2 + z1 * x2;
        let sz: i128 = r1 * z2 + x1 * y2 - y1 * x2 + z1 * r2;
        Quaternion {
            real: tdiv_scale(sr),
            x: tdiv_scale(sx),
            y: tdiv_scale(sy),
            z: tdiv_scale(sz),
        }
    }

    /// Quaternion magnitude (rounded down).
    pub fn mag(&self) -> (r: i64)
        requires
            bounded_q(self@, RAW_MAX as int / 2),
        ensures
            r == magq(self@),
            0 <= r <= RAW_MAX,
    {
        let ar = abs_u64(self.real);
        let ax = abs_u64(self.x);
        let ay = abs_u64(self.y);
        let az = abs_u64(self.z);
        proof {
            assert((ar as int) * (ar as int) == self@.r * self@.r && (ax as int) * (ax as int)
                == self@.x * self@.x && (ay as int) * (ay as int) == self@.y * self@.y && (
            az as int) * (az as int) == self@.z * self@.z) by (nonlinear_arith)
                requires
                    ar == abs_i(self@.r) && ax == abs_i(self@.x) && ay == abs_i(self@.y) && az
                        == abs_i(self@.z),
            ;
            assert forall|w: int|
                0 <= w <= RAW_MAX as int implies #[trigger] (w * w)
                <= 0x1000_0000_0000_0000_0000_0000_0000_0000int by {
                assert(w * w <= 0x1000_0000_0000_0000_0000_0000_0000_0000int) by (nonlinear_arith)
                    requires
                        0 <= w <= 0x2000_0000_0000_0000int,
                ;
            }
        }
        let n: u128 = (ar as u128) * (ar as u128) + (ax as u128) * (ax as u128) + (ay as u128) * (
        ay as u128) + (az as u128) * (az as u128);
        let r = isqrt(n);
        proof {
            lemma_magq_bound(self@, RAW_MAX as int / 2);
        }
        r as i64
    }

    /// The unit quaternion along `self`, or `None` for the zero quaternion.
    /// A quaternion of at least half a unit renormalizes to within a few
    /// raw steps of unit magnitude.
    pub fn normalize(&self) -> (r: Option<Quaternion>)
        requires
            bounded_q(self@, RAW_MAX as int / 2),
        ensures
            (magq(self@) == 0) <==> r is None,
            r is Some ==> r.unwrap()@ == normq(self@) && bounded_q(r.unwrap()@, SCALE as int),
            magq(self@) >= SCALE as int / 2 ==> r is Some && SCALE as int - 5 <= magq(
                r.unwrap()@,
            ) <= SCALE as int + 1,
    {
        proof {
            if magq(self@) >= SCALE as int / 2 {
                lemma_normq_unit(self@);
            }
        }
        let m = self.mag();
        if m == 0 {
            None
        } else {
            proof {
                lemma_magq_comps(self@);
                lemma_fdiv_bound(self@.r, m as int, m as int, m as int);
                lemma_fdiv_bound(self@.x, m as int, m as int, m as int);
                lemma_fdiv_bound(self@.y, m as int, m as int, m as int);
                lemma_fdiv_bound(self@.z, m as int, m as int, m as int);
                assert((m as int) * (SCALE as int) / (m as int) == SCALE as int)
                    by (nonlinear_arith)
                    requires
                        m >= 1,
                ;
            }
            Some(
                Quaternion {
                    real: fdiv(self.real, m),
                    x: fdiv(self.x, m),
                    y: fdiv(self.y, m),
                    z: fdiv(self.z, m),
                },
            )
        }
    }
}

/// Each component is at most the quaternion magnitude.
pub proof fn lemma_magq_comps(a: Q4)
    ensures
        abs_i(a.r) <= magq(a),
        abs_i(a.x) <= magq(a),
        abs_i(a.y) <= magq(a),
        abs_i(a.z) <= magq(a),
        magq(a) >= 0,
{
    assert(a.r * a.r + a.x * a.x + a.y * a.y + a.z * a.z >= 0) by (nonlinear_arith);
    let n = (a.r * a.r + a.x * a.x + a.y * a.y + a.z * a.z) as nat;
    lemma_sqrt_s(n);
    let s = sqrt_s(n);
    assert(abs_i(a.r) <= s && abs_i(a.x) <= s && abs_i(a.y) <= s && abs_i(a.z) <= s)
        by (nonlinear_arith)
        requires
            n == a.r * a.r + a.x * a.x + a.y * a.y + a.z * a.z && n < (s + 1) * (s + 1) && s >= 0,
    ;
}

/// One component of a rounded quotient, squared and scaled back up:
/// `m^2 * (e/m)^2` sits between `e^2 - 2*m*e` and `e^2`.
proof fn lemma_div_sq_bounds(e: int, m: int)
    requires
        m > 0,
        e >= 0,
    ensures
        m * m * ((e / m) * (e / m)) <= e * e,
        m * m * ((e / m) * (e / m)) >= e * e - 2 * m * e,
{
    vstd::arithmetic::div_mod::lemma_fundamental_div_mod(e, m);
    let q = e / m;
    let rem = e % m;
    assert(0 <= rem < m);
    assert(e == m * q + rem);
    assert(q >= 0) by (nonlinear_arith)
        requires
            e == m * q + rem && 0 <= rem < m && e >= 0 && m > 0,
    ;
    assert(m * m * (q * q) <= e * e) by (nonlinear_arith)
        requires
            e == m * q + rem && 0 <= rem && q >= 0 && m > 0,
    ;
    if e >= m {
        assert(m * m * (q * q) >= e * e - 2 * m * e) by (nonlinear_arith)
            requires
                e == m * q + rem && 0 <= rem < m && q >= 0 && m > 0 && e >= m,
        ;
    } else {
        assert(q == 0) by (nonlinear_arith)
            requires
                e == m * q + rem && 0 <= rem < m && q >= 0 && m > 0 && 0 <= e < m,
        ;
        assert(e * e - 2 * m * e <= 0) by (nonlinear_arith)
            requires
                0 <= e < m,
        ;
        assert(m * m * (0int * 0int) == 0) by (nonlinear_arith);
    }
}

/// Renormalizing a quaternion whose magnitude is at least half a unit
/// yields a unit quaternion, up to a few raw steps of rounding.
pub proof fn lemma_normq_unit(a: Q4)
    requires
        bounded_q(a, RAW_MAX as int / 2),
        magq(a) >= SCALE as int / 2,
    ensures
        SCALE as int - 5 <= magq(normq(a)) <= SCALE as int + 1,
{
    let m = magq(a);
    assert(a.r * a.r + a.x * a.x + a.y * a.y + a.z * a.z >= 0) by (nonlinear_arith);
    let n = (a.r * a.r + a.x * a.x + a.y * a.y + a.z * a.z) as nat;
    lemma_sqrt_s(n);
    lemma_magq_comps(a);
    let er = abs_i(a.r) * (SCALE as int);
    let ex = abs_i(a.x) * (SCALE as int);
    let ey = abs_i(a.y) * (SCALE as int);
    let ez = abs_i(a.z) * (SCALE as int);
    lemma_fdiv_abs(a.r, m);
    lemma_fdiv_abs(a.x, m);
    lemma_fdiv_abs(a.y, m);
    lemma_fdiv_abs(a.z, m);
    let out = normq(a);
    // The output components squared are the scaled, rounded quotients.
    assert(out.r * out.r == (er / m) * (er / m) && out.x * out.x == (ex / m) * (ex / m) && out.y
        * out.y == (ey / m) * (ey / m) && out.z * out.z == (ez / m) * (ez / m))
        by (nonlinear_arith)
        requires
            abs_i(out.r) == er / m && abs_i(out.x) == ex / m && abs_i(out.y) == ey / m && abs_i(
                out.z,
            ) == ez / m,
    ;
    lemma_div_sq_bounds(er, m);
    lemma_div_sq_bounds(ex, m);
    lemma_div_sq_bounds(ey, m);
    lemma_div_sq_bounds(ez, m);
    let tt = out.r * out.r + out.x * out.x + out.y * out.y + out.z * out.z;
    // Scale the sum of squares back up and bound it both ways.
    assert(er * er + ex * ex + ey * ey + ez * ez == (SCALE as int) * (SCALE as int) * n)
        by (nonlinear_arith)
        requires
            er == abs_i(a.r) * (SCALE as int) && ex == abs_i(a.x) * (SCALE as int) && ey == abs_i(
                a.y,
            ) * (SCALE as int) && ez == abs_i(a.z) * (SCALE as int) && n == a.r * a.r + a.x * a.x
                + a.y * a.y + a.z * a.z,
    ;
    assert(er + ex + ey + ez <= 4 * m * (SCALE as int)) by (nonlinear_arith)
        requires
            er == abs_i(a.r) * (SCALE as int) && ex == abs_i(a.x) * (SCALE as int) && ey == abs_i(
                a.y,
            ) * (SCALE as int) && ez == abs_i(a.z) * (SCALE as int) && abs_i(a.r) <= m && abs_i(
                a.x,
            ) <= m && abs_i(a.y) <= m && abs_i(a.z) <= m && SCALE == 1_000_000i64 && m >= 0,
    ;
    // Upper: m^2 * tt <= SCALE^2 * n <= SCALE^2 * (m^2 + 2m) < m^2 * (SCALE + 2)^2.
    assert(m * m * tt <= (SCALE as int) * (SCALE as int) * n) by (nonlinear_arith)
        requires
            m * m * (out.r * out.r) <= er * er && m * m * (out.x * out.x) <= ex * ex && m * m * (
            out.y * out.y) <= ey * ey && m * m * (out.z * out.z) <= ez * ez && tt == out.r * out.r
                + out.x * out.x + out.y * out.y + out.z * out.z && er * er + ex * ex + ey * ey + ez
                * ez == (SCALE as int) * (SCALE as int) * n,
    ;
    assert(tt < (SCALE as int + 2) * (SCALE as int + 2)) by (nonlinear_arith)
        requires
            m * m * tt <= (SCALE as int) * (SCALE as int) * n && n < (m + 1) * (m + 1) && m
                >= SCALE as int / 2 && SCALE == 1_000_000i64 && tt >= 0,
    ;
    // Lower: m^2 * tt >= SCALE^2 * n - 2 * m * SCALE * (sum of e) >= m^2 * (SCALE^2 - 8 SCALE).
    assert(m * m * tt >= (SCALE as int) * (SCALE as int) * n - 2 * m * (er + ex + ey + ez))
        by (nonlinear_arith)
        requires
            m * m * (out.r * out.r) >= er * er - 2 * m * er && m * m * (out.x * out.x) >= ex * ex
                - 2 * m * ex && m * m * (out.y * out.y) >= ey * ey - 2 * m * ey && m * m * (out.z
                * out.z) >= ez * ez - 2 * m * ez && tt == out.r * out.r + out.x * out.x + out.y
                * out.y + out.z * out.z && er * er + ex * ex + ey * ey + ez * ez == (SCALE as int)
                * (SCALE as int) * n,
    ;
    assert(tt >= ((SCALE as int) - 5) * ((SCALE as int) - 5)) by (nonlinear_arith)
        requires
            m * m * tt >= (SCALE as int) * (SCALE as int) * n - 2 * m * (er + ex + ey + ez) && er
                + ex + ey + ez <= 4 * m * (SCALE as int) && n >= m * m && m >= SCALE as int / 2
                && SCALE == 1_000_000i64,
    ;
    // Read the bracket of the output magnitude off the integer square root.
    assert(tt >= 0) by (nonlinear_arith)
        requires
            tt == out.r * out.r + out.x * out.x + out.y * out.y + out.z * out.z,
    ;
    lemma_sqrt_s(tt as nat);
    let s = sqrt_s(tt as nat) as int;
    assert(s == magq(out));
    assert(s <= SCALE as int + 1) by (nonlinear_arith)
        requires
            s * s <= tt && tt < (SCALE as int + 2) * (SCALE as int + 2) && s >= 0 && SCALE
                == 1_000_000i64,
    ;
    assert(s >= SCALE as int - 5) by (nonlinear_arith)
        requires
            tt < (s + 1) * (s + 1) && tt >= ((SCALE as int) - 5) * ((SCALE as int) - 5) && s >= 0
                && SCALE == 1_000_000i64,
    ;
}

/// The magnitude is at most twice the largest component bound.
pub proof fn lemma_magq_bound(a: Q4, b: int)
    requires
        bounded_q(a, b),
    ensures
        0 <= magq(a) <= 2 * b,
{
    assert(a.r * a.r + a.x * a.x + a.y * a.y + a.z * a.z >= 0) by (nonlinear_arith);
    let n = (a.r * a.r + a.x * a.x + a.y * a.y + a.z * a.z) as nat;
    lemma_sqrt_s(n);
    let s = sqrt_s(n);
    assert(a.r * a.r <= b * b && a.x * a.x <= b * b && a.y * a.y <= b * b && a.z * a.z <= b * b)
        by (nonlinear_arith)
        requires
            abs_i(a.r) <= b && abs_i(a.x) <= b && abs_i(a.y) <= b && abs_i(a.z) <= b,
    ;
    assert(s <= 2 * b) by (nonlinear_arith)
        requires
            s * s <= n && n <= 4 * (b * b) && s >= 0 && b >= 0,
    ;
}

/// Ghost model of a 3x3 matrix: nine unbounded integers, column major (entry
/// `col * 3 + row`), as the renderer layout expects.
pub struct M3 {
    pub a: Seq<int>,
}

/// Nine entries, each within `b` in magnitude.
pub open spec fn bounded_m3(m: M3, b: int) -> bool {
    m.a.len() == 9 && forall|k: int| 0 <= k < 9 ==> abs_i(#[trigger] m.a[k]) <= b
}

pub open spec fn ok_m3(m: M3) -> bool {
    bounded_m3(m, RAW_MAX as int)
}

/// Matrix-vector product in fixed point (column-major layout).
pub open spec fn mvmul_s(m: M3, v: V3) -> V3 {
    V3 {
        x: tdiv(m.a[0] * v.x + m.a[3] * v.y + m.a[6] * v.z, SCALE as int),
        y: tdiv(m.a[1] * v.x + m.a[4] * v.y + m.a[7] * v.z, SCALE as int),
        z: tdiv(m.a[2] * v.x + m.a[5] * v.y + m.a[8] * v.z, SCALE as int),
    }
}

pub open spec fn mvmul_fits(m: M3, v: V3) -> bool {
    in_range(mvmul_s(m, v).x) && in_range(mvmul_s(m, v).y) && in_range(mvmul_s(m, v).z)
}

/// The rotation matrix of a quaternion, from expanding `q * v * conj(q)`;
/// each product is one fixed-point multiplication.
pub open spec fn mat3_of_q(q: Q4) -> M3 {
    let prr = fmul_s(q.r, q.r);
    let pxx = fmul_s(q.x, q.x);
    let pyy = fmul_s(q.y, q.y);
    let pzz = fmul_s(q.z, q.z);
    let prx = fmul_s(q.r, q.x);
    let pry = fmul_s(q.r, q.y);
    let prz = fmul_s(q.r, q.z);
    let pxy = fmul_s(q.x, q.y);
    let pxz = fmul_s(q.x, q.z);
    let pyz = fmul_s(q.y, q.z);
    M3 {
        a: seq![
            prr + pxx - pyy - pzz,
            2 * prz + 2 * pxy,
            -2 * pry + 2 * pxz,
            -2 * prz + 2 * pxy,
            prr + pyy - pxx - pzz,
            2 * prx + 2 * pyz,
            2 * pry + 2 * pxz,
            -2 * prx + 2 * pyz,
            prr + pzz - pxx - pyy,
        ],
    }
}

/// A 3x3 matrix of fixed-point entries, column major.
#[derive(Clone, Copy, Debug)]
pub struct Mat3 {
    pub array: [i64; 9],
}

impl View for Mat3 {
    type V = M3;

    open spec fn view(&self) -> M3 {
        M3 { a: Seq::new(9, |i: int| self.array@[i] as int) }
    }
}

impl Mat3 {
    /// The zero matrix.
    pub fn zero() -> (r: Mat3)
        ensures
            r@.a.len() == 9,
            forall|k: int| 0 <= k < 9 ==> r@.a[k] == 0,
    {
        Mat3 { array: [0, 0, 0, 0, 0, 0, 0, 0, 0] }
    }

    /// The transposed matrix.
    pub fn transpose(&self) -> (r: Mat3)
        ensures
            r@.a.len() == 9,
            forall|c: int, w: int|
                0 <= c < 3 && 0 <= w < 3 ==> r@.a[#[trigger] (c * 3 + w)] == self@.a[w * 3 + c],
    {
        let m = &self.array;
        Mat3 { array: [m[0], m[3], m[6], m[1], m[4], m[7], m[2], m[5], m[8]] }
    }

    /// Checked matrix-vector product.
    pub fn mul_vec_c(&self, v: &Vec3) -> (r: Option<Vec3>)
        requires
            ok_m3(self@),
            okv(v@),
        ensures
            mvmul_fits(self@, v@) ==> r is Some && r.unwrap()@ == mvmul_s(self@, v@),
            !mvmul_fits(self@, v@) ==> r is None,
    {
        let m = &self.array;
        proof {
            lemma_prod128(self@.a[0], v@.x);
            lemma_prod128(self@.a[3], v@.y);
            lemma_prod128(self@.a[6], v@.z);
            lemma_prod128(self@.a[1], v@.x);
            lemma_prod128(self@.a[4], v@.y);
            lemma_prod128(self@.a[7], v@.z);
            lemma_prod128(self@.a[2], v@.x);
            lemma_prod128(self@.a[5], v@.y);
            lemma_prod128(self@.a[8], v@.z);
        }
        let sx: i128 = (m[0] as i128) * (v.x as i128) + (m[3] as i128) * (v.y as i128) + (
        m[6] as i128) * (v.z as i128);
        let sy: i128 = (m[1] as i128) * (v.x as i128) + (m[4] as i128) * (v.y as i128) + (
        m[7] as i128) * (v.z as i128);
        let sz: i128 = (m[2] as i128) * (v.x as i128) + (m[5] as i128) * (v.y as i128) + (
        m[8] as i128) * (v.z as i128);
        let rx = crate::fixed::tdiv_scale_c(sx);
        let ry = crate::fixed::tdiv_scale_c(sy);
        let rz = crate::fixed::tdiv_scale_c(sz);
        match (rx, ry, rz) {
            (Some(x), Some(y), Some(z)) => Some(Vec3 { x, y, z }),
            _ => None,
        }
    }
}

impl Quaternion {
    /// Expand this rotation into a column-major matrix.
    #[verifier::rlimit(50)]
    pub fn to_mat3(&self) -> (r: Mat3)
        requires
            bounded_q(self@, 2 * SCALE as int),
        ensures
            r@ == mat3_of_q(self@),
            bounded_m3(r@, 16 * SCALE as int),
    {
        proof {
            lemma_mat3_prods(self@);
        }
        let (r, x, y, z) = (self.real, self.x, self.y, self.z);
        let prr = fmul(r, r);
        let pxx = fmul(x, x);
        let pyy = fmul(y, y);
        let pzz = fmul(z, z);
        let prx = fmul(r, x);
        let pry = fmul(r, y);
        let prz = fmul(r, z);
        let pxy = fmul(x, y);
        let pxz = fmul(x, z);
        let pyz = fmul(y, z);
        let e0 = prr + pxx - pyy - pzz;
        let e1 = 2 * prz + 2 * pxy;
        let e2 = 2 * pxz - 2 * pry;
        let e3 = 2 * pxy - 2 * prz;
        let e4 = prr + pyy - pxx - pzz;
        let e5 = 2 * prx + 2 * pyz;
        let e6 = 2 * pry + 2 * pxz;
        let e7 = 2 * pyz - 2 * prx;
        let e8 = prr + pzz - pxx - pyy;
        let out = Mat3 { array: [e0, e1, e2, e3, e4, e5, e6, e7, e8] };
        proof {
            let m = mat3_of_q(self@);
            assert(out@.a.len() == 9 && m.a.len() == 9);
            assert(out@.a[0] == m.a[0]);
            assert(out@.a[1] == m.a[1]);
            assert(out@.a[2] == m.a[2]);
            assert(out@.a[3] == m.a[3]);
            assert(out@.a[4] == m.a[4]);
            assert(out@.a[5] == m.a[5]);
            assert(out@.a[6] == m.a[6]);
            assert(out@.a[7] == m.a[7]);
            assert(out@.a[8] == m.a[8]);
            assert(out@.a =~= m.a);
        }
        out
    }
}

/// Every pairwise product of the components of a rotation-sized quaternion
/// is a small fixed-point value.
proof fn lemma_mat3_prods(q: Q4)
    requires
        bounded_q(q, 2 * SCALE as int),
    ensures
        in_range(fmul_s(q.r, q.r)) && abs_i(fmul_s(q.r, q.r)) <= 4 * SCALE as int,
        in_range(fmul_s(q.x, q.x)) && abs_i(fmul_s(q.x, q.x)) <= 4 * SCALE as int,
        in_range(fmul_s(q.y, q.y)) && abs_i(fmul_s(q.y, q.y)) <= 4 * SCALE as int,
        in_range(fmul_s(q.z, q.z)) && abs_i(fmul_s(q.z, q.z)) <= 4 * SCALE as int,
        in_range(fmul_s(q.r, q.x)) && abs_i(fmul_s(q.r, q.x)) <= 4 * SCALE as int,
        in_range(fmul_s(q.r, q.y)) && abs_i(fmul_s(q.r, q.y)) <= 4 * SCALE as int,
        in_range(fmul_s(q.r, q.z)) && abs_i(fmul_s(q.r, q.z)) <= 4 * SCALE as int,
        in_range(fmul_s(q.x, q.y)) && abs_i(fmul_s(q.x, q.y)) <= 4 * SCALE as int,
        in_range(fmul_s(q.x, q.z)) && abs_i(fmul_s(q.x, q.z)) <= 4 * SCALE as int,
        in_range(fmul_s(q.y, q.z)) && abs_i(fmul_s(q.y, q.z)) <= 4 * SCALE as int,
{
    lemma_fmul_bound(q.r, q.r, 2 * SCALE as int, 2 * SCALE as int);
    lemma_fmul_bound(q.x, q.x, 2 * SCALE as int, 2 * SCALE as int);
    lemma_fmul_bound(q.y, q.y, 2 * SCALE as int, 2 * SCALE as int);
    lemma_fmul_bound(q.z, q.z, 2 * SCALE as int, 2 * SCALE as int);
    lemma_fmul_bound(q.r, q.x, 2 * SCALE as int, 2 * SCALE as int);
    lemma_fmul_bound(q.r, q.y, 2 * SCALE as int, 2 * SCALE as int);
    lemma_fmul_bound(q.r, q.z, 2 * SCALE as int, 2 * SCALE as int);
    lemma_fmul_bound(q.x, q.y, 2 * SCALE as int, 2 * SCALE as int);
    lemma_fmul_bound(q.x, q.z, 2 * SCALE as int, 2 * SCALE as int);
    lemma_fmul_bound(q.y, q.z, 2 * SCALE as int, 2 * SCALE as int);
    assert((2 * SCALE as int) * (2 * SCALE as int) / (SCALE as int) == 4 * SCALE as int)
        by (nonlinear_arith)
        requires
            SCALE == 1_000_000i64,
    ;
}

/// A plane given by a point on it and a (roughly unit) normal.
#[derive(Clone, Copy, Debug)]
pub struct Plane {
    pub point: Vec3,
    pub normal: Vec3,
}

/// Component bound under which plane queries stay representable.
pub const PLANE_PT_MAX: i64 = 0x1_0000_0000_0000;

/// Signed distance from a point to the plane, in the direction of the
/// normal: the projection of the offset, divided by the normal's magnitude.
pub open spec fn dist_s(pp: V3, n: V3, p: V3) -> int {
    fdiv_s(dotv(subv(p, pp), n), magv(n))
}

/// Where the segment `a..b` crosses the plane: `None` for a segment parallel
/// to the plane (degenerate denominator) or one whose crossing parameter
/// falls outside `[0, 1]`.
pub open spec fn isect_s(pp: V3, n: V3, a: V3, b: V3) -> Option<V3> {
    let dir = subv(b, a);
    let num = dotv(subv(pp, a), n);
    let den = dotv(dir, n);
    if abs_i(den) <= EPSILON {
        None
    } else {
        let t = fdiv_s(num, den);
        if t < 0 || t > SCALE {
            None
        } else {
            Some(addv(a, smulv(dir, t)))
        }
    }
}

/// Bounds shared by the plane queries.
pub open spec fn plane_args_ok(pp: V3, n: V3, p: V3) -> bool {
    bounded3(pp, PLANE_PT_MAX as int) && bounded3(p, PLANE_PT_MAX as int) && bounded3(
        n,
        2 * SCALE as int,
    ) && magv(n) >= 500_000
}

/// The distance and the intermediate dot products stay representable.
pub proof fn lemma_dist_fits(pp: V3, n: V3, p: V3)
    requires
        plane_args_ok(pp, n, p),
    ensures
        abs_i(dotv(subv(p, pp), n)) <= 0x10_0000_0000_0000int,
        abs_i(dist_s(pp, n, p)) <= 0x20_0000_0000_0000int,
        in_range(dist_s(pp, n, p)),
{
    let d = subv(p, pp);
    assert(bounded3(d, 2 * PLANE_PT_MAX as int));
    lemma_plane_ground();
    lemma_dotv_bound(d, n, 2 * PLANE_PT_MAX as int, 2 * SCALE as int, 0x10_0000_0000_0000int);
    lemma_fdiv_bound(dotv(d, n), magv(n), 0x10_0000_0000_0000int, 500_000);
}

/// Ground arithmetic facts used by the plane bounds.
proof fn lemma_plane_ground()
    ensures
        3 * (2 * PLANE_PT_MAX as int) * (2 * SCALE as int) <= 0x10_0000_0000_0000int * (
        SCALE as int),
        0x10_0000_0000_0000int * (SCALE as int) / 500_000 == 0x20_0000_0000_0000int,
{
    assert(3 * (2 * PLANE_PT_MAX as int) * (2 * SCALE as int) <= 0x10_0000_0000_0000int * (
    SCALE as int) && 0x10_0000_0000_0000int * (SCALE as int) / 500_000
        == 0x20_0000_0000_0000int) by (nonlinear_arith)
        requires
            PLANE_PT_MAX == 0x1_0000_0000_0000i64 && SCALE == 1_000_000i64,
    ;
}

impl Plane {
    /// Signed distance from `point` to the plane.
    pub fn distance_to_point(&self, point: &Vec3) -> (r: i64)
        requires
            plane_args_ok(self.point@, self.normal@, point@),
        ensures
            r == dist_s(self.point@, self.normal@, point@),
            abs_i(r as int) <= 0x20_0000_0000_0000int,
    {
        proof {
            lemma_dist_fits(self.point@, self.normal@, point@);
        }
        let d = point.minus(&self.point);
        let num = d.dot(&self.normal);
        let m = self.normal.mag();
        fdiv(num, m)
    }

    /// The crossing of the segment `point1..point2` with the plane, when the
    /// segment is not parallel to it and the crossing lies between the two
    /// endpoints; the crossing stays componentwise between the endpoints.
    pub fn intersect_with_line_segment(&self, point1: &Vec3, point2: &Vec3) -> (r: Option<Vec3>)
        requires
            bounded3(self.point@, PLANE_PT_MAX as int),
            bounded3(point1@, PLANE_PT_MAX as int),
            bounded3(point2@, PLANE_PT_MAX as int),
            bounded3(self.normal@, 2 * SCALE as int),
        ensures
            ({
                let s = isect_s(self.point@, self.normal@, point1@, point2@);
                &&& (r is Some <==> s is Some)
                &&& (r is Some ==> r.unwrap()@ == s.unwrap())
                &&& (r is Some ==> between3(r.unwrap()@, point1@, point2@))
            }),
    {
        let dir = point2.minus(point1);
        let off = self.point.minus(point1);
        proof {
            assert(bounded3(dir@, 2 * PLANE_PT_MAX as int));
            assert(bounded3(off@, 2 * PLANE_PT_MAX as int));
            lemma_plane_ground();
            lemma_dotv_bound(
                off@,
                self.normal@,
                2 * PLANE_PT_MAX as int,
                2 * SCALE as int,
                0x10_0000_0000_0000int,
            );
            lemma_dotv_bound(
                dir@,
                self.normal@,
                2 * PLANE_PT_MAX as int,
                2 * SCALE as int,
                0x10_0000_0000_0000int,
            );
        }
        let num = off.dot(&self.normal);
        let den = dir.dot(&self.normal);
        let dabs = if den >= 0 {
            den
        } else {
            -den
        };
        if dabs <= EPSILON {
            return None;
        }
        let t = match crate::fixed::fdiv_c(num, den) {
            Some(t) => t,
            None => {
                // An unrepresentable crossing parameter is far outside [0, 1].
                return None;
            },
        };
        if t < 0 || t > SCALE {
            return None;
        }
        proof {
            lemma_fmul_convex(t as int, dir@.x);
            lemma_fmul_convex(t as int, dir@.y);
            lemma_fmul_convex(t as int, dir@.z);
            lemma_fmul_comm(t as int, dir@.x);
            lemma_fmul_comm(t as int, dir@.y);
            lemma_fmul_comm(t as int, dir@.z);
        }
        let sx = fmul(dir.x, t);
        let sy = fmul(dir.y, t);
        let sz = fmul(dir.z, t);
        let out = Vec3 { x: point1.x + sx, y: point1.y + sy, z: point1.z + sz };
        Some(out)
    }
}

/// Componentwise, `p` lies between `a` and `b`.
pub open spec fn between3(p: V3, a: V3, b: V3) -> bool {
    &&& (a.x <= p.x <= b.x || b.x <= p.x <= a.x)
    &&& (a.y <= p.y <= b.y || b.y <= p.y <= a.y)
    &&& (a.z <= p.z <= b.z || b.z <= p.z <= a.z)
}

/// Fixed-point multiplication is symmetric.
pub proof fn lemma_fmul_comm(a: int, b: int)
    ensures
        fmul_s(a, b) == fmul_s(b, a),
{
    assert(a * b == b * a) by (nonlinear_arith);
}

impl Vec3 {
    /// Rotate by a quaternion: `q * (0, v) * conj(q)`.
    pub fn rotate(&self, quaternion: Quaternion) -> (r: Vec3)
        requires
            bounded3(self@, ROTATE_IN_MAX as int),
            bounded_q(quaternion@, 2 * SCALE as int),
        ensures
            r@ == rotv(self@, quaternion@),
            bounded3(r@, ROTATE_OUT_MAX as int),
    {
        let qv = Quaternion::from_vec3(self);
        proof {
            lemma_qmul_bound(
                quaternion@,
                qv@,
                2 * SCALE as int,
                ROTATE_IN_MAX as int,
                8 * ROTATE_IN_MAX as int,
            );
        }
        let t = quaternion.qmul(&qv);
        let c = quaternion.conj();
        proof {
            assert(bounded_q(t@, 8 * ROTATE_IN_MAX as int));
            assert(bounded_q(c@, 2 * SCALE as int));
            assert(4 * (8 * ROTATE_IN_MAX as int) * (2 * SCALE as int) <= (64 * ROTATE_IN_MAX
                as int) * (SCALE as int)) by (nonlinear_arith)
                requires
                    ROTATE_IN_MAX == 0x100_0000_0000i64 && SCALE == 1_000_000i64,
            ;
            lemma_qmul_bound(
                t@,
                c@,
                8 * ROTATE_IN_MAX as int,
                2 * SCALE as int,
                64 * ROTATE_IN_MAX as int,
            );
        }
        let u = t.qmul(&c);
        u.to_vec3()
    }
}

} // verus!
