//! Rigid bodies ("cuboids"), their derived geometric state, and the world
//! that steps them.

use vstd::prelude::*;

verus! {

use crate::fixed::EPSILON;
use crate::fixed::RAW_MAX;
use crate::fixed::SCALE;
use crate::fixed::abs_i;
use crate::fixed::fdiv;
use crate::fixed::fdiv_s;
use crate::fixed::fmul;
use crate::fixed::fmul_s;
use crate::fixed::in_range;
use crate::fixed::lemma_fdiv_bound;
use crate::fixed::lemma_fmul_bound;
use crate::fixed::tdiv;
use crate::math::Mat3;
use crate::math::Q4;
use crate::math::Quaternion;
use crate::math::V3;
use crate::math::Vec3;
use crate::math::addv;
use crate::math::bounded3;
use crate::math::bounded_q;
use crate::math::lemma_magv_bound;
use crate::math::lemma_magv_comps;
use crate::math::magv;
use crate::math::negv;
use crate::math::normv;
use crate::math::okv;
use crate::math::rotv;
use crate::math::subv;

/// Largest position / velocity component a body may carry.
pub const POS_MAX: i64 = 0x2000_0000_0000;

/// Extents (full side lengths) lie between a millimetre-scale floor and a
/// few kilometres; zero-size boxes are excluded so masses stay meaningful.
pub const MIN_EXTENT: i64 = 1_000;

pub const MAX_EXTENT: i64 = 3_000_000_000;

/// Densities between `0.001` and `1000` mass units per volume proxy unit.
pub const MIN_DENSITY: i64 = 1_000;

pub const MAX_DENSITY: i64 = 1_000_000_000;

/// Bound on every derived corner coordinate.
pub const CORNER_MAX: i64 = 0x8000_0000_0000;

/// `1/12` in fixed point, for the box inertia formula.
pub const TWELFTH: i64 = 83_333;

/// How far from unit magnitude an orientation may drift (`1e-4` units):
/// room for a host quantizing a real unit quaternion to fixed point, and
/// for the few raw steps renormalization can leave behind.
pub const ROT_TOL: i64 = 100;

/// An axis-aligned bounding box.
#[derive(Debug, Default, Copy, Clone)]
pub struct AABB {
    pub min: Vec3,
    pub max: Vec3,
}

/// `min` at most `max` on every axis.
pub open spec fn aabb_wf(a: AABB) -> bool {
    a.min@.x <= a.max@.x && a.min@.y <= a.max@.y && a.min@.z <= a.max@.z
}

/// The separating-axis test on the three world axes: the boxes fail to
/// intersect exactly when some axis separates their intervals.
pub open spec fn aabb_isect(a: AABB, b: AABB) -> bool {
    !((a.min@.x > b.max@.x || a.min@.y > b.max@.y || a.min@.z > b.max@.z) || (a.max@.x < b.min@.x
        || a.max@.y < b.min@.y || a.max@.z < b.min@.z))
}

impl AABB {
    /// Build a box; a caller handing `min > max` is a programming error,
    /// ruled out by contract.
    pub fn new(min: Vec3, max: Vec3) -> (r: AABB)
        requires
            min@.x <= max@.x,
            min@.y <= max@.y,
            min@.z <= max@.z,
        ensures
            r.min == min,
            r.max == max,
            aabb_wf(r),
    {
        AABB { min, max }
    }

    /// Side lengths.
    pub fn get_dimensions(&self) -> (r: Vec3)
        requires
            in_range(self.max@.x - self.min@.x),
            in_range(self.max@.y - self.min@.y),
            in_range(self.max@.z - self.min@.z),
        ensures
            r@ == subv(self.max@, self.min@),
    {
        self.max.minus(&self.min)
    }

    /// Fast coarse rejection: do the boxes overlap on all three world axes?
    pub fn intersects(&self, other: &AABB) -> (r: bool)
        ensures
            r == aabb_isect(*self, *other),
    {
        !((self.min.x > other.max.x || self.min.y > other.max.y || self.min.z > other.max.z) || (
        self.max.x < other.min.x || self.max.y < other.min.y || self.max.z < other.min.z))
    }
}

/// A simulated rigid box.
#[derive(Debug, Copy, Clone)]
pub struct Cuboid {
    pub index: usize,
    /// World-space centre.
    pub position: Vec3,
    pub rotation: Quaternion,
    /// Linear velocity, units per second.
    pub velocity: Vec3,
    /// Angular velocity, radians per second times axis.
    pub angular_velocity: Vec3,
    /// Local full extents along each axis, before rotation.
    pub scale: Vec3,
    /// Derived: the eight world-space corners.
    pub corners: [Vec3; 8],
    /// Derived: world bounding box over the corners.
    pub aabb: AABB,
    /// A frozen body has infinite mass and inertia and is never integrated.
    pub frozen: bool,
    /// Derived: the three local basis vectors rotated into world space.
    pub face_axes: [Vec3; 3],
    pub density: i64,
}

impl Default for Cuboid {
    /// A unit cube of unit density at the origin, at rest and unrotated.
    fn default() -> (r: Cuboid)
        ensures
            r.position@ == crate::math::zerov(),
            r.rotation@ == (Q4 { r: SCALE as int, x: 0, y: 0, z: 0 }),
            r.velocity@ == crate::math::zerov(),
            r.angular_velocity@ == crate::math::zerov(),
            r.scale@ == (V3 { x: SCALE as int, y: SCALE as int, z: SCALE as int }),
            r.density == SCALE,
            !r.frozen,
            r.index == 0,
            body_args_ok(r),
    {
        proof {
            lemma_identity_rot_unit();
        }
        let z = Vec3 { x: 0, y: 0, z: 0 };
        Cuboid {
            index: 0,
            position: z,
            rotation: Quaternion { real: SCALE, x: 0, y: 0, z: 0 },
            velocity: z,
            angular_velocity: z,
            scale: Vec3 { x: SCALE, y: SCALE, z: SCALE },
            corners: [z, z, z, z, z, z, z, z],
            aabb: AABB { min: z, max: z },
            frozen: false,
            face_axes: [z, z, z],
            density: SCALE,
        }
    }
}

/// The raw (non-derived) state of a body lies within the simulation's
/// representable envelope.
pub open spec fn body_args_ok(c: Cuboid) -> bool {
    &&& bounded3(c.position@, POS_MAX as int)
    &&& bounded3(c.velocity@, POS_MAX as int)
    &&& bounded3(c.angular_velocity@, POS_MAX as int)
    &&& MIN_EXTENT <= c.scale@.x <= MAX_EXTENT
    &&& MIN_EXTENT <= c.scale@.y <= MAX_EXTENT
    &&& MIN_EXTENT <= c.scale@.z <= MAX_EXTENT
    &&& bounded_q(c.rotation@, 2 * SCALE as int)
    &&& unit_rot(c.rotation@)
    &&& MIN_DENSITY <= c.density <= MAX_DENSITY
}

/// The orientation stays unit-norm, up to the documented tolerance.
pub open spec fn unit_rot(q: Q4) -> bool {
    abs_i(crate::math::magq(q) - SCALE as int) <= ROT_TOL
}

/// The identity rotation is exactly unit-norm.
pub proof fn lemma_identity_rot_unit()
    ensures
        crate::math::magq(Q4 { r: SCALE as int, x: 0, y: 0, z: 0 }) == SCALE as int,
{
    let q = Q4 { r: SCALE as int, x: 0, y: 0, z: 0 };
    assert(q.r * q.r + q.x * q.x + q.y * q.y + q.z * q.z == (SCALE as int) * (SCALE as int))
        by (nonlinear_arith)
        requires
            q == (Q4 { r: SCALE as int, x: 0, y: 0, z: 0 }),
    ;
    assert((SCALE as int) * (SCALE as int) < (SCALE as int + 1) * (SCALE as int + 1))
        by (nonlinear_arith)
        requires
            SCALE == 1_000_000i64,
    ;
    crate::fixed::lemma_sqrt_unique(
        ((SCALE as int) * (SCALE as int)) as nat,
        (SCALE as int) as nat,
    );
}

/// The world axes, scaled to unit fixed-point length.
pub open spec fn base_axis(i: int) -> V3 {
    if i == 0 {
        V3 { x: SCALE as int, y: 0, z: 0 }
    } else if i == 1 {
        V3 { x: 0, y: SCALE as int, z: 0 }
    } else {
        V3 { x: 0, y: 0, z: SCALE as int }
    }
}

/// The local offset of corner `k` (bit 2 selects +x, bit 1 +y, bit 0 +z)
/// before rotation: half the extent with the corner's sign pattern.
pub open spec fn corner_delta(scale: V3, k: int) -> V3 {
    let hx = tdiv(scale.x, 2);
    let hy = tdiv(scale.y, 2);
    let hz = tdiv(scale.z, 2);
    V3 {
        x: if k >= 4 {
            hx
        } else {
            -hx
        },
        y: if k % 4 >= 2 {
            hy
        } else {
            -hy
        },
        z: if k % 2 == 1 {
            hz
        } else {
            -hz
        },
    }
}

/// World position of a corner: the centre plus the rotated local offset.
#[verifier::opaque]
pub open spec fn corner_at(pos: V3, q: Q4, scale: V3, k: int) -> V3 {
    addv(pos, rotv(corner_delta(scale, k), q))
}

/// World position of corner `k` of a body.
pub open spec fn corner_s(c: Cuboid, k: int) -> V3 {
    corner_at(c.position@, c.rotation@, c.scale@, k)
}

/// World face axis `i`: the rotated world axis, unit-normalized. A
/// degenerate rotation (never produced by quaternion normalization) falls
/// back to the unrotated world axis, so the axis is always usable.
#[verifier::opaque]
pub open spec fn face_axis_s(q: Q4, i: int) -> V3 {
    let r = rotv(base_axis(i), q);
    if magv(r) <= EPSILON {
        base_axis(i)
    } else {
        normv(r)
    }
}

/// One of the six oriented face directions, in the order the narrow phase
/// scans them: the three axes, then their negations.
pub open spec fn face_dir_s(q: Q4, k: int) -> V3 {
    if k < 3 {
        face_axis_s(q, k)
    } else {
        negv(face_axis_s(q, k - 3))
    }
}

/// Componentwise minimum of the eight corners.
pub open spec fn min_i(a: int, b: int) -> int {
    if a <= b {
        a
    } else {
        b
    }
}

pub open spec fn max_i(a: int, b: int) -> int {
    if a >= b {
        a
    } else {
        b
    }
}

/// Fold the eight corner coordinates with `f`-like pairing (balanced tree,
/// fixed shape so the executable code can mirror it).
pub open spec fn fold_min8(v: Seq<int>) -> int {
    min_i(
        min_i(min_i(v[0], v[1]), min_i(v[2], v[3])),
        min_i(min_i(v[4], v[5]), min_i(v[6], v[7])),
    )
}

pub open spec fn fold_max8(v: Seq<int>) -> int {
    max_i(
        max_i(max_i(v[0], v[1]), max_i(v[2], v[3])),
        max_i(max_i(v[4], v[5]), max_i(v[6], v[7])),
    )
}

pub open spec fn corner_xs(c: Cuboid) -> Seq<int> {
    Seq::new(8, |k: int| corner_s(c, k).x)
}

pub open spec fn corner_ys(c: Cuboid) -> Seq<int> {
    Seq::new(8, |k: int| corner_s(c, k).y)
}

pub open spec fn corner_zs(c: Cuboid) -> Seq<int> {
    Seq::new(8, |k: int| corner_s(c, k).z)
}

/// The bounding box spanned by the eight corners.
pub open spec fn aabb_s(c: Cuboid) -> AABB {
    AABB {
        min: Vec3 {
            x: fold_min8(corner_xs(c)) as i64,
            y: fold_min8(corner_ys(c)) as i64,
            z: fold_min8(corner_zs(c)) as i64,
        },
        max: Vec3 {
            x: fold_max8(corner_xs(c)) as i64,
            y: fold_max8(corner_ys(c)) as i64,
            z: fold_max8(corner_zs(c)) as i64,
        },
    }
}

/// The cached derived fields agree with the current raw state.
pub open spec fn derived_ok(c: Cuboid) -> bool {
    &&& forall|k: int| 0 <= k < 8 ==> (#[trigger] c.corners@[k])@ == corner_s(c, k)
    &&& c.aabb == aabb_s(c)
    &&& forall|i: int| 0 <= i < 3 ==> (#[trigger] c.face_axes@[i])@ == face_axis_s(c.rotation@, i)
}

/// A body ready for collision work: representable raw state with fresh
/// derived state.
pub open spec fn body_ok(c: Cuboid) -> bool {
    body_args_ok(c) && derived_ok(c)
}

/// `0` when frozen, else the reciprocal of the volume proxy `|scale|`
/// times the density.
pub open spec fn inv_mass_s(c: Cuboid) -> int {
    if c.frozen {
        0
    } else {
        fdiv_s(SCALE as int, fmul_s(magv(c.scale@), c.density as int))
    }
}

/// The three diagonal entries of the inverted local box inertia tensor:
/// `1 / (m/12 * (b^2 + c^2))` and its permutations (an entry rounding to
/// zero inverts to zero, meaning no angular response on that axis).
pub open spec fn local_inv_inertia_s(c: Cuboid) -> (int, int, int) {
    let m = fdiv_s(SCALE as int, inv_mass_s(c));
    let m12 = fmul_s(m, TWELFTH as int);
    let sx = fmul_s(c.scale@.x, c.scale@.x);
    let sy = fmul_s(c.scale@.y, c.scale@.y);
    let sz = fmul_s(c.scale@.z, c.scale@.z);
    (
        fdiv_s(SCALE as int, fmul_s(m12, sy + sz)),
        fdiv_s(SCALE as int, fmul_s(m12, sx + sz)),
        fdiv_s(SCALE as int, fmul_s(m12, sx + sy)),
    )
}

/// Entry `(col, row)` of `R * diag(d) * transpose(R)` in fixed point.
pub open spec fn sandwich_entry(ra: Seq<int>, d: (int, int, int), col: int, row: int) -> int {
    fmul_s(fmul_s(ra[row], d.0), ra[col]) + fmul_s(fmul_s(ra[3 + row], d.1), ra[3 + col]) + fmul_s(
        fmul_s(ra[6 + row], d.2),
        ra[6 + col],
    )
}

/// The world-space inverse inertia tensor: the zero matrix for zero or
/// infinite mass, else the local inverse inertia rotated into world space.
pub open spec fn inv_inertia_s(c: Cuboid) -> crate::math::M3 {
    if inv_mass_s(c) == 0 {
        crate::math::M3 { a: Seq::new(9, |i: int| 0int) }
    } else {
        let ra = crate::math::mat3_of_q(c.rotation@).a;
        let d = local_inv_inertia_s(c);
        crate::math::M3 { a: Seq::new(9, |e: int| sandwich_entry(ra, d, e / 3, e % 3)) }
    }
}

/// Derived corners stay within `CORNER_MAX`.
pub proof fn lemma_corner_bounds(c: Cuboid, k: int)
    requires
        body_args_ok(c),
        0 <= k < 8,
    ensures
        bounded3(corner_s(c, k), CORNER_MAX as int),
        bounded3(corner_delta(c.scale@, k), (MAX_EXTENT as int) / 2),
        in_range(corner_s(c, k).x),
        in_range(corner_s(c, k).y),
        in_range(corner_s(c, k).z),
{
    reveal(corner_at);
    let d = corner_delta(c.scale@, k);
    crate::fixed::lemma_tdiv_bound(c.scale@.x, 2, MAX_EXTENT as int);
    crate::fixed::lemma_tdiv_bound(c.scale@.y, 2, MAX_EXTENT as int);
    crate::fixed::lemma_tdiv_bound(c.scale@.z, 2, MAX_EXTENT as int);
    assert(bounded3(d, (MAX_EXTENT as int) / 2));
    lemma_rotv_bound(d, c.rotation@);
}

/// A fresh bounding box is well formed and bounded like the corners.
pub proof fn lemma_aabb_bounds(c: Cuboid)
    requires
        body_args_ok(c),
        c.aabb == aabb_s(c),
    ensures
        aabb_wf(c.aabb),
        bounded3(c.aabb.min@, CORNER_MAX as int),
        bounded3(c.aabb.max@, CORNER_MAX as int),
{
    assert forall|k: int| 0 <= k < 8 implies bounded3(
        #[trigger] corner_s(c, k),
        CORNER_MAX as int,
    ) by {
        lemma_corner_bounds(c, k);
    }
    assert forall|k: int| 0 <= k < 8 implies #[trigger] corner_xs(c)[k] == corner_s(c, k).x
        && corner_ys(c)[k] == corner_s(c, k).y && corner_zs(c)[k] == corner_s(c, k).z by {}
}

/// Rotating a vector bounded by `ROTATE_IN_MAX` keeps it within
/// `ROTATE_OUT_MAX` (the spec-level counterpart of `Vec3::rotate`).
pub proof fn lemma_rotv_bound(v: V3, q: Q4)
    requires
        bounded3(v, crate::math::ROTATE_IN_MAX as int),
        bounded_q(q, 2 * SCALE as int),
    ensures
        bounded3(rotv(v, q), crate::math::ROTATE_OUT_MAX as int),
{
    let qv = crate::math::from_vec_q(v);
    assert(bounded_q(qv, crate::math::ROTATE_IN_MAX as int));
    crate::math::lemma_qmul_bound(
        q,
        qv,
        2 * SCALE as int,
        crate::math::ROTATE_IN_MAX as int,
        8 * crate::math::ROTATE_IN_MAX as int,
    );
    let t = crate::math::qmul_s(q, qv);
    let cj = crate::math::conj_q(q);
    assert(bounded_q(cj, 2 * SCALE as int));
    assert(4 * (8 * crate::math::ROTATE_IN_MAX as int) * (2 * SCALE as int) <= (64
        * crate::math::ROTATE_IN_MAX as int) * (SCALE as int)) by (nonlinear_arith)
        requires
            crate::math::ROTATE_IN_MAX == 0x100_0000_0000i64 && SCALE == 1_000_000i64,
    ;
    crate::math::lemma_qmul_bound(
        t,
        cj,
        8 * crate::math::ROTATE_IN_MAX as int,
        2 * SCALE as int,
        64 * crate::math::ROTATE_IN_MAX as int,
    );
}

/// Face axes are unit-length: bounded by one and with magnitude at least
/// half a unit.
pub proof fn lemma_face_axis_props(q: Q4, i: int)
    requires
        bounded_q(q, 2 * SCALE as int),
        0 <= i < 3,
    ensures
        bounded3(face_axis_s(q, i), SCALE as int),
        500_000 <= magv(face_axis_s(q, i)) <= 2 * SCALE,
        okv(face_axis_s(q, i)),
{
    reveal(face_axis_s);
    let r = rotv(base_axis(i), q);
    assert(bounded3(base_axis(i), crate::math::ROTATE_IN_MAX as int));
    lemma_rotv_bound(base_axis(i), q);
    if magv(r) <= EPSILON {
        lemma_base_axis_mag(i);
    } else {
        crate::math::lemma_norm_result(r, normv(r));
    }
    crate::math::lemma_magv_bound(face_axis_s(q, i), SCALE as int);
}

/// The base axes have magnitude exactly one unit.
pub proof fn lemma_base_axis_mag(i: int)
    requires
        0 <= i < 3,
    ensures
        magv(base_axis(i)) == SCALE as int,
        bounded3(base_axis(i), SCALE as int),
{
    let a = base_axis(i);
    assert(a.x * a.x + a.y * a.y + a.z * a.z == (SCALE as int) * (SCALE as int))
        by (nonlinear_arith)
        requires
            (a.x == SCALE as int && a.y == 0 && a.z == 0) || (a.x == 0 && a.y == SCALE as int
                && a.z == 0) || (a.x == 0 && a.y == 0 && a.z == SCALE as int),
    ;
    crate::fixed::lemma_sqrt_unique(
        ((SCALE as int) * (SCALE as int)) as nat,
        (SCALE as int) as nat,
    );
    assert((SCALE as int) * (SCALE as int) < (SCALE as int + 1) * (SCALE as int + 1))
        by (nonlinear_arith);
}

/// Executable minimum.
pub fn imin(a: i64, b: i64) -> (r: i64)
    ensures
        r == min_i(a as int, b as int),
{
    if a <= b {
        a
    } else {
        b
    }
}

/// Executable maximum.
pub fn imax(a: i64, b: i64) -> (r: i64)
    ensures
        r == max_i(a as int, b as int),
{
    if a >= b {
        a
    } else {
        b
    }
}

/// Half of a positive extent.
fn half_extent(s: i64) -> (r: i64)
    requires
        0 < s,
    ensures
        r == tdiv(s as int, 2),
{
    ((s as u64) / 2) as i64
}

impl Cuboid {
    /// Recompute the eight corners from position, rotation and scale.
    fn calc_corners(&mut self)
        requires
            body_args_ok(*old(self)),
        ensures
            *final(self) == (Cuboid { corners: final(self).corners, ..*old(self) }),
            forall|k: int|
                0 <= k < 8 ==> (#[trigger] final(self).corners@[k])@ == corner_s(*old(self), k),
    {
        proof {
            reveal(corner_at);
        }
        let hx = half_extent(self.scale.x);
        let hy = half_extent(self.scale.y);
        let hz = half_extent(self.scale.z);
        proof {
            assert forall|k: int| 0 <= k < 8 implies bounded3(
                #[trigger] corner_delta(self.scale@, k),
                crate::math::ROTATE_IN_MAX as int,
            ) && in_range(corner_s(*self, k).x) && in_range(corner_s(*self, k).y) && in_range(
                corner_s(*self, k).z,
            ) by {
                lemma_corner_bounds(*self, k);
            }
        }
        let mut out = [Vec3 { x: 0, y: 0, z: 0 }; 8];
        let mut k: usize = 0;
        while k < 8
            invariant
                body_args_ok(*self),
                hx == tdiv(self.scale@.x, 2),
                hy == tdiv(self.scale@.y, 2),
                hz == tdiv(self.scale@.z, 2),
                0 <= k <= 8,
                forall|j: int| 0 <= j < k ==> (#[trigger] out@[j])@ == corner_s(*self, j),
            decreases 8 - k,
        {
            let dx = if k >= 4 {
                hx
            } else {
                -hx
            };
            let dy = if k % 4 >= 2 {
                hy
            } else {
                -hy
            };
            let dz = if k % 2 == 1 {
                hz
            } else {
                -hz
            };
            let delta = Vec3 { x: dx, y: dy, z: dz };
            proof {
                reveal(corner_at);
                assert(delta@ == corner_delta(self.scale@, k as int));
                lemma_corner_bounds(*self, k as int);
            }
            let rotated = delta.rotate(self.rotation);
            let corner = self.position.plus(&rotated);
            out[k] = corner;
            k += 1;
        }
        self.corners = out;
    }

    /// Recompute the bounding box as the componentwise min/max over the
    /// eight (already current) corners.
    pub fn calc_aabb(&mut self)
        requires
            body_args_ok(*old(self)),
            forall|k: int|
                0 <= k < 8 ==> (#[trigger] old(self).corners@[k])@ == corner_s(*old(self), k),
        ensures
            *final(self) == (Cuboid { aabb: final(self).aabb, ..*old(self) }),
            final(self).aabb == aabb_s(*old(self)),
    {
        proof {
            assert forall|k: int| 0 <= k < 8 implies bounded3(
                #[trigger] corner_s(*self, k),
                CORNER_MAX as int,
            ) by {
                lemma_corner_bounds(*self, k);
            }
        }
        let c = &self.corners;
        let min_x = imin(imin(imin(c[0].x, c[1].x), imin(c[2].x, c[3].x)), imin(imin(c[4].x, c[5].x), imin(c[6].x, c[7].x)));
        let min_y = imin(imin(imin(c[0].y, c[1].y), imin(c[2].y, c[3].y)), imin(imin(c[4].y, c[5].y), imin(c[6].y, c[7].y)));
        let min_z = imin(imin(imin(c[0].z, c[1].z), imin(c[2].z, c[3].z)), imin(imin(c[4].z, c[5].z), imin(c[6].z, c[7].z)));
        let max_x = imax(imax(imax(c[0].x, c[1].x), imax(c[2].x, c[3].x)), imax(imax(c[4].x, c[5].x), imax(c[6].x, c[7].x)));
        let max_y = imax(imax(imax(c[0].y, c[1].y), imax(c[2].y, c[3].y)), imax(imax(c[4].y, c[5].y), imax(c[6].y, c[7].y)));
        let max_z = imax(imax(imax(c[0].z, c[1].z), imax(c[2].z, c[3].z)), imax(imax(c[4].z, c[5].z), imax(c[6].z, c[7].z)));
        proof {
            assert(corner_xs(*self)[0] == corner_s(*self, 0).x);
            assert(min_x as int == fold_min8(corner_xs(*self)));
            assert(min_y as int == fold_min8(corner_ys(*self)));
            assert(min_z as int == fold_min8(corner_zs(*self)));
            assert(max_x as int == fold_max8(corner_xs(*self)));
            assert(max_y as int == fold_max8(corner_ys(*self)));
            assert(max_z as int == fold_max8(corner_zs(*self)));
        }
        self.aabb = AABB {
            min: Vec3 { x: min_x, y: min_y, z: min_z },
            max: Vec3 { x: max_x, y: max_y, z: max_z },
        };
    }

    /// Recompute the world face axes from the rotation.
    fn calc_face_axes(&mut self)
        requires
            body_args_ok(*old(self)),
        ensures
            *final(self) == (Cuboid { face_axes: final(self).face_axes, ..*old(self) }),
            forall|i: int|
                0 <= i < 3 ==> (#[trigger] final(self).face_axes@[i])@ == face_axis_s(
                    old(self).rotation@,
                    i,
                ),
    {
        let bx = Vec3 { x: SCALE, y: 0, z: 0 };
        let by = Vec3 { x: 0, y: SCALE, z: 0 };
        let bz = Vec3 { x: 0, y: 0, z: SCALE };
        proof {
            reveal(face_axis_s);
            assert(bx@ == base_axis(0) && by@ == base_axis(1) && bz@ == base_axis(2));
        }
        let r0 = bx.rotate(self.rotation);
        let r1 = by.rotate(self.rotation);
        let r2 = bz.rotate(self.rotation);
        let a0 = match r0.normalize() {
            Some(u) => u,
            None => bx,
        };
        let a1 = match r1.normalize() {
            Some(u) => u,
            None => by,
        };
        let a2 = match r2.normalize() {
            Some(u) => u,
            None => bz,
        };
        self.face_axes = [a0, a1, a2];
    }

    /// Refresh all cached derived state, in dependency order.
    pub fn update_derived(&mut self)
        requires
            body_args_ok(*old(self)),
        ensures
            *final(self) == (Cuboid {
                corners: final(self).corners,
                aabb: final(self).aabb,
                face_axes: final(self).face_axes,
                ..*old(self)
            }),
            derived_ok(*final(self)),
            body_ok(*final(self)),
    {
        self.calc_corners();
        self.calc_aabb();
        self.calc_face_axes();
    }

    /// The six oriented face directions: the three world face axes and
    /// their negations.
    pub fn get_all_face_axes(&self) -> (r: [Vec3; 6])
        requires
            body_args_ok(*self),
            forall|i: int|
                0 <= i < 3 ==> (#[trigger] self.face_axes@[i])@ == face_axis_s(self.rotation@, i),
        ensures
            forall|k: int| 0 <= k < 6 ==> (#[trigger] r@[k])@ == face_dir_s(self.rotation@, k),
    {
        proof {
            lemma_face_axis_props(self.rotation@, 0);
            lemma_face_axis_props(self.rotation@, 1);
            lemma_face_axis_props(self.rotation@, 2);
        }
        let a0 = self.face_axes[0];
        let a1 = self.face_axes[1];
        let a2 = self.face_axes[2];
        [a0, a1, a2, a0.negate(), a1.negate(), a2.negate()]
    }

    /// `0` for frozen bodies, else `1 / (|scale| * density)`: the magnitude
    /// of the extent vector serves as the volume proxy.
    pub fn get_inverse_mass(&self) -> (r: i64)
        requires
            body_args_ok(*self),
        ensures
            r == inv_mass_s(*self),
            0 <= r <= 1_000_000_000_000,
            self.frozen ==> r == 0,
    {
        if self.frozen {
            0
        } else {
            let m = self.scale.mag();
            proof {
                lemma_magv_comps(self.scale@);
                lemma_magv_bound(self.scale@, MAX_EXTENT as int);
                lemma_fmul_bound(m as int, self.density as int, 2 * MAX_EXTENT as int, MAX_DENSITY as int);
                assert((2 * MAX_EXTENT as int) * (MAX_DENSITY as int) / (SCALE as int)
                    <= RAW_MAX as int && (SCALE as int) * (SCALE as int) / 1 == 1_000_000_000_000int)
                    by (nonlinear_arith)
                    requires
                        MAX_EXTENT == 3_000_000_000i64 && MAX_DENSITY == 1_000_000_000i64 && SCALE
                            == 1_000_000i64 && RAW_MAX == 0x2000_0000_0000_0000i64,
                ;
                assert((m as int) * (self.density as int) >= SCALE as int) by (nonlinear_arith)
                    requires
                        m as int >= 1_000 && self.density as int >= 1_000 && SCALE == 1_000_000i64,
                ;
                crate::fixed::lemma_fmul_lower_one(m as int, self.density as int);
            }
            let denom = fmul(m, self.density);
            proof {
                lemma_fdiv_bound(SCALE as int, denom as int, SCALE as int, 1);
            }
            fdiv(SCALE, denom)
        }
    }

    /// The inverse of the box inertia tensor, rotated into world space as
    /// `R * inverse(I_local) * transpose(R)`; the zero matrix whenever the
    /// mass is zero or infinite.
    pub fn get_inverse_moment_of_inertia(&self) -> (r: Mat3)
        requires
            body_args_ok(*self),
        ensures
            r@ == inv_inertia_s(*self),
            crate::math::bounded_m3(r@, 0x4_0000_0000_0000int),
            self.frozen ==> forall|k: int| 0 <= k < 9 ==> r@.a[k] == 0,
    {
        let im = self.get_inverse_mass();
        if im == 0 {
            let z = Mat3::zero();
            proof {
                assert(z@.a =~= inv_inertia_s(*self).a);
            }
            return z;
        }
        proof {
            lemma_fdiv_bound(SCALE as int, im as int, SCALE as int, 1);
            crate::fixed::lemma_fdiv_nonneg(SCALE as int, im as int);
            assert((SCALE as int) * (SCALE as int) / 1 == 1_000_000_000_000int)
                by (nonlinear_arith)
                requires
                    SCALE == 1_000_000i64,
            ;
        }
        let m = fdiv(SCALE, im);
        proof {
            lemma_fmul_bound(m as int, TWELFTH as int, 1_000_000_000_000int, TWELFTH as int);
            crate::fixed::lemma_fmul_nonneg(m as int, TWELFTH as int);
            assert(1_000_000_000_000int * (TWELFTH as int) / (SCALE as int)
                == 83_333_000_000int) by (nonlinear_arith)
                requires
                    TWELFTH == 83_333i64 && SCALE == 1_000_000i64,
            ;
        }
        let m12 = fmul(m, TWELFTH);
        proof {
            lemma_fmul_bound(self.scale@.x, self.scale@.x, MAX_EXTENT as int, MAX_EXTENT as int);
            lemma_fmul_bound(self.scale@.y, self.scale@.y, MAX_EXTENT as int, MAX_EXTENT as int);
            lemma_fmul_bound(self.scale@.z, self.scale@.z, MAX_EXTENT as int, MAX_EXTENT as int);
            crate::fixed::lemma_fmul_nonneg(self.scale@.x, self.scale@.x);
            crate::fixed::lemma_fmul_nonneg(self.scale@.y, self.scale@.y);
            crate::fixed::lemma_fmul_nonneg(self.scale@.z, self.scale@.z);
            assert((MAX_EXTENT as int) * (MAX_EXTENT as int) / (SCALE as int)
                == 9_000_000_000_000int) by (nonlinear_arith)
                requires
                    MAX_EXTENT == 3_000_000_000i64 && SCALE == 1_000_000i64,
            ;
        }
        let sx = fmul(self.scale.x, self.scale.x);
        let sy = fmul(self.scale.y, self.scale.y);
        let sz = fmul(self.scale.z, self.scale.z);
        proof {
            lemma_fmul_bound(m12 as int, sy + sz, 83_333_000_000int, 18_000_000_000_000int);
            lemma_fmul_bound(m12 as int, sx + sz, 83_333_000_000int, 18_000_000_000_000int);
            lemma_fmul_bound(m12 as int, sx + sy, 83_333_000_000int, 18_000_000_000_000int);
            crate::fixed::lemma_fmul_nonneg(m12 as int, sy + sz);
            crate::fixed::lemma_fmul_nonneg(m12 as int, sx + sz);
            crate::fixed::lemma_fmul_nonneg(m12 as int, sx + sy);
            assert(83_333_000_000int * 18_000_000_000_000int / (SCALE as int)
                == 1_499_994_000_000_000_000int) by (nonlinear_arith)
                requires
                    SCALE == 1_000_000i64,
            ;
        }
        let ixx = fmul(m12, sy + sz);
        let iyy = fmul(m12, sx + sz);
        let izz = fmul(m12, sx + sy);
        let dx = if ixx == 0 {
            0
        } else {
            proof {
                lemma_fdiv_bound(SCALE as int, ixx as int, SCALE as int, 1);
                crate::fixed::lemma_fdiv_nonneg(SCALE as int, ixx as int);
            }
            fdiv(SCALE, ixx)
        };
        let dy = if iyy == 0 {
            0
        } else {
            proof {
                lemma_fdiv_bound(SCALE as int, iyy as int, SCALE as int, 1);
                crate::fixed::lemma_fdiv_nonneg(SCALE as int, iyy as int);
            }
            fdiv(SCALE, iyy)
        };
        let dz = if izz == 0 {
            0
        } else {
            proof {
                lemma_fdiv_bound(SCALE as int, izz as int, SCALE as int, 1);
                crate::fixed::lemma_fdiv_nonneg(SCALE as int, izz as int);
            }
            fdiv(SCALE, izz)
        };
        let ra = self.rotation.to_mat3();
        let e0 = sandwich(&ra, dx, dy, dz, 0, 0);
        let e1 = sandwich(&ra, dx, dy, dz, 0, 1);
        let e2 = sandwich(&ra, dx, dy, dz, 0, 2);
        let e3 = sandwich(&ra, dx, dy, dz, 1, 0);
        let e4 = sandwich(&ra, dx, dy, dz, 1, 1);
        let e5 = sandwich(&ra, dx, dy, dz, 1, 2);
        let e6 = sandwich(&ra, dx, dy, dz, 2, 0);
        let e7 = sandwich(&ra, dx, dy, dz, 2, 1);
        let e8 = sandwich(&ra, dx, dy, dz, 2, 2);
        let out = Mat3 { array: [e0, e1, e2, e3, e4, e5, e6, e7, e8] };
        proof {
            let sp = inv_inertia_s(*self);
            assert(out@.a[0] == sp.a[0]);
            assert(out@.a[1] == sp.a[1]);
            assert(out@.a[2] == sp.a[2]);
            assert(out@.a[3] == sp.a[3]);
            assert(out@.a[4] == sp.a[4]);
            assert(out@.a[5] == sp.a[5]);
            assert(out@.a[6] == sp.a[6]);
            assert(out@.a[7] == sp.a[7]);
            assert(out@.a[8] == sp.a[8]);
            assert(out@.a =~= sp.a);
        }
        out
    }
}

/// One entry of the rotated inverse-inertia sandwich.
fn sandwich(ra: &Mat3, dx: i64, dy: i64, dz: i64, col: usize, row: usize) -> (r: i64)
    requires
        crate::math::bounded_m3(ra@, 16 * SCALE as int),
        0 <= dx <= 1_000_000_000_000,
        0 <= dy <= 1_000_000_000_000,
        0 <= dz <= 1_000_000_000_000,
        col < 3,
        row < 3,
    ensures
        r == sandwich_entry(
            ra@.a,
            (dx as int, dy as int, dz as int),
            col as int,
            row as int,
        ),
        abs_i(r as int) <= 0x4_0000_0000_0000int,
{
    proof {
        lemma_sandwich_term(ra@.a[row as int], dx as int, ra@.a[col as int]);
        lemma_sandwich_term(ra@.a[3 + row as int], dy as int, ra@.a[3 + col as int]);
        lemma_sandwich_term(ra@.a[6 + row as int], dz as int, ra@.a[6 + col as int]);
    }
    let t0 = fmul(fmul(ra.array[row], dx), ra.array[col]);
    let t1 = fmul(fmul(ra.array[3 + row], dy), ra.array[3 + col]);
    let t2 = fmul(fmul(ra.array[6 + row], dz), ra.array[6 + col]);
    t0 + t1 + t2
}

/// Bounds for one term `R * d * R` of the sandwich.
proof fn lemma_sandwich_term(a: int, d: int, b: int)
    requires
        abs_i(a) <= 16 * SCALE as int,
        abs_i(b) <= 16 * SCALE as int,
        0 <= d <= 1_000_000_000_000,
    ensures
        in_range(fmul_s(a, d)),
        abs_i(fmul_s(a, d)) <= 16_000_000_000_000int,
        in_range(fmul_s(fmul_s(a, d), b)),
        abs_i(fmul_s(fmul_s(a, d), b)) <= 256_000_000_000_000int,
{
    lemma_fmul_bound(a, d, 16 * SCALE as int, 1_000_000_000_000int);
    assert((16 * SCALE as int) * 1_000_000_000_000int / (SCALE as int) == 16_000_000_000_000int)
        by (nonlinear_arith)
        requires
            SCALE == 1_000_000i64,
    ;
    lemma_fmul_bound(fmul_s(a, d), b, 16_000_000_000_000int, 16 * SCALE as int);
    assert(16_000_000_000_000int * (16 * SCALE as int) / (SCALE as int)
        == 256_000_000_000_000int) by (nonlinear_arith)
        requires
            SCALE == 1_000_000i64,
    ;
}

/// The per-instance model matrix handed to a renderer: rotation scaled by
/// the extents, composed with the translation, column major.
#[derive(Default, Copy, Clone, Debug)]
pub struct CuboidRaw {
    pub model: [i64; 16],
}

/// The model matrix entries: each rotation column scaled by one extent,
/// then the position with a unit weight.
pub open spec fn raw_model_s(c: Cuboid) -> Seq<int> {
    let ra = crate::math::mat3_of_q(c.rotation@).a;
    let s = c.scale@;
    seq![
        fmul_s(ra[0], s.x),
        fmul_s(ra[1], s.x),
        fmul_s(ra[2], s.x),
        0int,
        fmul_s(ra[3], s.y),
        fmul_s(ra[4], s.y),
        fmul_s(ra[5], s.y),
        0int,
        fmul_s(ra[6], s.z),
        fmul_s(ra[7], s.z),
        fmul_s(ra[8], s.z),
        0int,
        c.position@.x,
        c.position@.y,
        c.position@.z,
        SCALE as int,
    ]
}

impl Cuboid {
    /// Flatten this body into its renderer model matrix.
    pub fn to_raw(&self) -> (r: CuboidRaw)
        requires
            body_args_ok(*self),
        ensures
            r.model@.len() == 16,
            forall|k: int| 0 <= k < 16 ==> #[trigger] r.model@[k] == raw_model_s(*self)[k],
    {
        let ra = self.rotation.to_mat3();
        proof {
            assert forall|k: int, s: int|
                (0 <= k < 9 && MIN_EXTENT as int <= s <= MAX_EXTENT as int) implies in_range(
                #[trigger] fmul_s(ra@.a[k], s)) by {
                lemma_fmul_bound(ra@.a[k], s, 16 * SCALE as int, MAX_EXTENT as int);
                assert((16 * SCALE as int) * (MAX_EXTENT as int) / (SCALE as int)
                    == 48_000_000_000int) by (nonlinear_arith)
                    requires
                        SCALE == 1_000_000i64 && MAX_EXTENT == 3_000_000_000i64,
                ;
            }
        }
        let m = &ra.array;
        let out = CuboidRaw {
            model: [
                fmul(m[0], self.scale.x),
                fmul(m[1], self.scale.x),
                fmul(m[2], self.scale.x),
                0,
                fmul(m[3], self.scale.y),
                fmul(m[4], self.scale.y),
                fmul(m[5], self.scale.y),
                0,
                fmul(m[6], self.scale.z),
                fmul(m[7], self.scale.z),
                fmul(m[8], self.scale.z),
                0,
                self.position.x,
                self.position.y,
                self.position.z,
                SCALE,
            ],
        };
        out
    }
}

/// The fixed physics timestep: `1/180` of a second, in fixed point.
pub const PHYSICS_DT: i64 = 5_556;

/// Largest collision-list capacity factor: room for several contacts per
/// body before further collisions are dropped (and counted) for the tick.
pub const COLLISIONS_PER_BODY: usize = 5;

/// `b` agrees with `a` on everything except the derived caches.
pub open spec fn same_but_derived(a: Cuboid, b: Cuboid) -> bool {
    b == (Cuboid { corners: b.corners, aabb: b.aabb, face_axes: b.face_axes, ..a })
}

/// `b` keeps `a`'s identity and shape: index, scale, density, frozen flag.
pub open spec fn same_body_shape(a: Cuboid, b: Cuboid) -> bool {
    b.index == a.index && b.scale == a.scale && b.density == a.density && b.frozen == a.frozen
}

/// The velocity after one tick of gravity; an update that would leave the
/// envelope is skipped for the tick.
pub open spec fn integ_vel(c: Cuboid, dt: int, g: V3) -> V3 {
    if !crate::math::smul_fits(g, dt) {
        c.velocity@
    } else {
        let gdt = crate::math::smulv(g, dt);
        if !crate::solver::vel_add_fits(c.velocity@, gdt) {
            c.velocity@
        } else {
            addv(c.velocity@, gdt)
        }
    }
}

/// The position after one tick of the updated velocity.
pub open spec fn integ_pos(c: Cuboid, dt: int, g: V3) -> V3 {
    let v = integ_vel(c, dt, g);
    if !crate::math::smul_fits(v, dt) {
        c.position@
    } else {
        let vdt = crate::math::smulv(v, dt);
        if !crate::solver::vel_add_fits(c.position@, vdt) {
            c.position@
        } else {
            addv(c.position@, vdt)
        }
    }
}

/// The orientation after one tick: a small-angle quaternion rotation from
/// the angular velocity, renormalized; negligible spins and degenerate
/// results leave the orientation alone.
pub open spec fn integ_rot(c: Cuboid, dt: int) -> Q4 {
    let w = c.angular_velocity@;
    let thr = fmul_s(EPSILON as int, dt);
    if !(magv(w) > thr) {
        c.rotation@
    } else if !crate::math::smul_fits(w, dt) {
        c.rotation@
    } else {
        let wdt = crate::math::smulv(w, dt);
        let dq = Q4 { r: SCALE as int, x: tdiv(wdt.x, 2), y: tdiv(wdt.y, 2), z: tdiv(wdt.z, 2) };
        if !bounded_q(dq, 0x2000_0000_0000int) {
            c.rotation@
        } else if crate::math::magq(crate::math::qmul_s(dq, c.rotation@)) < SCALE as int / 2 {
            c.rotation@
        } else {
            crate::math::normq(crate::math::qmul_s(dq, c.rotation@))
        }
    }
}

/// `post` is `pre` advanced by one integration step: every field pinned,
/// with fresh derived state (which makes `post` a function of `pre`).
pub open spec fn is_integ_of(pre: Cuboid, post: Cuboid, dt: int, g: V3) -> bool {
    &&& post.position@ == integ_pos(pre, dt, g)
    &&& post.velocity@ == integ_vel(pre, dt, g)
    &&& post.rotation@ == integ_rot(pre, dt)
    &&& post.angular_velocity == pre.angular_velocity
    &&& same_body_shape(pre, post)
    &&& body_ok(post)
}

/// `mid` is `pre` with every non-frozen dynamic body integrated and every
/// other body (the frozen ones and the floor) untouched.
pub open spec fn integ_tick(pre: Seq<Cuboid>, mid: Seq<Cuboid>, n: int, dt: int, g: V3) -> bool {
    &&& mid.len() == pre.len()
    &&& forall|j: int|
        0 <= j < pre.len() ==> if j < n && !(#[trigger] pre[j]).frozen {
            is_integ_of(pre[j], mid[j], dt, g)
        } else {
            mid[j] == pre[j]
        }
}

/// The unordered body pair a collision record names.
pub open spec fn pair_of(ci: crate::physics::CollisionInfo) -> (int, int) {
    (
        min_i(ci.instance_index as int, ci.other_index as int),
        max_i(ci.instance_index as int, ci.other_index as int),
    )
}

/// The dedup key of a canonical pair: the two indices packed into a word.
pub open spec fn key_of(ci: crate::physics::CollisionInfo) -> u64 {
    (pair_of(ci).0 * 0x1_0000_0000 + pair_of(ci).1) as u64
}

/// The record is a genuine, canonical detection between the two bodies it
/// names, as `detect_collision`'s contract defines one.
pub open spec fn contact_detected(mid: Seq<Cuboid>, ci: crate::physics::CollisionInfo) -> bool {
    &&& (ci.instance_index as int) < (ci.other_index as int)
    &&& (ci.other_index as int) < mid.len()
    &&& crate::physics::detect_post(
        mid[ci.instance_index as int],
        mid[ci.other_index as int],
        Option::Some(ci),
    )
}

proof fn lemma_push_keeps_u64(s: Seq<u64>, v: u64, x: u64)
    requires
        s.contains(x),
    ensures
        s.push(v).contains(x),
{
    let i = choose|i: int| 0 <= i < s.len() && s[i] == x;
    assert(s.push(v)[i] == x);
}

/// Half of a fixed-point value, rounded toward zero.
fn shalf(a: i64) -> (r: i64)
    requires
        in_range(a as int),
    ensures
        r == tdiv(a as int, 2),
{
    if a >= 0 {
        ((a as u64) / 2) as i64
    } else {
        let m: u64 = (-(a as i128)) as u64;
        -((m / 2) as i64)
    }
}

impl Cuboid {
    /// Advance this body by one tick of gravity and drift: velocity, then
    /// position, then orientation, then the derived caches.
    pub fn integrate(&mut self, dt: i64, gravity: Vec3)
        requires
            body_args_ok(*old(self)),
            1 <= dt <= SCALE,
            bounded3(gravity@, POS_MAX as int),
        ensures
            final(self).velocity@ == integ_vel(*old(self), dt as int, gravity@),
            final(self).position@ == integ_pos(*old(self), dt as int, gravity@),
            final(self).rotation@ == integ_rot(*old(self), dt as int),
            final(self).index == old(self).index,
            final(self).scale == old(self).scale,
            final(self).density == old(self).density,
            final(self).frozen == old(self).frozen,
            final(self).angular_velocity == old(self).angular_velocity,
            body_ok(*final(self)),
    {
        let ghost pre = *self;
        if let Some(gdt) = gravity.scaled_c(dt) {
            if let Some(v2) = crate::solver::add_vel_c(&self.velocity, &gdt) {
                self.velocity = v2;
            }
        }
        proof {
            assert(self.velocity@ == integ_vel(pre, dt as int, gravity@));
        }
        if let Some(vdt) = self.velocity.scaled_c(dt) {
            if let Some(p2) = crate::solver::add_vel_c(&self.position, &vdt) {
                self.position = p2;
            }
        }
        proof {
            assert(self.position@ == integ_pos(pre, dt as int, gravity@));
        }
        let wmag = self.angular_velocity.mag();
        let thr = crate::fixed::fmul(EPSILON, dt);
        proof {
            crate::fixed::lemma_fmul_bound(EPSILON as int, dt as int, EPSILON as int, SCALE as int);
            assert((EPSILON as int) * (SCALE as int) / (SCALE as int) == EPSILON as int)
                by (nonlinear_arith)
                requires
                    SCALE == 1_000_000i64,
            ;
        }
        if wmag > thr {
            if let Some(wdt) = self.angular_velocity.scaled_c(dt) {
                let hx = shalf(wdt.x);
                let hy = shalf(wdt.y);
                let hz = shalf(wdt.z);
                let dq = Quaternion { real: SCALE, x: hx, y: hy, z: hz };
                if hx <= 0x2000_0000_0000 && hx >= -0x2000_0000_0000 && hy <= 0x2000_0000_0000
                    && hy >= -0x2000_0000_0000 && hz <= 0x2000_0000_0000 && hz
                    >= -0x2000_0000_0000 {
                    proof {
                        assert(4 * 0x2000_0000_0000int * (2 * SCALE as int) <= 0x1_0000_0000_0000int
                            * (SCALE as int)) by (nonlinear_arith)
                            requires
                                SCALE == 1_000_000i64,
                        ;
                        crate::math::lemma_qmul_bound(
                            dq@,
                            self.rotation@,
                            0x2000_0000_0000int,
                            2 * SCALE as int,
                            0x1_0000_0000_0000int,
                        );
                    }
                    let p = dq.qmul(&self.rotation);
                    let pm = p.mag();
                    if pm >= 500_000 {
                        match p.normalize() {
                            Some(u) => {
                                self.rotation = u;
                            },
                            None => {
                                proof {
                                    assert(false);
                                }
                            },
                        }
                    }
                }
            }
        }
        proof {
            assert(self.rotation@ == integ_rot(pre, dt as int));
        }
        self.update_derived();
    }
}

/// The simulated scene: the dynamic bodies plus the static floor slab,
/// with the solver scratch state rebuilt each tick.
#[derive(Debug)]
pub struct World {
    /// The bodies; the floor sits at index `n`.
    pub instances: Vec<Cuboid>,
    /// A copy of the static floor body.
    pub floor: Cuboid,
    /// Scratch: this tick's collision list.
    pub collisions: Vec<crate::physics::CollisionInfo>,
    /// The broad phase.
    pub hash_grid: crate::hash_grid::HashGrid,
    /// Scratch: encoded body pairs already resolved this tick.
    pub vis_collisions: Vec<u64>,
    /// The simulation constants.
    pub config: crate::solver::SolverConfig,
    /// Number of dynamic bodies.
    pub n: usize,
    /// Diagnostic: collisions dropped because the list was full.
    pub dropped_collisions: u64,
    /// Diagnostic: a bucket exceeded a tenth of the body count.
    pub crowded_buckets: bool,
}

/// The standing invariant of the world between ticks.
pub open spec fn world_wf(w: World) -> bool {
    &&& w.instances@.len() == w.n + 1
    &&& 1 <= w.n <= crate::hash_grid::MAX_BODIES
    &&& forall|j: int|
        0 <= j < w.instances@.len() ==> body_ok(#[trigger] w.instances@[j])
            && w.instances@[j].index == j
    &&& w.floor == w.instances@[w.n as int]
    &&& w.floor.frozen
    &&& crate::hash_grid::grid_wf(w.hash_grid)
    &&& w.hash_grid.n == w.n
    &&& crate::solver::config_ok(w.config)
    &&& w.collisions@.len() == 0
    &&& w.vis_collisions@.len() == 0
}

impl World {
    /// Build a world from an externally supplied population of dynamic
    /// bodies, appending the static floor slab and sizing the broad phase.
    pub fn new(bodies: Vec<Cuboid>) -> (r: World)
        requires
            1 <= bodies@.len() <= crate::hash_grid::MAX_BODIES,
            forall|j: int|
                0 <= j < bodies@.len() ==> body_args_ok(#[trigger] bodies@[j])
                    && bodies@[j].index == j,
        ensures
            world_wf(r),
            r.n == bodies@.len(),
            forall|j: int|
                0 <= j < bodies@.len() ==> same_but_derived(
                    bodies@[j],
                    #[trigger] r.instances@[j],
                ),
            ({
                let f = r.instances@[r.n as int];
                &&& f.scale@ == (V3 { x: 1_000_000_000, y: 1_000_000, z: 1_000_000_000 })
                &&& f.position@ == (V3 { x: 0, y: -500_000, z: 0 })
                &&& f.rotation@ == (Q4 { r: SCALE as int, x: 0, y: 0, z: 0 })
                &&& f.velocity@ == crate::math::zerov()
                &&& f.angular_velocity@ == crate::math::zerov()
                &&& f.index == r.n
                &&& f.frozen
                &&& f.density == SCALE
            }),
            r.dropped_collisions == 0,
            !r.crowded_buckets,
    {
        let n = bodies.len();
        let mut instances = bodies;
        let ghost orig = instances@;
        let mut i: usize = 0;
        while i < n
            invariant
                orig.len() == n,
                orig == bodies@,
                0 <= i <= n,
                instances@.len() == n,
                forall|j: int|
                    0 <= j < n ==> body_args_ok(#[trigger] instances@[j]) && instances@[j].index
                        == j,
                forall|j: int| 0 <= j < i ==> body_ok(#[trigger] instances@[j]),
                forall|j: int| 0 <= j < n ==> same_but_derived(orig[j], #[trigger] instances@[j]),
            decreases n - i,
        {
            let mut c = instances[i];
            c.update_derived();
            instances.set(i, c);
            i += 1;
        }
        let z = Vec3 { x: 0, y: 0, z: 0 };
        let mut floor = Cuboid {
            index: n,
            position: Vec3 { x: 0, y: -500_000, z: 0 },
            rotation: Quaternion { real: SCALE, x: 0, y: 0, z: 0 },
            velocity: z,
            angular_velocity: z,
            scale: Vec3 { x: 1_000_000_000, y: 1_000_000, z: 1_000_000_000 },
            corners: [z, z, z, z, z, z, z, z],
            aabb: AABB { min: z, max: z },
            frozen: true,
            face_axes: [z, z, z],
            density: SCALE,
        };
        proof {
            lemma_identity_rot_unit();
        }
        floor.update_derived();
        instances.push(floor);
        let hash_grid = crate::hash_grid::HashGrid::new(&instances, n);
        World {
            instances,
            floor,
            collisions: Vec::new(),
            hash_grid,
            vis_collisions: Vec::new(),
            config: crate::solver::SolverConfig::standard(),
            n,
            dropped_collisions: 0,
            crowded_buckets: false,
        }
    }

    /// One fixed physics tick: integrate the non-frozen bodies, rebuild
    /// the broad phase, run the narrow phase on the floor and on every
    /// deduplicated same-bucket pair, solve the contacts, and clear the
    /// scratch state. Frozen bodies come out exactly as they went in; every
    /// body keeps its identity and shape. The returned ghost value is the
    /// tick's contact list: each entry is a genuine canonical detection on
    /// the integrated bodies, no unordered pair appears twice, and the
    /// final body list is exactly the solver's passes over that list (so
    /// in particular a body no contact names keeps its integrated
    /// velocity).
    pub fn update(&mut self) -> (contacts: Ghost<Seq<crate::physics::CollisionInfo>>)
        requires
            world_wf(*old(self)),
        ensures
            world_wf(*final(self)),
            final(self).n == old(self).n,
            final(self).instances@.len() == old(self).instances@.len(),
            forall|j: int|
                0 <= j < old(self).instances@.len() ==> same_body_shape(
                    old(self).instances@[j],
                    #[trigger] final(self).instances@[j],
                ),
            forall|j: int|
                0 <= j < old(self).instances@.len() && old(self).instances@[j].frozen
                    ==> (#[trigger] final(self).instances@[j]) == old(self).instances@[j],
            forall|j: int|
                0 <= j < old(self).n && !old(self).instances@[j].frozen
                    ==> (#[trigger] final(self).instances@[j]).position@ == integ_pos(
                    old(self).instances@[j],
                    PHYSICS_DT as int,
                    old(self).config.gravity@,
                ) && final(self).instances@[j].rotation@ == integ_rot(
                    old(self).instances@[j],
                    PHYSICS_DT as int,
                ),
            contacts@.len() <= old(self).n as int * COLLISIONS_PER_BODY as int + old(self).n as int,
            forall|k: int|
                0 <= k < contacts@.len() ==> crate::solver::wf_collision(
                    #[trigger] contacts@[k],
                    old(self).instances@.len() as int,
                ),
            forall|k1: int, k2: int|
                #![trigger contacts@[k1], contacts@[k2]]
                0 <= k1 < k2 < contacts@.len() ==> pair_of(contacts@[k1]) != pair_of(
                    contacts@[k2],
                ),
            final(self).dropped_collisions >= old(self).dropped_collisions,
            old(self).crowded_buckets ==> final(self).crowded_buckets,
            exists|mid: Seq<Cuboid>|
                {
                    &&& #[trigger] integ_tick(
                        old(self).instances@,
                        mid,
                        old(self).n as int,
                        PHYSICS_DT as int,
                        old(self).config.gravity@,
                    )
                    &&& forall|k: int|
                        0 <= k < contacts@.len() ==> contact_detected(mid, #[trigger] contacts@[k])
                    &&& final(self).instances@ == crate::solver::solve_passes_s(
                        mid,
                        contacts@,
                        old(self).config.iterations as int,
                        PHYSICS_DT as int,
                        old(self).config,
                    )
                },
    {
        let dt = PHYSICS_DT;
        let n = self.n;
        let gravity = self.config.gravity;
        // 1. Integrate every non-frozen body and refresh its derived state.
        let mut i: usize = 0;
        while i < n
            invariant
                n == self.n,
                self.n == old(self).n,
                self.floor == old(self).floor,
                self.config == old(self).config,
                self.hash_grid == old(self).hash_grid,
                self.collisions == old(self).collisions,
                self.vis_collisions == old(self).vis_collisions,
                self.dropped_collisions == old(self).dropped_collisions,
                self.crowded_buckets == old(self).crowded_buckets,
                world_wf(*old(self)),
                gravity == self.config.gravity,
                dt == PHYSICS_DT,
                0 <= i <= n,
                self.instances@.len() == old(self).instances@.len(),
                forall|j: int|
                    0 <= j < self.instances@.len() ==> body_ok(#[trigger] self.instances@[j])
                        && self.instances@[j].index == j,
                forall|j: int|
                    0 <= j < self.instances@.len() ==> same_body_shape(
                        old(self).instances@[j],
                        #[trigger] self.instances@[j],
                    ),
                forall|j: int|
                    0 <= j < self.instances@.len() && old(self).instances@[j].frozen
                        ==> (#[trigger] self.instances@[j]) == old(self).instances@[j],
                forall|j: int|
                    i <= j < self.instances@.len() ==> (#[trigger] self.instances@[j]) == old(
                        self,
                    ).instances@[j],
                forall|j: int|
                    0 <= j < i && !old(self).instances@[j].frozen ==> is_integ_of(
                        old(self).instances@[j],
                        #[trigger] self.instances@[j],
                        dt as int,
                        gravity@,
                    ),
            decreases n - i,
        {
            let c0 = self.instances[i];
            if !c0.frozen {
                let mut c = c0;
                c.integrate(dt, gravity);
                self.instances.set(i, c);
            }
            i += 1;
        }
        let ghost integ = self.instances@;
        // 2. Rebuild the broad phase from scratch.
        self.hash_grid.clear();
        let crowded = self.hash_grid.init(&self.instances);
        if crowded {
            self.crowded_buckets = true;
        }
        // 3. Narrow phase: every dynamic body against the static floor.
        let cap = n * COLLISIONS_PER_BODY + n;
        let floor = self.instances[n];
        let mut i: usize = 0;
        while i < n
            invariant
                n == self.n,
                self.n == old(self).n,
                self.config == old(self).config,
                n <= crate::hash_grid::MAX_BODIES,
                self.instances@.len() == n + 1,
                self.instances@ == integ,
                crate::hash_grid::grid_wf(self.hash_grid),
                self.hash_grid.n == n,
                crate::hash_grid::grid_entries_ok(self.hash_grid, n as int),
                crate::solver::config_ok(self.config),
                0 <= i <= n,
                floor == self.instances@[n as int],
                forall|j: int|
                    0 <= j < self.instances@.len() ==> body_ok(#[trigger] self.instances@[j])
                        && self.instances@[j].index == j,
                forall|k: int|
                    0 <= k < self.collisions@.len() ==> crate::solver::wf_collision(
                        #[trigger] self.collisions@[k],
                        self.instances@.len() as int,
                    ),
                cap == n * COLLISIONS_PER_BODY + n,
                self.collisions@.len() <= cap,
                self.dropped_collisions >= old(self).dropped_collisions,
                old(self).crowded_buckets ==> self.crowded_buckets,
                forall|k: int|
                    0 <= k < self.collisions@.len() ==> contact_detected(
                        integ,
                        #[trigger] self.collisions@[k],
                    ),
                forall|k1: int, k2: int|
                    #![trigger self.collisions@[k1], self.collisions@[k2]]
                    0 <= k1 < k2 < self.collisions@.len() ==> pair_of(self.collisions@[k1])
                        != pair_of(self.collisions@[k2]),
                forall|k: int|
                    0 <= k < self.collisions@.len() ==> (#[trigger] self.collisions@[k]).other_index
                        == n && (self.collisions@[k].instance_index as int) < i,
            decreases n - i,
        {
            if self.instances[i].aabb.intersects(&floor.aabb) {
                match crate::physics::detect_collision(&self.instances[i], &floor) {
                    Some(ci) => {
                        if self.collisions.len() < cap {
                            proof {
                                assert(ci.instance_index == i && ci.other_index == n);
                                assert(contact_detected(integ, ci));
                                assert forall|k: int|
                                    0 <= k < self.collisions@.len() implies pair_of(
                                    #[trigger] self.collisions@[k],
                                ) != pair_of(ci) by {
                                    assert(pair_of(self.collisions@[k]).0
                                        == self.collisions@[k].instance_index as int);
                                    assert(pair_of(ci).0 == i as int);
                                }
                            }
                            self.collisions.push(ci);
                        } else if self.dropped_collisions < u64::MAX {
                            self.dropped_collisions = self.dropped_collisions + 1;
                        }
                    },
                    None => {},
                }
            }
            i += 1;
        }
        // 4. Narrow phase on every deduplicated same-bucket candidate pair.
        let n_buckets = self.hash_grid.buckets.len();
        let mut b: usize = 0;
        while b < n_buckets
            invariant
                n == self.n,
                self.n == old(self).n,
                self.config == old(self).config,
                n <= crate::hash_grid::MAX_BODIES,
                self.instances@.len() == n + 1,
                self.instances@ == integ,
                crate::hash_grid::grid_wf(self.hash_grid),
                self.hash_grid.n == n,
                crate::solver::config_ok(self.config),
                n_buckets == self.hash_grid.buckets@.len(),
                0 <= b <= n_buckets,
                crate::hash_grid::grid_entries_ok(self.hash_grid, n as int),
                forall|j: int|
                    0 <= j < self.instances@.len() ==> body_ok(#[trigger] self.instances@[j])
                        && self.instances@[j].index == j,
                forall|k: int|
                    0 <= k < self.collisions@.len() ==> crate::solver::wf_collision(
                        #[trigger] self.collisions@[k],
                        self.instances@.len() as int,
                    ),
                cap == n * COLLISIONS_PER_BODY + n,
                self.collisions@.len() <= cap,
                self.dropped_collisions >= old(self).dropped_collisions,
                old(self).crowded_buckets ==> self.crowded_buckets,
                forall|k: int|
                    0 <= k < self.collisions@.len() ==> contact_detected(
                        integ,
                        #[trigger] self.collisions@[k],
                    ),
                forall|k1: int, k2: int|
                    #![trigger self.collisions@[k1], self.collisions@[k2]]
                    0 <= k1 < k2 < self.collisions@.len() ==> pair_of(self.collisions@[k1])
                        != pair_of(self.collisions@[k2]),
                forall|k: int|
                    0 <= k < self.collisions@.len() ==> (#[trigger] self.collisions@[k]).other_index
                        == n || self.vis_collisions@.contains(key_of(self.collisions@[k])),
            decreases n_buckets - b,
        {
            let bl = self.hash_grid.buckets[b].len();
            if bl > 1 {
                let mut u: usize = 0;
                while u < bl
                    invariant
                        n == self.n,
                        self.n == old(self).n,
                        self.config == old(self).config,
                        n <= crate::hash_grid::MAX_BODIES,
                        self.instances@.len() == n + 1,
                        self.instances@ == integ,
                        crate::hash_grid::grid_wf(self.hash_grid),
                        self.hash_grid.n == n,
                        crate::solver::config_ok(self.config),
                        n_buckets == self.hash_grid.buckets@.len(),
                        b < n_buckets,
                        bl == self.hash_grid.buckets@[b as int]@.len(),
                        0 <= u <= bl,
                        crate::hash_grid::grid_entries_ok(self.hash_grid, n as int),
                        forall|j: int|
                            0 <= j < self.instances@.len() ==> body_ok(
                                #[trigger] self.instances@[j],
                            ) && self.instances@[j].index == j,
                        forall|k: int|
                            0 <= k < self.collisions@.len() ==> crate::solver::wf_collision(
                                #[trigger] self.collisions@[k],
                                self.instances@.len() as int,
                            ),
                    cap == n * COLLISIONS_PER_BODY + n,
                    self.collisions@.len() <= cap,
                    self.dropped_collisions >= old(self).dropped_collisions,
                    old(self).crowded_buckets ==> self.crowded_buckets,
                    forall|k: int|
                        0 <= k < self.collisions@.len() ==> contact_detected(
                            integ,
                            #[trigger] self.collisions@[k],
                        ),
                    forall|k1: int, k2: int|
                        #![trigger self.collisions@[k1], self.collisions@[k2]]
                        0 <= k1 < k2 < self.collisions@.len() ==> pair_of(self.collisions@[k1])
                            != pair_of(self.collisions@[k2]),
                    forall|k: int|
                        0 <= k < self.collisions@.len() ==> (#[trigger] self.collisions@[k]).other_index
                            == n || self.vis_collisions@.contains(key_of(self.collisions@[k])),
                    decreases bl - u,
                {
                    let mut v: usize = u + 1;
                    while v < bl
                        invariant
                            n == self.n,
                            self.n == old(self).n,
                            self.config == old(self).config,
                            n <= crate::hash_grid::MAX_BODIES,
                            self.instances@.len() == n + 1,
                            self.instances@ == integ,
                            crate::hash_grid::grid_wf(self.hash_grid),
                            self.hash_grid.n == n,
                            crate::solver::config_ok(self.config),
                            n_buckets == self.hash_grid.buckets@.len(),
                            b < n_buckets,
                            bl == self.hash_grid.buckets@[b as int]@.len(),
                            u < bl,
                            u < v <= bl,
                            crate::hash_grid::grid_entries_ok(self.hash_grid, n as int),
                            forall|j: int|
                                0 <= j < self.instances@.len() ==> body_ok(
                                    #[trigger] self.instances@[j],
                                ) && self.instances@[j].index == j,
                            forall|k: int|
                                0 <= k < self.collisions@.len() ==> crate::solver::wf_collision(
                                    #[trigger] self.collisions@[k],
                                    self.instances@.len() as int,
                                ),
                        cap == n * COLLISIONS_PER_BODY + n,
                        self.collisions@.len() <= cap,
                        self.dropped_collisions >= old(self).dropped_collisions,
                        old(self).crowded_buckets ==> self.crowded_buckets,
                        forall|k: int|
                            0 <= k < self.collisions@.len() ==> contact_detected(
                                integ,
                                #[trigger] self.collisions@[k],
                            ),
                        forall|k1: int, k2: int|
                            #![trigger self.collisions@[k1], self.collisions@[k2]]
                            0 <= k1 < k2 < self.collisions@.len() ==> pair_of(self.collisions@[k1])
                                != pair_of(self.collisions@[k2]),
                        forall|k: int|
                            0 <= k < self.collisions@.len() ==> (#[trigger] self.collisions@[k]).other_index
                                == n || self.vis_collisions@.contains(key_of(self.collisions@[k])),
                        decreases bl - v,
                    {
                        let x = self.hash_grid.buckets[b][u];
                        let y = self.hash_grid.buckets[b][v];
                        if x != y {
                            let lo = if x < y {
                                x
                            } else {
                                y
                            };
                            let hi = if x < y {
                                y
                            } else {
                                x
                            };
                            let key: u64 = (lo as u64) * 0x1_0000_0000u64 + (hi as u64);
                            if !contains_u64(&self.vis_collisions, key) {
                                if self.instances[lo].aabb.intersects(&self.instances[hi].aabb) {
                                    match crate::physics::detect_collision(
                                        &self.instances[lo],
                                        &self.instances[hi],
                                    ) {
                                        Some(ci) => {
                                            if self.collisions.len() < cap {
                                                proof {
                                                    assert(ci.instance_index == lo
                                                        && ci.other_index == hi);
                                                    assert(contact_detected(integ, ci));
                                                    assert(pair_of(ci) == (lo as int, hi as int));
                                                    assert(key_of(ci) == key);
                                                    assert forall|k: int|
                                                        0 <= k < self.collisions@.len()
                                                            implies pair_of(
                                                        #[trigger] self.collisions@[k],
                                                    ) != pair_of(ci) by {
                                                        let e = self.collisions@[k];
                                                        if e.other_index == n {
                                                            assert(pair_of(e).1 == n as int);
                                                            assert(pair_of(ci).1 < n as int);
                                                        } else {
                                                            if pair_of(e) == pair_of(ci) {
                                                                assert(key_of(e) == key_of(ci));
                                                                assert(self.vis_collisions@
                                                                    .contains(key));
                                                                assert(false);
                                                            }
                                                        }
                                                    }
                                                }
                                                self.collisions.push(ci);
                                                proof {
                                                    assert forall|k: int|
                                                        0 <= k < self.collisions@.len()
                                                            && (#[trigger] self.collisions@[k])
                                                            .other_index != n
                                                            implies self.vis_collisions@.push(
                                                        key,
                                                    ).contains(key_of(self.collisions@[k])) by {
                                                        let e = self.collisions@[k];
                                                        if k < self.collisions@.len() - 1 {
                                                            lemma_push_keeps_u64(
                                                                self.vis_collisions@,
                                                                key,
                                                                key_of(e),
                                                            );
                                                        } else {
                                                            assert(self.vis_collisions@.push(key)[
                                                                self.vis_collisions@.len() as int
                                                            ] == key);
                                                        }
                                                    }
                                                }
                                                self.vis_collisions.push(key);
                                            } else if self.dropped_collisions < u64::MAX {
                                                self.dropped_collisions = self.dropped_collisions
                                                    + 1;
                                            }
                                        },
                                        None => {},
                                    }
                                }
                            }
                        }
                        v += 1;
                    }
                    u += 1;
                }
            }
            b += 1;
        }
        // 5. Solve all accumulated contacts.
        let ghost contact_list = self.collisions@;
        crate::solver::resolve_collisions(&self.collisions, &mut self.instances, dt, &self.config);
        // 6. Clear the scratch state for the next tick.
        self.collisions = Vec::new();
        self.vis_collisions = Vec::new();
        self.floor = self.instances[n];
        proof {
            assert forall|j: int| 0 <= j < self.instances@.len() implies body_ok(
                #[trigger] self.instances@[j],
            ) && self.instances@[j].index == j by {
                assert(crate::solver::same_but_velocity(integ[j], self.instances@[j]));
                lemma_velocity_change_keeps_derived(integ[j], self.instances@[j]);
            }
            // The integrated snapshot witnesses the pipeline clause.
            assert(integ_tick(
                old(self).instances@,
                integ,
                old(self).n as int,
                PHYSICS_DT as int,
                old(self).config.gravity@,
            ));
        }
        Ghost(contact_list)
    }
}

/// A body whose non-velocity fields are intact keeps its derived caches
/// consistent: the caches depend only on position, rotation and scale.
proof fn lemma_velocity_change_keeps_derived(pre: Cuboid, cur: Cuboid)
    requires
        derived_ok(pre),
        crate::solver::same_but_velocity(pre, cur),
    ensures
        derived_ok(cur),
{
    assert(corner_xs(cur) =~= corner_xs(pre));
    assert(corner_ys(cur) =~= corner_ys(pre));
    assert(corner_zs(cur) =~= corner_zs(pre));
    assert(aabb_s(cur) == aabb_s(pre));
    assert forall|k: int| 0 <= k < 8 implies (#[trigger] cur.corners@[k])@ == corner_s(cur, k) by {
        assert(corner_s(cur, k) == corner_s(pre, k));
    }
}

/// Whether a pair key was already handled this tick.
fn contains_u64(v: &Vec<u64>, x: u64) -> (r: bool)
    ensures
        r == v@.contains(x),
{
    let mut i: usize = 0;
    while i < v.len()
        invariant
            0 <= i <= v@.len(),
            forall|j: int| 0 <= j < i ==> v@[j] != x,
        decreases v@.len() - i,
    {
        if v[i] == x {
            return true;
        }
        i += 1;
    }
    proof {
        if v@.contains(x) {
            let j = choose|j: int| 0 <= j < v@.len() && v@[j] == x;
            assert(false);
        }
    }
    false
}

} // verus!
