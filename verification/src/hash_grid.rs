//! The broad phase: a uniform spatial hash. Bodies are binned by the grid
//! cells their bounding boxes cover; two bodies whose boxes intersect are
//! guaranteed to share at least one bucket, so the narrow phase only needs
//! to look at same-bucket pairs.

use vstd::prelude::*;

verus! {

use vstd::arithmetic::div_mod::lemma_div_is_ordered;
use vstd::arithmetic::div_mod::lemma_fundamental_div_mod;
use vstd::pervasive::VecAdditionalExecFns;
use crate::fixed::abs_i;
use crate::math::V3;
use crate::math::Vec3;
use crate::world::AABB;
use crate::world::Cuboid;
use crate::world::MAX_EXTENT;
use crate::world::MIN_EXTENT;
use crate::world::aabb_isect;
use crate::world::aabb_wf;
use crate::world::body_ok;

/// Largest body count the grid accepts.
pub const MAX_BODIES: usize = 0x10_0000;

/// The three multiplicative hashing primes.
pub const HASH_PRIME_X: u64 = 73_856_093;

pub const HASH_PRIME_Y: u64 = 19_349_663;

pub const HASH_PRIME_Z: u64 = 83_492_791;

/// The bucket of a cell: multiply each coordinate by a large odd prime
/// (wrapping), fold with xor, reduce modulo the bucket count. A pure
/// function of the cell, so equal cells always land in equal buckets.
pub open spec fn hash_s(cx: int, cy: int, cz: int, n: int) -> int {
    let px = (((cx as u64) as nat * HASH_PRIME_X as nat) % 0x1_0000_0000_0000_0000nat) as u64;
    let py = (((cy as u64) as nat * HASH_PRIME_Y as nat) % 0x1_0000_0000_0000_0000nat) as u64;
    let pz = (((cz as u64) as nat * HASH_PRIME_Z as nat) % 0x1_0000_0000_0000_0000nat) as u64;
    ((px ^ py ^ pz) as int) % n
}

/// Cell `(cx, cy, cz)` is one of the cells covering the box: the covered
/// range on each axis runs from the cell containing `min` to the cell
/// containing `max` (rounding the coordinates down).
pub open spec fn covers(a: AABB, sp: V3, cx: int, cy: int, cz: int) -> bool {
    &&& a.min@.x / sp.x <= cx <= a.max@.x / sp.x
    &&& a.min@.y / sp.y <= cy <= a.max@.y / sp.y
    &&& a.min@.z / sp.z <= cz <= a.max@.z / sp.z
}

/// What `cell_indices` promises: the hash of every covering cell is in the
/// list (the list is the body's bucket set).
pub open spec fn cell_list_complete(a: AABB, sp: V3, n: int, r: Seq<usize>) -> bool {
    forall|cx: int, cy: int, cz: int|
        covers(a, sp, cx, cy, cz) ==> r.contains(#[trigger] hash_s(cx, cy, cz, n) as usize)
}

/// And conversely: everything in the list is the bucket of some covering
/// cell.
pub open spec fn cell_list_sound(a: AABB, sp: V3, n: int, r: Seq<usize>) -> bool {
    forall|k: int|
        #![trigger r[k]]
        0 <= k < r.len() ==> exists|cx: int, cy: int, cz: int|
            #[trigger] covers(a, sp, cx, cy, cz) && r[k] == hash_s(cx, cy, cz, n) as usize
}

/// Intersecting boxes cover a common cell.
pub proof fn lemma_shared_cell(a: AABB, b: AABB, sp: V3)
    requires
        aabb_wf(a),
        aabb_wf(b),
        aabb_isect(a, b),
        sp.x > 0,
        sp.y > 0,
        sp.z > 0,
    ensures
        exists|cx: int, cy: int, cz: int|
            #[trigger] covers(a, sp, cx, cy, cz) && covers(b, sp, cx, cy, cz),
{
    let cx = if a.min@.x / sp.x >= b.min@.x / sp.x {
        a.min@.x / sp.x
    } else {
        b.min@.x / sp.x
    };
    let cy = if a.min@.y / sp.y >= b.min@.y / sp.y {
        a.min@.y / sp.y
    } else {
        b.min@.y / sp.y
    };
    let cz = if a.min@.z / sp.z >= b.min@.z / sp.z {
        a.min@.z / sp.z
    } else {
        b.min@.z / sp.z
    };
    lemma_div_is_ordered(a.min@.x, a.max@.x, sp.x);
    lemma_div_is_ordered(b.min@.x, b.max@.x, sp.x);
    lemma_div_is_ordered(a.min@.x, b.max@.x, sp.x);
    lemma_div_is_ordered(b.min@.x, a.max@.x, sp.x);
    lemma_div_is_ordered(a.min@.y, a.max@.y, sp.y);
    lemma_div_is_ordered(b.min@.y, b.max@.y, sp.y);
    lemma_div_is_ordered(a.min@.y, b.max@.y, sp.y);
    lemma_div_is_ordered(b.min@.y, a.max@.y, sp.y);
    lemma_div_is_ordered(a.min@.z, a.max@.z, sp.z);
    lemma_div_is_ordered(b.min@.z, b.max@.z, sp.z);
    lemma_div_is_ordered(a.min@.z, b.max@.z, sp.z);
    lemma_div_is_ordered(b.min@.z, a.max@.z, sp.z);
    assert(covers(a, sp, cx, cy, cz) && covers(b, sp, cx, cy, cz));
}

/// Any two bodies whose boxes intersect share a bucket index: the law the
/// broad phase is built on. `ra` and `rb` are the bodies' bucket lists, as
/// `cell_indices` computes them.
pub proof fn lemma_bucket_sets_intersect(
    a: AABB,
    b: AABB,
    sp: V3,
    n: int,
    ra: Seq<usize>,
    rb: Seq<usize>,
)
    requires
        aabb_wf(a),
        aabb_wf(b),
        aabb_isect(a, b),
        sp.x > 0,
        sp.y > 0,
        sp.z > 0,
        cell_list_complete(a, sp, n, ra),
        cell_list_complete(b, sp, n, rb),
    ensures
        exists|k: usize| ra.contains(k) && #[trigger] rb.contains(k),
{
    lemma_shared_cell(a, b, sp);
    let (cx, cy, cz) = choose|cx: int, cy: int, cz: int|
        #[trigger] covers(a, sp, cx, cy, cz) && covers(b, sp, cx, cy, cz);
    let k = hash_s(cx, cy, cz, n) as usize;
    assert(ra.contains(k) && rb.contains(k));
}

/// Rounded-down division by a positive cell spacing.
fn floor_div(a: i64, b: i64) -> (r: i64)
    requires
        0 < b,
        abs_i(a as int) <= 0x1000_0000_0000_0000int,
    ensures
        r == a as int / b as int,
        abs_i(r as int) <= abs_i(a as int),
{
    if a >= 0 {
        proof {
            lemma_div_is_ordered(a as int, a as int, b as int);
            vstd::arithmetic::div_mod::lemma_div_nonincreasing(a as int, b as int);
        }
        let q = (a as u64) / (b as u64);
        q as i64
    } else {
        let m: u128 = (-(a as i128)) as u128;
        let bu: u128 = b as u128;
        let q: u128 = (m + bu - 1) / bu;
        proof {
            lemma_floor_div_neg(-(a as int), b as int);
        }
        -(q as i64)
    }
}

/// Euclidean division of a negative value rounds away from zero:
/// `(-m) / d == -((m + d - 1) / d)` for positive `m` and `d`.
proof fn lemma_floor_div_neg(m: int, d: int)
    requires
        m > 0,
        d > 0,
    ensures
        (-m) / d == -((m + d - 1) / d),
        0 <= (m + d - 1) / d <= m,
{
    let q = (m + d - 1) / d;
    lemma_fundamental_div_mod(m + d - 1, d);
    lemma_fundamental_div_mod(-m, d);
    let qq = (-m) / d;
    let rr = (-m) % d;
    assert(0 <= rr < d);
    assert(-m == d * qq + rr);
    assert(m + d - 1 == d * q + ((m + d - 1) % d));
    assert(0 <= (m + d - 1) % d < d);
    assert(qq == -q) by (nonlinear_arith)
        requires
            -m == d * qq + rr && 0 <= rr < d && m + d - 1 == d * q + ((m + d - 1) % d) && 0 <= (m
                + d - 1) % d < d && m > 0 && d > 0,
    ;
    assert(0 <= q <= m) by (nonlinear_arith)
        requires
            m + d - 1 == d * q + ((m + d - 1) % d) && 0 <= (m + d - 1) % d < d && m > 0 && d > 0,
    ;
}

/// Reduce a cell to its bucket.
fn hash_cell(cx: i64, cy: i64, cz: i64, n: usize) -> (r: usize)
    requires
        0 < n,
    ensures
        r as int == hash_s(cx as int, cy as int, cz as int, n as int),
        r < n,
{
    let cxu: u64 = #[verifier::truncate] (cx as u64);
    let cyu: u64 = #[verifier::truncate] (cy as u64);
    let czu: u64 = #[verifier::truncate] (cz as u64);
    let px: u64 = cxu.wrapping_mul(HASH_PRIME_X);
    let py: u64 = cyu.wrapping_mul(HASH_PRIME_Y);
    let pz: u64 = czu.wrapping_mul(HASH_PRIME_Z);
    let h: u64 = px ^ py ^ pz;
    let r = (h % (n as u64)) as usize;
    r
}

/// The running sum of the first `i` scale vectors.
pub open spec fn scale_sum(s: Seq<Cuboid>, i: int) -> V3
    decreases i,
{
    if i <= 0 {
        crate::math::zerov()
    } else {
        crate::math::addv(scale_sum(s, i - 1), s[i - 1].scale@)
    }
}

/// A bucket table ready for binning.
pub open spec fn grid_wf(g: HashGrid) -> bool {
    &&& g.buckets@.len() == g.n
    &&& 1 <= g.n <= MAX_BODIES
    &&& 4 * MIN_EXTENT <= g.spacing@.x <= 4 * MAX_EXTENT
    &&& 4 * MIN_EXTENT <= g.spacing@.y <= 4 * MAX_EXTENT
    &&& 4 * MIN_EXTENT <= g.spacing@.z <= 4 * MAX_EXTENT
}

/// All bucket entries name bodies below `n`.
pub open spec fn grid_entries_ok(g: HashGrid, n: int) -> bool {
    forall|b: int, e: int|
        0 <= b < g.buckets@.len() && 0 <= e < g.buckets@[b]@.len() ==> (#[trigger] g.buckets@[b]@[e])
            < n
}

/// The uniform spatial hash: a fixed array of buckets, with the cell
/// spacing chosen once as four times the mean body extent.
#[derive(Debug)]
pub struct HashGrid {
    pub spacing: Vec3,
    pub buckets: Vec<Vec<usize>>,
    pub n: usize,
}

proof fn lemma_push_keeps<T>(s: Seq<T>, v: T, x: T)
    requires
        s.contains(x),
    ensures
        s.push(v).contains(x),
{
    let i = choose|i: int| 0 <= i < s.len() && s[i] == x;
    assert(s.push(v)[i] == x);
}

impl HashGrid {
    /// Size the grid from the initial population: one bucket per body, and
    /// a cell spacing of four mean extents.
    pub fn new(instances: &Vec<Cuboid>, n: usize) -> (r: HashGrid)
        requires
            1 <= n <= MAX_BODIES,
            n <= instances@.len(),
            forall|j: int| 0 <= j < n ==> crate::world::body_args_ok(#[trigger] instances@[j]),
        ensures
            r.n == n,
            grid_wf(r),
            grid_entries_ok(r, 0),
            forall|b: int| 0 <= b < n ==> (#[trigger] r.buckets@[b])@.len() == 0,
            ({
                let total = scale_sum(instances@, n as int);
                r.spacing@ == (V3 {
                    x: total.x / n as int * 4,
                    y: total.y / n as int * 4,
                    z: total.z / n as int * 4,
                })
            }),
    {
        let mut buckets: Vec<Vec<usize>> = Vec::new();
        let mut k: usize = 0;
        while k < n
            invariant
                0 <= k <= n,
                buckets@.len() == k,
                forall|b: int| 0 <= b < k ==> (#[trigger] buckets@[b])@.len() == 0,
            decreases n - k,
        {
            buckets.push(Vec::new());
            k += 1;
        }
        let mut sx: i64 = 0;
        let mut sy: i64 = 0;
        let mut sz: i64 = 0;
        let mut i: usize = 0;
        while i < n
            invariant
                0 <= i <= n,
                n <= instances@.len(),
                n <= MAX_BODIES,
                forall|j: int| 0 <= j < n ==> crate::world::body_args_ok(#[trigger] instances@[j]),
                sx == scale_sum(instances@, i as int).x,
                sy == scale_sum(instances@, i as int).y,
                sz == scale_sum(instances@, i as int).z,
                i as int * MIN_EXTENT <= sx <= i as int * MAX_EXTENT,
                i as int * MIN_EXTENT <= sy <= i as int * MAX_EXTENT,
                i as int * MIN_EXTENT <= sz <= i as int * MAX_EXTENT,
            decreases n - i,
        {
            proof {
                assert((i + 1) * MIN_EXTENT == i * MIN_EXTENT + MIN_EXTENT && (i + 1) * MAX_EXTENT
                    == i * MAX_EXTENT + MAX_EXTENT) by (nonlinear_arith);
                assert(n * MAX_EXTENT <= 0x10_0000int * MAX_EXTENT) by (nonlinear_arith)
                    requires
                        n <= 0x10_0000 && MAX_EXTENT == 3_000_000_000i64,
                ;
            }
            let b = &instances[i];
            sx = sx + b.scale.x;
            sy = sy + b.scale.y;
            sz = sz + b.scale.z;
            i += 1;
        }
        proof {
            assert(n as int * MIN_EXTENT >= 0 && n as int * MAX_EXTENT <= 0x10_0000int
                * MAX_EXTENT) by (nonlinear_arith)
                requires
                    1 <= n <= 0x10_0000 && MIN_EXTENT == 1_000i64 && MAX_EXTENT
                        == 3_000_000_000i64,
            ;
            lemma_mean_bounds(sx as int, n as int);
            lemma_mean_bounds(sy as int, n as int);
            lemma_mean_bounds(sz as int, n as int);
        }
        let mx = ((sx as u64) / (n as u64)) as i64 * 4;
        let my = ((sy as u64) / (n as u64)) as i64 * 4;
        let mz = ((sz as u64) / (n as u64)) as i64 * 4;
        HashGrid { spacing: Vec3 { x: mx, y: my, z: mz }, buckets, n }
    }

    /// Empty every bucket for the next tick.
    pub fn clear(&mut self)
        requires
            old(self).buckets@.len() == old(self).n,
        ensures
            final(self).n == old(self).n,
            final(self).spacing == old(self).spacing,
            final(self).buckets@.len() == old(self).n,
            forall|b: int|
                0 <= b < final(self).n ==> (#[trigger] final(self).buckets@[b])@.len() == 0,
    {
        let n = self.n;
        let mut k: usize = 0;
        while k < n
            invariant
                n == self.n,
                self.spacing == old(self).spacing,
                0 <= k <= n,
                self.buckets@.len() == n,
                forall|b: int| 0 <= b < k ==> (#[trigger] self.buckets@[b])@.len() == 0,
            decreases n - k,
        {
            self.buckets.set(k, Vec::new());
            k += 1;
        }
    }

    /// The bucket list of one body: the hash of every grid cell its
    /// bounding box covers.
    pub fn cell_indices(instance: &Cuboid, spacing: Vec3, n: usize) -> (r: Vec<usize>)
        requires
            aabb_wf(instance.aabb),
            crate::math::bounded3(instance.aabb.min@, crate::world::CORNER_MAX as int),
            crate::math::bounded3(instance.aabb.max@, crate::world::CORNER_MAX as int),
            spacing@.x > 0,
            spacing@.y > 0,
            spacing@.z > 0,
            0 < n,
        ensures
            cell_list_complete(instance.aabb, spacing@, n as int, r@),
            forall|k: int| 0 <= k < r@.len() ==> r@[k] < n,
            cell_list_sound(instance.aabb, spacing@, n as int, r@),
    {
        let aabb = instance.aabb;
        let x0 = floor_div(aabb.min.x, spacing.x);
        let x1 = floor_div(aabb.max.x, spacing.x);
        let y0 = floor_div(aabb.min.y, spacing.y);
        let y1 = floor_div(aabb.max.y, spacing.y);
        let z0 = floor_div(aabb.min.z, spacing.z);
        let z1 = floor_div(aabb.max.z, spacing.z);
        proof {
            lemma_div_is_ordered(aabb.min@.x, aabb.max@.x, spacing@.x);
            lemma_div_is_ordered(aabb.min@.y, aabb.max@.y, spacing@.y);
            lemma_div_is_ordered(aabb.min@.z, aabb.max@.z, spacing@.z);
        }
        let mut out: Vec<usize> = Vec::new();
        let mut x = x0;
        while x <= x1
            invariant
                x0 == aabb.min@.x / spacing@.x,
                x1 == aabb.max@.x / spacing@.x,
                y0 == aabb.min@.y / spacing@.y,
                y1 == aabb.max@.y / spacing@.y,
                z0 == aabb.min@.z / spacing@.z,
                z1 == aabb.max@.z / spacing@.z,
                abs_i(x1 as int) <= 0x8000_0000_0000int,
                abs_i(y1 as int) <= 0x8000_0000_0000int,
                abs_i(z1 as int) <= 0x8000_0000_0000int,
                y0 <= y1,
                z0 <= z1,
                x0 <= x <= x1 + 1,
                0 < n,
                forall|k: int| 0 <= k < out@.len() ==> out@[k] < n,
                cell_list_sound(aabb, spacing@, n as int, out@),
                forall|cx: int, cy: int, cz: int|
                    covers(aabb, spacing@, cx, cy, cz) && cx < x ==> out@.contains(
                        #[trigger] hash_s(cx, cy, cz, n as int) as usize,
                    ),
            decreases x1 + 1 - x,
        {
            let mut y = y0;
            while y <= y1
                invariant
                    x0 == aabb.min@.x / spacing@.x,
                    x1 == aabb.max@.x / spacing@.x,
                    y0 == aabb.min@.y / spacing@.y,
                    y1 == aabb.max@.y / spacing@.y,
                    z0 == aabb.min@.z / spacing@.z,
                    z1 == aabb.max@.z / spacing@.z,
                    abs_i(y1 as int) <= 0x8000_0000_0000int,
                    abs_i(z1 as int) <= 0x8000_0000_0000int,
                    z0 <= z1,
                    x0 <= x <= x1,
                    y0 <= y <= y1 + 1,
                    0 < n,
                    forall|k: int| 0 <= k < out@.len() ==> out@[k] < n,
                cell_list_sound(aabb, spacing@, n as int, out@),
                    forall|cx: int, cy: int, cz: int|
                        covers(aabb, spacing@, cx, cy, cz) && (cx < x || (cx == x && cy < y))
                            ==> out@.contains(#[trigger] hash_s(cx, cy, cz, n as int) as usize),
                decreases y1 + 1 - y,
            {
                let mut z = z0;
                while z <= z1
                    invariant
                        x0 == aabb.min@.x / spacing@.x,
                        x1 == aabb.max@.x / spacing@.x,
                        y0 == aabb.min@.y / spacing@.y,
                        y1 == aabb.max@.y / spacing@.y,
                        z0 == aabb.min@.z / spacing@.z,
                        z1 == aabb.max@.z / spacing@.z,
                        abs_i(z1 as int) <= 0x8000_0000_0000int,
                        x0 <= x <= x1,
                        y0 <= y <= y1,
                        z0 <= z <= z1 + 1,
                        0 < n,
                        forall|k: int| 0 <= k < out@.len() ==> out@[k] < n,
                cell_list_sound(aabb, spacing@, n as int, out@),
                        forall|cx: int, cy: int, cz: int|
                            covers(aabb, spacing@, cx, cy, cz) && (cx < x || (cx == x && cy < y)
                                || (cx == x && cy == y && cz < z)) ==> out@.contains(
                                #[trigger] hash_s(cx, cy, cz, n as int) as usize,
                            ),
                    decreases z1 + 1 - z,
                {
                    let h = hash_cell(x, y, z, n);
                    let ghost pre_out = out@;
                    proof {
                        assert forall|cx: int, cy: int, cz: int|
                            covers(aabb, spacing@, cx, cy, cz) && (cx < x || (cx == x && cy < y)
                                || (cx == x && cy == y && cz < z)) implies out@.push(h).contains(
                            #[trigger] hash_s(cx, cy, cz, n as int) as usize,
                        ) by {
                            lemma_push_keeps(out@, h, hash_s(cx, cy, cz, n as int) as usize);
                        }
                    }
                    out.push(h);
                    proof {
                        assert(out@.contains(hash_s(x as int, y as int, z as int, n as int)
                            as usize)) by {
                            assert(out@[out@.len() - 1] == h);
                        }
                        assert(covers(aabb, spacing@, x as int, y as int, z as int));
                        assert forall|k: int|
                            #![trigger out@[k]]
                            0 <= k < out@.len() implies exists|cx: int, cy: int, cz: int|
                            #[trigger] covers(aabb, spacing@, cx, cy, cz) && out@[k] == hash_s(
                                cx,
                                cy,
                                cz,
                                n as int,
                            ) as usize by {
                            if k < pre_out.len() {
                                assert(out@[k] == pre_out[k]);
                            } else {
                                assert(out@[k] == h);
                                assert(covers(aabb, spacing@, x as int, y as int, z as int)
                                    && out@[k] == hash_s(x as int, y as int, z as int, n as int)
                                    as usize);
                            }
                        }
                    }
                    z += 1;
                }
                y += 1;
            }
            x += 1;
        }
        out
    }

    /// Bin every body into the buckets of the cells its box covers;
    /// returns whether some bucket grew past a tenth of the body count
    /// (a sign of degenerate hashing or heavy clustering).
    pub fn init(&mut self, instances: &Vec<Cuboid>) -> (crowded: bool)
        requires
            grid_wf(*old(self)),
            forall|b: int| 0 <= b < old(self).n ==> (#[trigger] old(self).buckets@[b])@.len() == 0,
            old(self).n <= instances@.len(),
            forall|j: int|
                0 <= j < old(self).n ==> body_ok(#[trigger] instances@[j]) && instances@[j].index
                    == j,
        ensures
            final(self).n == old(self).n,
            final(self).spacing == old(self).spacing,
            grid_wf(*final(self)),
            grid_entries_ok(*final(self), old(self).n as int),
            forall|i: int, cx: int, cy: int, cz: int|
                #![trigger covers(instances@[i].aabb, old(self).spacing@, cx, cy, cz)]
                0 <= i < old(self).n && covers(instances@[i].aabb, old(self).spacing@, cx, cy, cz)
                    ==> bucket_contains(
                    final(self).buckets@,
                    hash_s(cx, cy, cz, old(self).n as int),
                    i as usize,
                ),
    {
        let n = self.n;
        let mut i: usize = 0;
        while i < n
            invariant
                n == self.n,
                self.spacing == old(self).spacing,
                grid_wf(*self),
                n <= instances@.len(),
                0 <= i <= n,
                forall|j: int|
                    0 <= j < n ==> body_ok(#[trigger] instances@[j]) && instances@[j].index == j,
                grid_entries_ok(*self, n as int),
                forall|bi: int, cx: int, cy: int, cz: int|
                    #![trigger covers(instances@[bi].aabb, old(self).spacing@, cx, cy, cz)]
                    0 <= bi < i && covers(instances@[bi].aabb, old(self).spacing@, cx, cy, cz)
                        ==> bucket_contains(
                        self.buckets@,
                        hash_s(cx, cy, cz, n as int),
                        bi as usize,
                    ),
            decreases n - i,
        {
            proof {
                crate::world::lemma_aabb_bounds(instances@[i as int]);
            }
            let cells = Self::cell_indices(&instances[i], self.spacing, n);
            let n_cells = cells.len();
            let mut c: usize = 0;
            while c < n_cells
                invariant
                    n == self.n,
                    self.spacing == old(self).spacing,
                    grid_wf(*self),
                    n <= instances@.len(),
                    0 <= i < n,
                    0 <= c <= n_cells,
                    n_cells == cells@.len(),
                    forall|k: int| 0 <= k < cells@.len() ==> cells@[k] < n,
                    forall|j: int|
                        0 <= j < n ==> body_ok(#[trigger] instances@[j]) && instances@[j].index
                            == j,
                    grid_entries_ok(*self, n as int),
                    forall|bi: int, cx: int, cy: int, cz: int|
                        #![trigger covers(instances@[bi].aabb, old(self).spacing@, cx, cy, cz)]
                        0 <= bi < i && covers(instances@[bi].aabb, old(self).spacing@, cx, cy, cz)
                            ==> bucket_contains(
                            self.buckets@,
                            hash_s(cx, cy, cz, n as int),
                            bi as usize,
                        ),
                    forall|k: int|
                        0 <= k < c ==> bucket_contains(
                            self.buckets@,
                            (#[trigger] cells@[k]) as int,
                            i as usize,
                        ),
                decreases n_cells - c,
            {
                let b = cells[c];
                let ghost pre = self.buckets@;
                let ghost preb = self.buckets@[b as int];
                let mut tmp: Vec<usize> = Vec::new();
                self.buckets.set_and_swap(b, &mut tmp);
                proof {
                    assert(tmp == preb);
                }
                tmp.push(i);
                self.buckets.set_and_swap(b, &mut tmp);
                proof {
                    assert(self.buckets@ =~= pre.update(b as int, self.buckets@[b as int]));
                    assert(self.buckets@[b as int]@ =~= preb@.push(i));
                    assert forall|b2: int, x: usize|
                        0 <= b2 < pre.len() && bucket_contains(pre, b2, x) implies bucket_contains(
                        self.buckets@,
                        b2,
                        x,
                    ) by {
                        if b2 == b as int {
                            lemma_push_keeps(pre[b2]@, i, x);
                        }
                    }
                    assert(self.buckets@[b as int]@[preb@.len() as int] == i);
                    assert(bucket_contains(self.buckets@, b as int, i));
                }
                c += 1;
            }
            i += 1;
        }
        // Diagnostic: report heavy clustering instead of printing.
        let ghost done = *self;
        let mut crowded = false;
        let mut k: usize = 0;
        while k < n
            invariant
                n == self.n,
                *self == done,
                self.buckets@.len() == n,
                0 <= k <= n,
                crowded == (exists|b: int|
                    0 <= b < k && (#[trigger] self.buckets@[b])@.len() > n as int / 10),
            decreases n - k,
        {
            if self.buckets[k].len() > n / 10 {
                crowded = true;
            }
            k += 1;
        }
        crowded
    }
}

/// Body `x` appears in bucket `b`.
pub open spec fn bucket_contains(bs: Seq<Vec<usize>>, b: int, x: usize) -> bool {
    0 <= b < bs.len() && bs[b]@.contains(x)
}

/// The broad-phase guarantee on the built table: once `init` has binned
/// two bodies whose bounding boxes intersect, some bucket holds them both,
/// so the same-bucket pair scan cannot miss the pair.
pub proof fn lemma_bodies_share_bucket(g: HashGrid, a: AABB, b: AABB, ai: usize, bi: usize, n: int)
    requires
        aabb_wf(a),
        aabb_wf(b),
        aabb_isect(a, b),
        g.spacing@.x > 0,
        g.spacing@.y > 0,
        g.spacing@.z > 0,
        forall|cx: int, cy: int, cz: int|
            #[trigger] covers(a, g.spacing@, cx, cy, cz) ==> bucket_contains(
                g.buckets@,
                hash_s(cx, cy, cz, n),
                ai,
            ),
        forall|cx: int, cy: int, cz: int|
            #[trigger] covers(b, g.spacing@, cx, cy, cz) ==> bucket_contains(
                g.buckets@,
                hash_s(cx, cy, cz, n),
                bi,
            ),
    ensures
        exists|k: int|
            bucket_contains(g.buckets@, k, ai) && #[trigger] bucket_contains(g.buckets@, k, bi),
{
    lemma_shared_cell(a, b, g.spacing@);
    let (cx, cy, cz) = choose|cx: int, cy: int, cz: int|
        #[trigger] covers(a, g.spacing@, cx, cy, cz) && covers(b, g.spacing@, cx, cy, cz);
    let k = hash_s(cx, cy, cz, n);
    assert(bucket_contains(g.buckets@, k, ai) && bucket_contains(g.buckets@, k, bi));
}

/// The mean of `i` values between the extent bounds is between them too.
proof fn lemma_mean_bounds(sum: int, n: int)
    requires
        1 <= n,
        n * MIN_EXTENT <= sum <= n * MAX_EXTENT,
    ensures
        MIN_EXTENT <= sum / n <= MAX_EXTENT,
        0 <= sum,
{
    assert(n * MIN_EXTENT >= MIN_EXTENT && sum >= 0) by (nonlinear_arith)
        requires
            n >= 1 && MIN_EXTENT == 1_000i64 && n * MIN_EXTENT <= sum,
    ;
    lemma_div_is_ordered(n * MIN_EXTENT, sum, n);
    lemma_div_is_ordered(sum, n * MAX_EXTENT, n);
    assert((n * MIN_EXTENT) / n == MIN_EXTENT && (n * MAX_EXTENT) / n == MAX_EXTENT)
        by (nonlinear_arith)
        requires
            n >= 1,
    ;
}

} // verus!
