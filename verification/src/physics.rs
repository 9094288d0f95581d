//! Narrow-phase collision detection: the separating-axis test over the 15
//! candidate axes of a box pair, and contact-manifold generation by
//! Sutherland-Hodgman clipping.

use vstd::prelude::*;

verus! {

use crate::fixed::EPSILON;
use crate::fixed::SCALE;
use crate::fixed::abs_i;
use crate::fixed::in_range;
use crate::fixed::tdiv;
use crate::math::V3;
use crate::math::Vec3;
use crate::math::bounded3;
use crate::math::crossv;
use crate::math::dot_raw;
use crate::math::dotv;
use crate::math::lemma_crossv_bound;
use crate::math::lemma_dotv_bound;
use crate::math::magv;
use crate::math::negv;
use crate::math::Plane;
use crate::math::normv;
use crate::math::okv;
use crate::math::smulv;
use crate::math::subv;
use crate::math::zerov;
use crate::world::CORNER_MAX;
use crate::world::Cuboid;
use crate::world::body_ok;
use crate::world::body_args_ok;
use crate::world::corner_delta;
use crate::world::corner_s;
use crate::world::face_axis_s;
use crate::world::face_dir_s;
use crate::world::fold_max8;
use crate::world::fold_min8;
use crate::world::lemma_corner_bounds;
use crate::world::lemma_face_axis_props;
use crate::world::max_i;
use crate::world::min_i;
use crate::world::imin;
use crate::world::imax;

/// Bound on any projection of a corner onto a unit axis.
pub const PROJ_MAX: i64 = 0x1_8000_0000_0000;

/// Bound on an interval overlap (and so on any MTV component).
pub const OVERLAP_MAX: i64 = 0x3_0000_0000_0000;

/// How two boxes touch: across a face, or edge to edge (carrying the two
/// contributing face axes, one of each body). Edge-edge contacts still go
/// through the same face-clipping manifold path; that is a known limitation
/// of this solver family, kept deliberately.
#[derive(PartialEq, Eq, Structural, Debug, Clone, Copy)]
pub enum CollisionType {
    Face,
    EdgeEdge(Vec3, Vec3),
}

/// One contact: a world position and its non-negative penetration depth.
#[derive(Clone, Copy, Debug, PartialEq, Eq, Structural)]
pub struct ContactPoint {
    pub point: Vec3,
    pub depth: i64,
}

/// A detected collision: the pair of body indices, the minimum translation
/// vector (oriented from `other` toward `instance`), its classification,
/// and up to eight contact points.
#[derive(Debug)]
pub struct CollisionInfo {
    pub instance_index: usize,
    pub other_index: usize,
    pub mtv: Vec3,
    pub collision_type: CollisionType,
    pub manifold: Vec<ContactPoint>,
}

/// Candidate edge-edge axis `(i, j)`: the normalized cross product of the
/// two face axes, or zero when the faces are (near) parallel; a zero axis
/// is skipped by the scan.
#[verifier::opaque]
pub open spec fn edge_axis_s(a: Cuboid, b: Cuboid, i: int, j: int) -> V3 {
    let c = crossv(face_axis_s(a.rotation@, i), face_axis_s(b.rotation@, j));
    if magv(c) <= EPSILON {
        zerov()
    } else {
        normv(c)
    }
}

/// The fifteen candidate separating axes, in scan order: the face axes of
/// `a`, the face axes of `b`, then the nine edge-edge cross axes.
pub open spec fn sat_axis(a: Cuboid, b: Cuboid, i: int) -> V3 {
    if i < 3 {
        face_axis_s(a.rotation@, i)
    } else if i < 6 {
        face_axis_s(b.rotation@, i - 3)
    } else {
        edge_axis_s(a, b, (i - 6) / 3, (i - 6) % 3)
    }
}

/// The eight corner projections of a box onto an axis.
pub open spec fn proj_seq(c: Cuboid, ax: V3) -> Seq<int> {
    Seq::new(8, |k: int| dotv(corner_s(c, k), ax))
}

#[verifier::opaque]
pub open spec fn proj_lo(c: Cuboid, ax: V3) -> int {
    fold_min8(proj_seq(c, ax))
}

#[verifier::opaque]
pub open spec fn proj_hi(c: Cuboid, ax: V3) -> int {
    fold_max8(proj_seq(c, ax))
}

/// The scan state after examining the first `i` axes: `None` once a
/// separating axis has been found (the pair is disjoint); otherwise the
/// smallest positive overlap seen so far with its axis index, if any valid
/// axis has been examined.
pub open spec fn sat_scan(a: Cuboid, b: Cuboid, i: int) -> Option<Option<(int, int)>>
    decreases i,
{
    if i <= 0 {
        Some(None)
    } else {
        match sat_scan(a, b, i - 1) {
            Option::None => Option::None,
            Option::Some(best) => {
                let ax = sat_axis(a, b, i - 1);
                if magv(ax) <= EPSILON {
                    Some(best)
                } else {
                    let lo1 = proj_lo(a, ax);
                    let hi1 = proj_hi(a, ax);
                    let lo2 = proj_lo(b, ax);
                    let hi2 = proj_hi(b, ax);
                    if hi1 < lo2 || hi2 < lo1 {
                        Option::None
                    } else {
                        let ov = min_i(hi1, hi2) - max_i(lo1, lo2);
                        match best {
                            Option::None => Some(Some((ov, i - 1))),
                            Option::Some((bo, bi)) => {
                                if ov < bo {
                                    Some(Some((ov, i - 1)))
                                } else {
                                    Some(best)
                                }
                            },
                        }
                    }
                }
            },
        }
    }
}

/// The separating-axis test succeeds (boxes overlap on every valid axis,
/// and at least one axis was valid).
pub open spec fn sat_found(a: Cuboid, b: Cuboid) -> bool {
    match sat_scan(a, b, 15) {
        Option::Some(Option::Some(p)) => true,
        _ => false,
    }
}

/// The minimal overlap across the valid axes.
pub open spec fn sat_overlap(a: Cuboid, b: Cuboid) -> int {
    sat_scan(a, b, 15).unwrap().unwrap().0
}

/// The index of the first axis attaining the minimal overlap.
pub open spec fn sat_index(a: Cuboid, b: Cuboid) -> int {
    sat_scan(a, b, 15).unwrap().unwrap().1
}

/// The minimum translation vector: the minimizing axis scaled by its
/// overlap, flipped if needed so it points from `b` toward `a`.
pub open spec fn sat_mtv_s(a: Cuboid, b: Cuboid) -> V3 {
    let ax = sat_axis(a, b, sat_index(a, b));
    let scaled = smulv(ax, sat_overlap(a, b));
    if dot_raw(subv(a.position@, b.position@), scaled) < 0 {
        negv(scaled)
    } else {
        scaled
    }
}

/// Once an axis separates the boxes, the scan stays separated.
proof fn lemma_scan_none(a: Cuboid, b: Cuboid, i: int, j: int)
    requires
        0 <= i <= j,
        sat_scan(a, b, i) is None,
    ensures
        sat_scan(a, b, j) is None,
    decreases j - i,
{
    if i < j {
        lemma_scan_none(a, b, i + 1, j);
    }
}

/// Every axis the scan can select is one of the fifteen candidates, its
/// overlap is non-negative, and it is a valid (non-degenerate) axis.
proof fn lemma_scan_props(a: Cuboid, b: Cuboid, i: int)
    requires
        body_args_ok(a),
        body_args_ok(b),
        0 <= i <= 15,
    ensures
        match sat_scan(a, b, i) {
            Option::Some(Option::Some((ov, idx))) => 0 <= idx < i && 0 <= ov <= 2 * (
            PROJ_MAX as int) && magv(sat_axis(a, b, idx)) > EPSILON,
            _ => true,
        },
    decreases i,
{
    if i > 0 {
        lemma_scan_props(a, b, i - 1);
        lemma_axis_bounds(a, b, i - 1);
        let ax = sat_axis(a, b, i - 1);
        if sat_scan(a, b, i - 1) is Some && magv(ax) > EPSILON {
            lemma_proj_bounds(a, ax);
            lemma_proj_bounds(b, ax);
        }
    }
}

/// Projections of a well-formed box onto a unit-bounded axis stay within
/// `PROJ_MAX`.
proof fn lemma_proj_bounds(c: Cuboid, ax: V3)
    requires
        body_args_ok(c),
        bounded3(ax, SCALE as int),
    ensures
        forall|k: int| 0 <= k < 8 ==> abs_i(#[trigger] proj_seq(c, ax)[k]) <= PROJ_MAX as int,
        abs_i(proj_lo(c, ax)) <= PROJ_MAX as int,
        abs_i(proj_hi(c, ax)) <= PROJ_MAX as int,
        proj_lo(c, ax) <= proj_hi(c, ax),
{
    reveal(proj_lo);
    reveal(proj_hi);
    assert forall|k: int| 0 <= k < 8 implies abs_i(#[trigger] proj_seq(c, ax)[k])
        <= PROJ_MAX as int by {
        lemma_corner_bounds(c, k);
        lemma_dotv_bound(corner_s(c, k), ax, CORNER_MAX as int, SCALE as int, PROJ_MAX as int);
        assert(3 * (CORNER_MAX as int) * (SCALE as int) <= (PROJ_MAX as int) * (SCALE as int))
            by (nonlinear_arith)
            requires
                CORNER_MAX == 0x8000_0000_0000i64 && PROJ_MAX == 0x1_8000_0000_0000i64 && SCALE
                    == 1_000_000i64,
        ;
    }
    assert(proj_lo(c, ax) <= proj_seq(c, ax)[0] <= proj_hi(c, ax));
}

/// Every candidate axis is unit-bounded.
proof fn lemma_axis_bounds(a: Cuboid, b: Cuboid, i: int)
    requires
        body_args_ok(a),
        body_args_ok(b),
        0 <= i < 15,
    ensures
        bounded3(sat_axis(a, b, i), SCALE as int),
        okv(sat_axis(a, b, i)),
{
    if i < 3 {
        lemma_face_axis_props(a.rotation@, i);
    } else if i < 6 {
        lemma_face_axis_props(b.rotation@, i - 3);
    } else {
        lemma_edge_axis_bounds(a, b, (i - 6) / 3, (i - 6) % 3);
    }
}

proof fn lemma_edge_axis_bounds(a: Cuboid, b: Cuboid, i: int, j: int)
    requires
        body_args_ok(a),
        body_args_ok(b),
        0 <= i < 3,
        0 <= j < 3,
    ensures
        bounded3(edge_axis_s(a, b, i, j), SCALE as int),
        okv(edge_axis_s(a, b, i, j)),
{
    reveal(edge_axis_s);
    lemma_face_axis_props(a.rotation@, i);
    lemma_face_axis_props(b.rotation@, j);
    let fa = face_axis_s(a.rotation@, i);
    let fb = face_axis_s(b.rotation@, j);
    assert(2 * (SCALE as int) * (SCALE as int) <= (2 * SCALE as int) * (SCALE as int))
        by (nonlinear_arith);
    lemma_crossv_bound(fa, fb, SCALE as int, SCALE as int, 2 * SCALE as int);
    let c = crossv(fa, fb);
    if magv(c) > EPSILON {
        crate::math::lemma_norm_result(c, normv(c));
    }
}

/// Project all eight corners of a box onto an axis; returns the interval.
fn project(c: &Cuboid, axis: &Vec3) -> (r: (i64, i64))
    requires
        body_ok(*c),
        bounded3(axis@, SCALE as int),
    ensures
        r.0 == proj_lo(*c, axis@),
        r.1 == proj_hi(*c, axis@),
        r.0 <= r.1,
        abs_i(r.0 as int) <= PROJ_MAX as int,
        abs_i(r.1 as int) <= PROJ_MAX as int,
{
    proof {
        reveal(proj_lo);
        reveal(proj_hi);
        lemma_proj_bounds(*c, axis@);
        assert forall|k: int| 0 <= k < 8 implies okv(#[trigger] corner_s(*c, k)) && in_range(
            dotv(corner_s(*c, k), axis@),
        ) by {
            lemma_corner_bounds(*c, k);
            assert(abs_i(proj_seq(*c, axis@)[k]) <= PROJ_MAX as int);
        }
    }
    let d0 = c.corners[0].dot(axis);
    let d1 = c.corners[1].dot(axis);
    let d2 = c.corners[2].dot(axis);
    let d3 = c.corners[3].dot(axis);
    let d4 = c.corners[4].dot(axis);
    let d5 = c.corners[5].dot(axis);
    let d6 = c.corners[6].dot(axis);
    let d7 = c.corners[7].dot(axis);
    let lo = imin(imin(imin(d0, d1), imin(d2, d3)), imin(imin(d4, d5), imin(d6, d7)));
    let hi = imax(imax(imax(d0, d1), imax(d2, d3)), imax(imax(d4, d5), imax(d6, d7)));
    proof {
        assert(proj_seq(*c, axis@)[0] == dotv(corner_s(*c, 0), axis@));
        assert(lo == fold_min8(proj_seq(*c, axis@)));
        assert(hi == fold_max8(proj_seq(*c, axis@)));
    }
    (lo, hi)
}

/// The separating-axis test: `None` when some candidate axis separates the
/// boxes (or, vacuously, when every axis is degenerate); otherwise the MTV
/// and the collision classification from the minimizing axis.
pub fn sat(instance: &Cuboid, other: &Cuboid) -> (r: Option<(Vec3, CollisionType)>)
    requires
        body_ok(*instance),
        body_ok(*other),
    ensures
        r is Some <==> sat_found(*instance, *other),
        r is Some ==> r.unwrap().0@ == sat_mtv_s(*instance, *other),
        r is Some ==> bounded3(r.unwrap().0@, OVERLAP_MAX as int),
        r is Some ==> (sat_index(*instance, *other) < 6 <==> r.unwrap().1 == CollisionType::Face),
        r is Some && sat_index(*instance, *other) >= 6 ==> ({
            let idx = sat_index(*instance, *other);
            r.unwrap().1 == CollisionType::EdgeEdge(
                instance.face_axes[(idx - 6) / 3],
                other.face_axes[(idx - 6) % 3],
            )
        }),
{
    let a = instance;
    let b = other;
    // Build the nine edge-edge candidate axes.
    let zero = Vec3 { x: 0, y: 0, z: 0 };
    let mut edge_axes = [zero, zero, zero, zero, zero, zero, zero, zero, zero];
    let mut t: usize = 0;
    while t < 9
        invariant
            a == instance && b == other,
            body_ok(*a),
            body_ok(*b),
            0 <= t <= 9,
            forall|u: int|
                0 <= u < t ==> (#[trigger] edge_axes@[u])@ == edge_axis_s(*a, *b, u / 3, u % 3),
        decreases 9 - t,
    {
        let i = t / 3;
        let j = t % 3;
        proof {
            reveal(edge_axis_s);
            lemma_face_axis_props(a.rotation@, i as int);
            lemma_face_axis_props(b.rotation@, j as int);
            assert(2 * (SCALE as int) * (SCALE as int) <= (2 * SCALE as int) * (SCALE as int))
                by (nonlinear_arith);
            lemma_crossv_bound(
                face_axis_s(a.rotation@, i as int),
                face_axis_s(b.rotation@, j as int),
                SCALE as int,
                SCALE as int,
                2 * SCALE as int,
            );
        }
        let cross = a.face_axes[i].cross(&b.face_axes[j]);
        let next = match cross.normalize() {
            Some(u) => u,
            None => Vec3 { x: 0, y: 0, z: 0 },
        };
        edge_axes[t] = next;
        proof {
            reveal(edge_axis_s);
            let ghost ea = edge_axis_s(*a, *b, t as int / 3, t as int % 3);
            assert(i as int == t as int / 3 && j as int == t as int % 3);
            assert(cross@ == crossv(
                face_axis_s(a.rotation@, t as int / 3),
                face_axis_s(b.rotation@, t as int % 3),
            ));
            assert(ea == (if magv(cross@) <= EPSILON {
                zerov()
            } else {
                normv(cross@)
            }));
            assert((edge_axes@[t as int])@ == ea);
        }
        t += 1;
    }
    // Scan the fifteen axes for the smallest positive overlap.
    let mut have_best = false;
    let mut best_ov: i64 = 0;
    let mut best_idx: usize = 0;
    let mut i: usize = 0;
    while i < 15
        invariant
            a == instance && b == other,
            body_ok(*a),
            body_ok(*b),
            0 <= i <= 15,
            forall|u: int|
                0 <= u < 9 ==> (#[trigger] edge_axes@[u])@ == edge_axis_s(*a, *b, u / 3, u % 3),
            sat_scan(*a, *b, i as int) == (if have_best {
                Some(Some((best_ov as int, best_idx as int)))
            } else {
                Some(None::<(int, int)>)
            }),
            have_best ==> best_idx < i && 0 <= best_ov <= 2 * (PROJ_MAX as int),
        decreases 15 - i,
    {
        let axis = if i < 3 {
            a.face_axes[i]
        } else if i < 6 {
            b.face_axes[i - 3]
        } else {
            edge_axes[i - 6]
        };
        proof {
            lemma_axis_bounds(*a, *b, i as int);
            assert(axis@ == sat_axis(*a, *b, i as int));
        }
        let m = axis.mag();
        if m > EPSILON {
            let (lo1, hi1) = project(a, &axis);
            let (lo2, hi2) = project(b, &axis);
            if hi1 < lo2 || hi2 < lo1 {
                proof {
                    assert(sat_scan(*a, *b, i as int + 1) is None);
                    lemma_scan_none(*a, *b, i as int + 1, 15);
                }
                return None;
            }
            let ov = imin(hi1, hi2) - imax(lo1, lo2);
            if !have_best || ov < best_ov {
                have_best = true;
                best_ov = ov;
                best_idx = i;
            }
        }
        i += 1;
    }
    if !have_best {
        return None;
    }
    proof {
        lemma_scan_props(*a, *b, 15);
    }
    // Scale the minimizing axis by its overlap and orient it from b to a.
    let axis = if best_idx < 3 {
        a.face_axes[best_idx]
    } else if best_idx < 6 {
        b.face_axes[best_idx - 3]
    } else {
        edge_axes[best_idx - 6]
    };
    proof {
        lemma_axis_bounds(*a, *b, best_idx as int);
        assert(axis@ == sat_axis(*a, *b, best_idx as int));
        lemma_smul_overlap_fits(axis@, best_ov as int);
    }
    let scaled = axis.scaled(best_ov);
    let diff = a.position.minus(&b.position);
    let flipped = !diff.dot_sign_nonneg(&scaled);
    let mtv = if flipped {
        scaled.negate()
    } else {
        scaled
    };
    let ty = if best_idx < 6 {
        CollisionType::Face
    } else {
        CollisionType::EdgeEdge(a.face_axes[(best_idx - 6) / 3], b.face_axes[(best_idx - 6) % 3])
    };
    proof {
        assert(sat_found(*a, *b));
        assert(sat_overlap(*a, *b) == best_ov as int);
        assert(sat_index(*a, *b) == best_idx as int);
        assert(scaled@ == smulv(sat_axis(*a, *b, sat_index(*a, *b)), sat_overlap(*a, *b)));
        assert(mtv@ == sat_mtv_s(*a, *b));
    }
    Some((mtv, ty))
}

/// The views of a sequence of vectors.
pub open spec fn views3(s: Seq<Vec3>) -> Seq<V3> {
    Seq::new(s.len(), |i: int| s[i]@)
}

proof fn lemma_views3_push(s: Seq<Vec3>, v: Vec3)
    ensures
        views3(s.push(v)) == views3(s).push(v@),
{
    assert(views3(s.push(v)) =~= views3(s).push(v@));
}

/// Scan the six oriented face directions for the one most aligned with the
/// target, keeping the first maximum.
pub open spec fn argmax_dot_from(dirs: Seq<V3>, t: V3, i: int) -> (int, int)
    decreases i,
{
    if i <= 1 {
        (0int, dotv(dirs[0], t))
    } else {
        let prev = argmax_dot_from(dirs, t, i - 1);
        let d = dotv(dirs[i - 1], t);
        if d > prev.1 {
            (i - 1, d)
        } else {
            prev
        }
    }
}

/// The six face directions of a body, in scan order.
pub open spec fn face_dirs(c: Cuboid) -> Seq<V3> {
    Seq::new(6, |k: int| face_dir_s(c.rotation@, k))
}

/// The face of `c` whose outward direction is most aligned with `t`.
pub open spec fn best_face(c: Cuboid, t: V3) -> int {
    argmax_dot_from(face_dirs(c), t, 6).0
}

/// The index of the most aligned direction among six candidates.
fn most_aligned_with(vectors: &[Vec3; 6], target: &Vec3) -> (r: usize)
    requires
        forall|k: int| 0 <= k < 6 ==> bounded3((#[trigger] vectors@[k])@, SCALE as int),
        bounded3(target@, 2 * SCALE as int),
    ensures
        r < 6,
        r as int == argmax_dot_from(views3(vectors@), target@, 6).0,
{
    proof {
        assert forall|k: int| 0 <= k < 6 implies in_range(
            dotv((#[trigger] vectors@[k])@, target@),
        ) by {
            assert(3 * (SCALE as int) * (2 * SCALE as int) <= (6 * SCALE as int) * (SCALE as int))
                by (nonlinear_arith);
            lemma_dotv_bound(
                vectors@[k]@,
                target@,
                SCALE as int,
                2 * SCALE as int,
                6 * SCALE as int,
            );
        }
        assert(views3(vectors@)[0] == vectors@[0]@);
    }
    let mut best_idx: usize = 0;
    let mut best_dot: i64 = vectors[0].dot(target);
    let mut k: usize = 1;
    while k < 6
        invariant
            forall|j: int| 0 <= j < 6 ==> bounded3((#[trigger] vectors@[j])@, SCALE as int),
            bounded3(target@, 2 * SCALE as int),
            forall|j: int| 0 <= j < 6 ==> in_range(dotv((#[trigger] vectors@[j])@, target@)),
            1 <= k <= 6,
            best_idx < k,
            (best_idx as int, best_dot as int) == argmax_dot_from(
                views3(vectors@),
                target@,
                k as int,
            ),
        decreases 6 - k,
    {
        let d = vectors[k].dot(target);
        proof {
            assert(views3(vectors@)[k as int] == vectors@[k as int]@);
        }
        if d > best_dot {
            best_idx = k;
            best_dot = d;
        }
        k += 1;
    }
    best_idx
}

/// Corner indices of face `k`, in a winding whose edges, crossed with the
/// outward face direction, point out of the face polygon (what the clipper
/// relies on). Faces are ordered `+x, +y, +z, -x, -y, -z`.
pub open spec fn face_corner_idx(k: int, j: int) -> int {
    if k == 0 {
        seq![7int, 5int, 4int, 6int][j]
    } else if k == 1 {
        seq![7int, 6int, 2int, 3int][j]
    } else if k == 2 {
        seq![7int, 3int, 1int, 5int][j]
    } else if k == 3 {
        seq![3int, 2int, 0int, 1int][j]
    } else if k == 4 {
        seq![5int, 1int, 0int, 4int][j]
    } else {
        seq![6int, 4int, 0int, 2int][j]
    }
}

/// The four corners of face `k`, in winding order.
pub open spec fn face_verts(c: Cuboid, k: int) -> Seq<V3> {
    Seq::new(4, |j: int| corner_s(c, face_corner_idx(k, j)))
}

/// Corner `idx` lies on face `k`: its local offset has the face's sign on
/// the face's axis (the corner-index bits encode the offset signs).
pub open spec fn on_face(idx: int, k: int) -> bool {
    if k == 0 {
        idx >= 4
    } else if k == 1 {
        idx % 4 >= 2
    } else if k == 2 {
        idx % 2 == 1
    } else if k == 3 {
        idx < 4
    } else if k == 4 {
        idx % 4 < 2
    } else {
        idx % 2 == 0
    }
}

/// The signed local offset along face `k`'s outward axis.
pub open spec fn face_comp(v: V3, k: int) -> int {
    if k == 0 {
        v.x
    } else if k == 1 {
        v.y
    } else if k == 2 {
        v.z
    } else if k == 3 {
        -v.x
    } else if k == 4 {
        -v.y
    } else {
        -v.z
    }
}

/// The face table lists exactly the four corners lying on face `k`, each
/// once: every table entry is a distinct on-face corner index, and every
/// on-face corner index appears.
pub proof fn lemma_face_corner_cover(k: int)
    requires
        0 <= k < 6,
    ensures
        forall|j: int|
            0 <= j < 4 ==> 0 <= #[trigger] face_corner_idx(k, j) < 8 && on_face(
                face_corner_idx(k, j),
                k,
            ),
        forall|j1: int, j2: int|
            0 <= j1 < j2 < 4 ==> #[trigger] face_corner_idx(k, j1) != #[trigger] face_corner_idx(
                k,
                j2,
            ),
        forall|idx: int|
            0 <= idx < 8 && #[trigger] on_face(idx, k) ==> exists|j: int|
                0 <= j < 4 && #[trigger] face_corner_idx(k, j) == idx,
{
    assert(face_corner_idx(k, 0) == seq![7int, 5int, 4int, 6int][0] || k != 0);
    assert forall|idx: int| 0 <= idx < 8 && #[trigger] on_face(idx, k) implies exists|j: int|
        0 <= j < 4 && #[trigger] face_corner_idx(k, j) == idx by {
        if face_corner_idx(k, 0) == idx {
        } else if face_corner_idx(k, 1) == idx {
        } else if face_corner_idx(k, 2) == idx {
        } else {
            assert(face_corner_idx(k, 3) == idx);
        }
    }
}

/// Along its own outward axis, a face's corners sit at least as far out as
/// every corner of the box: the table picks the extremal corners (in the
/// body frame; rotation carries them to the world-space face).
pub proof fn lemma_face_corners_outermost(scale: V3, k: int)
    requires
        0 <= k < 6,
        scale.x > 0,
        scale.y > 0,
        scale.z > 0,
    ensures
        forall|j: int, m: int|
            0 <= j < 4 && 0 <= m < 8 ==> face_comp(
                corner_delta(scale, #[trigger] face_corner_idx(k, j)),
                k,
            ) >= face_comp(#[trigger] corner_delta(scale, m), k),
{
    crate::fixed::lemma_tdiv_bound(scale.x, 2, scale.x);
    crate::fixed::lemma_tdiv_bound(scale.y, 2, scale.y);
    crate::fixed::lemma_tdiv_bound(scale.z, 2, scale.z);
    assert(tdiv(scale.x, 2) >= 0 && tdiv(scale.y, 2) >= 0 && tdiv(scale.z, 2) >= 0) by {
        assert(abs_i(scale.x) / 2 >= 0 && abs_i(scale.y) / 2 >= 0 && abs_i(scale.z) / 2 >= 0)
            by (nonlinear_arith)
            requires
                scale.x > 0 && scale.y > 0 && scale.z > 0,
        ;
    }
    lemma_face_corner_cover(k);
}


/// The exact integer cross product (no fixed-point rescaling), for stating
/// body-frame geometry of the face tables.
pub open spec fn crossi(a: V3, b: V3) -> V3 {
    V3 { x: a.y * b.z - a.z * b.y, y: a.z * b.x - a.x * b.z, z: a.x * b.y - a.y * b.x }
}

/// The outward unit direction of face `k` in the body frame (components in
/// plain units of one, carrying only the sign).
pub open spec fn face_unit(k: int) -> V3 {
    if k == 0 {
        V3 { x: 1, y: 0, z: 0 }
    } else if k == 1 {
        V3 { x: 0, y: 1, z: 0 }
    } else if k == 2 {
        V3 { x: 0, y: 0, z: 1 }
    } else if k == 3 {
        V3 { x: -1, y: 0, z: 0 }
    } else if k == 4 {
        V3 { x: 0, y: -1, z: 0 }
    } else {
        V3 { x: 0, y: 0, z: -1 }
    }
}

/// Corner `j` of face `k` lies on the inner side of the plane the clipper
/// builds through side `st`: the side edge crossed with the outward face
/// direction, taken at the side's first vertex.
pub open spec fn side_plane_inner(scale: V3, k: int, st: int, j: int) -> bool {
    dot_raw(
        crossi(
            subv(
                corner_delta(scale, face_corner_idx(k, (st + 1) % 4)),
                corner_delta(scale, face_corner_idx(k, st)),
            ),
            face_unit(k),
        ),
        subv(corner_delta(scale, face_corner_idx(k, j)), corner_delta(scale, face_corner_idx(k, st))),
    ) <= 0
}

/// The face tables wind consistently: every side plane of a face, built
/// exactly as the clipper builds it, keeps all four face corners on its
/// inner side (in the body frame; the executable clipper works on the
/// rotated fixed-point images of these quantities).
#[verifier::rlimit(100)]
#[verifier::spinoff_prover]
pub proof fn lemma_face_winding(scale: V3, k: int, st: int)
    requires
        0 <= k < 6,
        0 <= st < 4,
        scale.x > 0,
        scale.y > 0,
        scale.z > 0,
    ensures
        forall|j: int| 0 <= j < 4 ==> #[trigger] side_plane_inner(scale, k, st, j),
{
    let hx = tdiv(scale.x, 2);
    let hy = tdiv(scale.y, 2);
    let hz = tdiv(scale.z, 2);
    assert(hx >= 0 && hy >= 0 && hz >= 0) by {
        assert(abs_i(scale.x) / 2 >= 0 && abs_i(scale.y) / 2 >= 0 && abs_i(scale.z) / 2 >= 0)
            by (nonlinear_arith)
            requires
                scale.x > 0 && scale.y > 0 && scale.z > 0,
        ;
    }
    let d1 = corner_delta(scale, face_corner_idx(k, st));
    let d2 = corner_delta(scale, face_corner_idx(k, (st + 1) % 4));
    let e = subv(d2, d1);
    let u = face_unit(k);
    let nrm = crossi(e, u);
    let dv0 = subv(corner_delta(scale, face_corner_idx(k, 0)), d1);
    let dv1 = subv(corner_delta(scale, face_corner_idx(k, 1)), d1);
    let dv2 = subv(corner_delta(scale, face_corner_idx(k, 2)), d1);
    let dv3 = subv(corner_delta(scale, face_corner_idx(k, 3)), d1);
        if k == 0 && st == 0 {
            assert(u.x == 1 && u.y == 0 && u.z == 0);
            assert(e.x == 0 && e.y == -2 * hy && e.z == 0);
            assert(nrm.x == e.y * u.z - e.z * u.y && nrm.y == e.z * u.x - e.x * u.z && nrm.z == e.x * u.y - e.y * u.x);
            assert(nrm.x == 0 && nrm.y == 0 && nrm.z == 2 * hy) by (nonlinear_arith)
                requires
                    u.x == 1 && u.y == 0 && u.z == 0 && e.x == 0 && e.y == -2 * hy && e.z == 0 && nrm.x == e.y * u.z - e.z * u.y && nrm.y == e.z * u.x - e.x * u.z && nrm.z == e.x * u.y - e.y * u.x,
            ;
            assert(dv0.z == 0);
            assert(nrm.x * dv0.x + nrm.y * dv0.y + nrm.z * dv0.z <= 0) by (nonlinear_arith)
                requires
                    nrm.x == 0 && nrm.y == 0 && nrm.z == 2 * hy && dv0.z == 0 && hx >= 0 && hy >= 0 && hz >= 0,
            ;
            assert(dot_raw(nrm, dv0) <= 0);
            assert(dv1.z == 0);
            assert(nrm.x * dv1.x + nrm.y * dv1.y + nrm.z * dv1.z <= 0) by (nonlinear_arith)
                requires
                    nrm.x == 0 && nrm.y == 0 && nrm.z == 2 * hy && dv1.z == 0 && hx >= 0 && hy >= 0 && hz >= 0,
            ;
            assert(dot_raw(nrm, dv1) <= 0);
            assert(dv2.z == -2 * hz);
            assert(nrm.x * dv2.x + nrm.y * dv2.y + nrm.z * dv2.z <= 0) by (nonlinear_arith)
                requires
                    nrm.x == 0 && nrm.y == 0 && nrm.z == 2 * hy && dv2.z == -2 * hz && hx >= 0 && hy >= 0 && hz >= 0,
            ;
            assert(dot_raw(nrm, dv2) <= 0);
            assert(dv3.z == -2 * hz);
            assert(nrm.x * dv3.x + nrm.y * dv3.y + nrm.z * dv3.z <= 0) by (nonlinear_arith)
                requires
                    nrm.x == 0 && nrm.y == 0 && nrm.z == 2 * hy && dv3.z == -2 * hz && hx >= 0 && hy >= 0 && hz >= 0,
            ;
            assert(dot_raw(nrm, dv3) <= 0);
        }
        if k == 0 && st == 1 {
            assert(u.x == 1 && u.y == 0 && u.z == 0);
            assert(e.x == 0 && e.y == 0 && e.z == -2 * hz);
            assert(nrm.x == e.y * u.z - e.z * u.y && nrm.y == e.z * u.x - e.x * u.z && nrm.z == e.x * u.y - e.y * u.x);
            assert(nrm.x == 0 && nrm.y == -2 * hz && nrm.z == 0) by (nonlinear_arith)
                requires
                    u.x == 1 && u.y == 0 && u.z == 0 && e.x == 0 && e.y == 0 && e.z == -2 * hz && nrm.x == e.y * u.z - e.z * u.y && nrm.y == e.z * u.x - e.x * u.z && nrm.z == e.x * u.y - e.y * u.x,
            ;
            assert(dv0.y == 2 * hy);
            assert(nrm.x * dv0.x + nrm.y * dv0.y + nrm.z * dv0.z <= 0) by (nonlinear_arith)
                requires
                    nrm.x == 0 && nrm.y == -2 * hz && nrm.z == 0 && dv0.y == 2 * hy && hx >= 0 && hy >= 0 && hz >= 0,
            ;
            assert(dot_raw(nrm, dv0) <= 0);
            assert(dv1.y == 0);
            assert(nrm.x * dv1.x + nrm.y * dv1.y + nrm.z * dv1.z <= 0) by (nonlinear_arith)
                requires
                    nrm.x == 0 && nrm.y == -2 * hz && nrm.z == 0 && dv1.y == 0 && hx >= 0 && hy >= 0 && hz >= 0,
            ;
            assert(dot_raw(nrm, dv1) <= 0);
            assert(dv2.y == 0);
            assert(nrm.x * dv2.x + nrm.y * dv2.y + nrm.z * dv2.z <= 0) by (nonlinear_arith)
                requires
                    nrm.x == 0 && nrm.y == -2 * hz && nrm.z == 0 && dv2.y == 0 && hx >= 0 && hy >= 0 && hz >= 0,
            ;
            assert(dot_raw(nrm, dv2) <= 0);
            assert(dv3.y == 2 * hy);
            assert(nrm.x * dv3.x + nrm.y * dv3.y + nrm.z * dv3.z <= 0) by (nonlinear_arith)
                requires
                    nrm.x == 0 && nrm.y == -2 * hz && nrm.z == 0 && dv3.y == 2 * hy && hx >= 0 && hy >= 0 && hz >= 0,
            ;
            assert(dot_raw(nrm, dv3) <= 0);
        }
        if k == 0 && st == 2 {
            assert(u.x == 1 && u.y == 0 && u.z == 0);
            assert(e.x == 0 && e.y == 2 * hy && e.z == 0);
            assert(nrm.x == e.y * u.z - e.z * u.y && nrm.y == e.z * u.x - e.x * u.z && nrm.z == e.x * u.y - e.y * u.x);
            assert(nrm.x == 0 && nrm.y == 0 && nrm.z == -2 * hy) by (nonlinear_arith)
                requires
                    u.x == 1 && u.y == 0 && u.z == 0 && e.x == 0 && e.y == 2 * hy && e.z == 0 && nrm.x == e.y * u.z - e.z * u.y && nrm.y == e.z * u.x - e.x * u.z && nrm.z == e.x * u.y - e.y * u.x,
            ;
            assert(dv0.z == 2 * hz);
            assert(nrm.x * dv0.x + nrm.y * dv0.y + nrm.z * dv0.z <= 0) by (nonlinear_arith)
                requires
                    nrm.x == 0 && nrm.y == 0 && nrm.z == -2 * hy && dv0.z == 2 * hz && hx >= 0 && hy >= 0 && hz >= 0,
            ;
            assert(dot_raw(nrm, dv0) <= 0);
            assert(dv1.z == 2 * hz);
            assert(nrm.x * dv1.x + nrm.y * dv1.y + nrm.z * dv1.z <= 0) by (nonlinear_arith)
                requires
                    nrm.x == 0 && nrm.y == 0 && nrm.z == -2 * hy && dv1.z == 2 * hz && hx >= 0 && hy >= 0 && hz >= 0,
            ;
            assert(dot_raw(nrm, dv1) <= 0);
            assert(dv2.z == 0);
            assert(nrm.x * dv2.x + nrm.y * dv2.y + nrm.z * dv2.z <= 0) by (nonlinear_arith)
                requires
                    nrm.x == 0 && nrm.y == 0 && nrm.z == -2 * hy && dv2.z == 0 && hx >= 0 && hy >= 0 && hz >= 0,
            ;
            assert(dot_raw(nrm, dv2) <= 0);
            assert(dv3.z == 0);
            assert(nrm.x * dv3.x + nrm.y * dv3.y + nrm.z * dv3.z <= 0) by (nonlinear_arith)
                requires
                    nrm.x == 0 && nrm.y == 0 && nrm.z == -2 * hy && dv3.z == 0 && hx >= 0 && hy >= 0 && hz >= 0,
            ;
            assert(dot_raw(nrm, dv3) <= 0);
        }
        if k == 0 && st == 3 {
            assert(u.x == 1 && u.y == 0 && u.z == 0);
            assert(e.x == 0 && e.y == 0 && e.z == 2 * hz);
            assert(nrm.x == e.y * u.z - e.z * u.y && nrm.y == e.z * u.x - e.x * u.z && nrm.z == e.x * u.y - e.y * u.x);
            assert(nrm.x == 0 && nrm.y == 2 * hz && nrm.z == 0) by (nonlinear_arith)
                requires
                    u.x == 1 && u.y == 0 && u.z == 0 && e.x == 0 && e.y == 0 && e.z == 2 * hz && nrm.x == e.y * u.z - e.z * u.y && nrm.y == e.z * u.x - e.x * u.z && nrm.z == e.x * u.y - e.y * u.x,
            ;
            assert(dv0.y == 0);
            assert(nrm.x * dv0.x + nrm.y * dv0.y + nrm.z * dv0.z <= 0) by (nonlinear_arith)
                requires
                    nrm.x == 0 && nrm.y == 2 * hz && nrm.z == 0 && dv0.y == 0 && hx >= 0 && hy >= 0 && hz >= 0,
            ;
            assert(dot_raw(nrm, dv0) <= 0);
            assert(dv1.y == -2 * hy);
            assert(nrm.x * dv1.x + nrm.y * dv1.y + nrm.z * dv1.z <= 0) by (nonlinear_arith)
                requires
                    nrm.x == 0 && nrm.y == 2 * hz && nrm.z == 0 && dv1.y == -2 * hy && hx >= 0 && hy >= 0 && hz >= 0,
            ;
            assert(dot_raw(nrm, dv1) <= 0);
            assert(dv2.y == -2 * hy);
            assert(nrm.x * dv2.x + nrm.y * dv2.y + nrm.z * dv2.z <= 0) by (nonlinear_arith)
                requires
                    nrm.x == 0 && nrm.y == 2 * hz && nrm.z == 0 && dv2.y == -2 * hy && hx >= 0 && hy >= 0 && hz >= 0,
            ;
            assert(dot_raw(nrm, dv2) <= 0);
            assert(dv3.y == 0);
            assert(nrm.x * dv3.x + nrm.y * dv3.y + nrm.z * dv3.z <= 0) by (nonlinear_arith)
                requires
                    nrm.x == 0 && nrm.y == 2 * hz && nrm.z == 0 && dv3.y == 0 && hx >= 0 && hy >= 0 && hz >= 0,
            ;
            assert(dot_raw(nrm, dv3) <= 0);
        }
        if k == 1 && st == 0 {
            assert(u.x == 0 && u.y == 1 && u.z == 0);
            assert(e.x == 0 && e.y == 0 && e.z == -2 * hz);
            assert(nrm.x == e.y * u.z - e.z * u.y && nrm.y == e.z * u.x - e.x * u.z && nrm.z == e.x * u.y - e.y * u.x);
            assert(nrm.x == 2 * hz && nrm.y == 0 && nrm.z == 0) by (nonlinear_arith)
                requires
                    u.x == 0 && u.y == 1 && u.z == 0 && e.x == 0 && e.y == 0 && e.z == -2 * hz && nrm.x == e.y * u.z - e.z * u.y && nrm.y == e.z * u.x - e.x * u.z && nrm.z == e.x * u.y - e.y * u.x,
            ;
            assert(dv0.x == 0);
            assert(nrm.x * dv0.x + nrm.y * dv0.y + nrm.z * dv0.z <= 0) by (nonlinear_arith)
                requires
                    nrm.x == 2 * hz && nrm.y == 0 && nrm.z == 0 && dv0.x == 0 && hx >= 0 && hy >= 0 && hz >= 0,
            ;
            assert(dot_raw(nrm, dv0) <= 0);
            assert(dv1.x == 0);
            assert(nrm.x * dv1.x + nrm.y * dv1.y + nrm.z * dv1.z <= 0) by (nonlinear_arith)
                requires
                    nrm.x == 2 * hz && nrm.y == 0 && nrm.z == 0 && dv1.x == 0 && hx >= 0 && hy >= 0 && hz >= 0,
            ;
            assert(dot_raw(nrm, dv1) <= 0);
            assert(dv2.x == -2 * hx);
            assert(nrm.x * dv2.x + nrm.y * dv2.y + nrm.z * dv2.z <= 0) by (nonlinear_arith)
                requires
                    nrm.x == 2 * hz && nrm.y == 0 && nrm.z == 0 && dv2.x == -2 * hx && hx >= 0 && hy >= 0 && hz >= 0,
            ;
            assert(dot_raw(nrm, dv2) <= 0);
            assert(dv3.x == -2 * hx);
            assert(nrm.x * dv3.x + nrm.y * dv3.y + nrm.z * dv3.z <= 0) by (nonlinear_arith)
                requires
                    nrm.x == 2 * hz && nrm.y == 0 && nrm.z == 0 && dv3.x == -2 * hx && hx >= 0 && hy >= 0 && hz >= 0,
            ;
            assert(dot_raw(nrm, dv3) <= 0);
        }
        if k == 1 && st == 1 {
            assert(u.x == 0 && u.y == 1 && u.z == 0);
            assert(e.x == -2 * hx && e.y == 0 && e.z == 0);
            assert(nrm.x == e.y * u.z - e.z * u.y && nrm.y == e.z * u.x - e.x * u.z && nrm.z == e.x * u.y - e.y * u.x);
            assert(nrm.x == 0 && nrm.y == 0 && nrm.z == -2 * hx) by (nonlinear_arith)
                requires
                    u.x == 0 && u.y == 1 && u.z == 0 && e.x == -2 * hx && e.y == 0 && e.z == 0 && nrm.x == e.y * u.z - e.z * u.y && nrm.y == e.z * u.x - e.x * u.z && nrm.z == e.x * u.y - e.y * u.x,
            ;
            assert(dv0.z == 2 * hz);
            assert(nrm.x * dv0.x + nrm.y * dv0.y + nrm.z * dv0.z <= 0) by (nonlinear_arith)
                requires
                    nrm.x == 0 && nrm.y == 0 && nrm.z == -2 * hx && dv0.z == 2 * hz && hx >= 0 && hy >= 0 && hz >= 0,
            ;
            assert(dot_raw(nrm, dv0) <= 0);
            assert(dv1.z == 0);
            assert(nrm.x * dv1.x + nrm.y * dv1.y + nrm.z * dv1.z <= 0) by (nonlinear_arith)
                requires
                    nrm.x == 0 && nrm.y == 0 && nrm.z == -2 * hx && dv1.z == 0 && hx >= 0 && hy >= 0 && hz >= 0,
            ;
            assert(dot_raw(nrm, dv1) <= 0);
            assert(dv2.z == 0);
            assert(nrm.x * dv2.x + nrm.y * dv2.y + nrm.z * dv2.z <= 0) by (nonlinear_arith)
                requires
                    nrm.x == 0 && nrm.y == 0 && nrm.z == -2 * hx && dv2.z == 0 && hx >= 0 && hy >= 0 && hz >= 0,
            ;
            assert(dot_raw(nrm, dv2) <= 0);
            assert(dv3.z == 2 * hz);
            assert(nrm.x * dv3.x + nrm.y * dv3.y + nrm.z * dv3.z <= 0) by (nonlinear_arith)
                requires
                    nrm.x == 0 && nrm.y == 0 && nrm.z == -2 * hx && dv3.z == 2 * hz && hx >= 0 && hy >= 0 && hz >= 0,
            ;
            assert(dot_raw(nrm, dv3) <= 0);
        }
        if k == 1 && st == 2 {
            assert(u.x == 0 && u.y == 1 && u.z == 0);
            assert(e.x == 0 && e.y == 0 && e.z == 2 * hz);
            assert(nrm.x == e.y * u.z - e.z * u.y && nrm.y == e.z * u.x - e.x * u.z && nrm.z == e.x * u.y - e.y * u.x);
            assert(nrm.x == -2 * hz && nrm.y == 0 && nrm.z == 0) by (nonlinear_arith)
                requires
                    u.x == 0 && u.y == 1 && u.z == 0 && e.x == 0 && e.y == 0 && e.z == 2 * hz && nrm.x == e.y * u.z - e.z * u.y && nrm.y == e.z * u.x - e.x * u.z && nrm.z == e.x * u.y - e.y * u.x,
            ;
            assert(dv0.x == 2 * hx);
            assert(nrm.x * dv0.x + nrm.y * dv0.y + nrm.z * dv0.z <= 0) by (nonlinear_arith)
                requires
                    nrm.x == -2 * hz && nrm.y == 0 && nrm.z == 0 && dv0.x == 2 * hx && hx >= 0 && hy >= 0 && hz >= 0,
            ;
            assert(dot_raw(nrm, dv0) <= 0);
            assert(dv1.x == 2 * hx);
            assert(nrm.x * dv1.x + nrm.y * dv1.y + nrm.z * dv1.z <= 0) by (nonlinear_arith)
                requires
                    nrm.x == -2 * hz && nrm.y == 0 && nrm.z == 0 && dv1.x == 2 * hx && hx >= 0 && hy >= 0 && hz >= 0,
            ;
            assert(dot_raw(nrm, dv1) <= 0);
            assert(dv2.x == 0);
            assert(nrm.x * dv2.x + nrm.y * dv2.y + nrm.z * dv2.z <= 0) by (nonlinear_arith)
                requires
                    nrm.x == -2 * hz && nrm.y == 0 && nrm.z == 0 && dv2.x == 0 && hx >= 0 && hy >= 0 && hz >= 0,
            ;
            assert(dot_raw(nrm, dv2) <= 0);
            assert(dv3.x == 0);
            assert(nrm.x * dv3.x + nrm.y * dv3.y + nrm.z * dv3.z <= 0) by (nonlinear_arith)
                requires
                    nrm.x == -2 * hz && nrm.y == 0 && nrm.z == 0 && dv3.x == 0 && hx >= 0 && hy >= 0 && hz >= 0,
            ;
            assert(dot_raw(nrm, dv3) <= 0);
        }
        if k == 1 && st == 3 {
            assert(u.x == 0 && u.y == 1 && u.z == 0);
            assert(e.x == 2 * hx && e.y == 0 && e.z == 0);
            assert(nrm.x == e.y * u.z - e.z * u.y && nrm.y == e.z * u.x - e.x * u.z && nrm.z == e.x * u.y - e.y * u.x);
            assert(nrm.x == 0 && nrm.y == 0 && nrm.z == 2 * hx) by (nonlinear_arith)
                requires
                    u.x == 0 && u.y == 1 && u.z == 0 && e.x == 2 * hx && e.y == 0 && e.z == 0 && nrm.x == e.y * u.z - e.z * u.y && nrm.y == e.z * u.x - e.x * u.z && nrm.z == e.x * u.y - e.y * u.x,
            ;
            assert(dv0.z == 0);
            assert(nrm.x * dv0.x + nrm.y * dv0.y + nrm.z * dv0.z <= 0) by (nonlinear_arith)
                requires
                    nrm.x == 0 && nrm.y == 0 && nrm.z == 2 * hx && dv0.z == 0 && hx >= 0 && hy >= 0 && hz >= 0,
            ;
            assert(dot_raw(nrm, dv0) <= 0);
            assert(dv1.z == -2 * hz);
            assert(nrm.x * dv1.x + nrm.y * dv1.y + nrm.z * dv1.z <= 0) by (nonlinear_arith)
                requires
                    nrm.x == 0 && nrm.y == 0 && nrm.z == 2 * hx && dv1.z == -2 * hz && hx >= 0 && hy >= 0 && hz >= 0,
            ;
            assert(dot_raw(nrm, dv1) <= 0);
            assert(dv2.z == -2 * hz);
            assert(nrm.x * dv2.x + nrm.y * dv2.y + nrm.z * dv2.z <= 0) by (nonlinear_arith)
                requires
                    nrm.x == 0 && nrm.y == 0 && nrm.z == 2 * hx && dv2.z == -2 * hz && hx >= 0 && hy >= 0 && hz >= 0,
            ;
            assert(dot_raw(nrm, dv2) <= 0);
            assert(dv3.z == 0);
            assert(nrm.x * dv3.x + nrm.y * dv3.y + nrm.z * dv3.z <= 0) by (nonlinear_arith)
                requires
                    nrm.x == 0 && nrm.y == 0 && nrm.z == 2 * hx && dv3.z == 0 && hx >= 0 && hy >= 0 && hz >= 0,
            ;
            assert(dot_raw(nrm, dv3) <= 0);
        }
        if k == 2 && st == 0 {
            assert(u.x == 0 && u.y == 0 && u.z == 1);
            assert(e.x == -2 * hx && e.y == 0 && e.z == 0);
            assert(nrm.x == e.y * u.z - e.z * u.y && nrm.y == e.z * u.x - e.x * u.z && nrm.z == e.x * u.y - e.y * u.x);
            assert(nrm.x == 0 && nrm.y == 2 * hx && nrm.z == 0) by (nonlinear_arith)
                requires
                    u.x == 0 && u.y == 0 && u.z == 1 && e.x == -2 * hx && e.y == 0 && e.z == 0 && nrm.x == e.y * u.z - e.z * u.y && nrm.y == e.z * u.x - e.x * u.z && nrm.z == e.x * u.y - e.y * u.x,
            ;
            assert(dv0.y == 0);
            assert(nrm.x * dv0.x + nrm.y * dv0.y + nrm.z * dv0.z <= 0) by (nonlinear_arith)
                requires
                    nrm.x == 0 && nrm.y == 2 * hx && nrm.z == 0 && dv0.y == 0 && hx >= 0 && hy >= 0 && hz >= 0,
            ;
            assert(dot_raw(nrm, dv0) <= 0);
            assert(dv1.y == 0);
            assert(nrm.x * dv1.x + nrm.y * dv1.y + nrm.z * dv1.z <= 0) by (nonlinear_arith)
                requires
                    nrm.x == 0 && nrm.y == 2 * hx && nrm.z == 0 && dv1.y == 0 && hx >= 0 && hy >= 0 && hz >= 0,
            ;
            assert(dot_raw(nrm, dv1) <= 0);
            assert(dv2.y == -2 * hy);
            assert(nrm.x * dv2.x + nrm.y * dv2.y + nrm.z * dv2.z <= 0) by (nonlinear_arith)
                requires
                    nrm.x == 0 && nrm.y == 2 * hx && nrm.z == 0 && dv2.y == -2 * hy && hx >= 0 && hy >= 0 && hz >= 0,
            ;
            assert(dot_raw(nrm, dv2) <= 0);
            assert(dv3.y == -2 * hy);
            assert(nrm.x * dv3.x + nrm.y * dv3.y + nrm.z * dv3.z <= 0) by (nonlinear_arith)
                requires
                    nrm.x == 0 && nrm.y == 2 * hx && nrm.z == 0 && dv3.y == -2 * hy && hx >= 0 && hy >= 0 && hz >= 0,
            ;
            assert(dot_raw(nrm, dv3) <= 0);
        }
        if k == 2 && st == 1 {
            assert(u.x == 0 && u.y == 0 && u.z == 1);
            assert(e.x == 0 && e.y == -2 * hy && e.z == 0);
            assert(nrm.x == e.y * u.z - e.z * u.y && nrm.y == e.z * u.x - e.x * u.z && nrm.z == e.x * u.y - e.y * u.x);
            assert(nrm.x == -2 * hy && nrm.y == 0 && nrm.z == 0) by (nonlinear_arith)
                requires
                    u.x == 0 && u.y == 0 && u.z == 1 && e.x == 0 && e.y == -2 * hy && e.z == 0 && nrm.x == e.y * u.z - e.z * u.y && nrm.y == e.z * u.x - e.x * u.z && nrm.z == e.x * u.y - e.y * u.x,
            ;
            assert(dv0.x == 2 * hx);
            assert(nrm.x * dv0.x + nrm.y * dv0.y + nrm.z * dv0.z <= 0) by (nonlinear_arith)
                requires
                    nrm.x == -2 * hy && nrm.y == 0 && nrm.z == 0 && dv0.x == 2 * hx && hx >= 0 && hy >= 0 && hz >= 0,
            ;
            assert(dot_raw(nrm, dv0) <= 0);
            assert(dv1.x == 0);
            assert(nrm.x * dv1.x + nrm.y * dv1.y + nrm.z * dv1.z <= 0) by (nonlinear_arith)
                requires
                    nrm.x == -2 * hy && nrm.y == 0 && nrm.z == 0 && dv1.x == 0 && hx >= 0 && hy >= 0 && hz >= 0,
            ;
            assert(dot_raw(nrm, dv1) <= 0);
            assert(dv2.x == 0);
            assert(nrm.x * dv2.x + nrm.y * dv2.y + nrm.z * dv2.z <= 0) by (nonlinear_arith)
                requires
                    nrm.x == -2 * hy && nrm.y == 0 && nrm.z == 0 && dv2.x == 0 && hx >= 0 && hy >= 0 && hz >= 0,
            ;
            assert(dot_raw(nrm, dv2) <= 0);
            assert(dv3.x == 2 * hx);
            assert(nrm.x * dv3.x + nrm.y * dv3.y + nrm.z * dv3.z <= 0) by (nonlinear_arith)
                requires
                    nrm.x == -2 * hy && nrm.y == 0 && nrm.z == 0 && dv3.x == 2 * hx && hx >= 0 && hy >= 0 && hz >= 0,
            ;
            assert(dot_raw(nrm, dv3) <= 0);
        }
        if k == 2 && st == 2 {
            assert(u.x == 0 && u.y == 0 && u.z == 1);
            assert(e.x == 2 * hx && e.y == 0 && e.z == 0);
            assert(nrm.x == e.y * u.z - e.z * u.y && nrm.y == e.z * u.x - e.x * u.z && nrm.z == e.x * u.y - e.y * u.x);
            assert(nrm.x == 0 && nrm.y == -2 * hx && nrm.z == 0) by (nonlinear_arith)
                requires
                    u.x == 0 && u.y == 0 && u.z == 1 && e.x == 2 * hx && e.y == 0 && e.z == 0 && nrm.x == e.y * u.z - e.z * u.y && nrm.y == e.z * u.x - e.x * u.z && nrm.z == e.x * u.y - e.y * u.x,
            ;
            assert(dv0.y == 2 * hy);
            assert(nrm.x * dv0.x + nrm.y * dv0.y + nrm.z * dv0.z <= 0) by (nonlinear_arith)
                requires
                    nrm.x == 0 && nrm.y == -2 * hx && nrm.z == 0 && dv0.y == 2 * hy && hx >= 0 && hy >= 0 && hz >= 0,
            ;
            assert(dot_raw(nrm, dv0) <= 0);
            assert(dv1.y == 2 * hy);
            assert(nrm.x * dv1.x + nrm.y * dv1.y + nrm.z * dv1.z <= 0) by (nonlinear_arith)
                requires
                    nrm.x == 0 && nrm.y == -2 * hx && nrm.z == 0 && dv1.y == 2 * hy && hx >= 0 && hy >= 0 && hz >= 0,
            ;
            assert(dot_raw(nrm, dv1) <= 0);
            assert(dv2.y == 0);
            assert(nrm.x * dv2.x + nrm.y * dv2.y + nrm.z * dv2.z <= 0) by (nonlinear_arith)
                requires
                    nrm.x == 0 && nrm.y == -2 * hx && nrm.z == 0 && dv2.y == 0 && hx >= 0 && hy >= 0 && hz >= 0,
            ;
            assert(dot_raw(nrm, dv2) <= 0);
            assert(dv3.y == 0);
            assert(nrm.x * dv3.x + nrm.y * dv3.y + nrm.z * dv3.z <= 0) by (nonlinear_arith)
                requires
                    nrm.x == 0 && nrm.y == -2 * hx && nrm.z == 0 && dv3.y == 0 && hx >= 0 && hy >= 0 && hz >= 0,
            ;
            assert(dot_raw(nrm, dv3) <= 0);
        }
        if k == 2 && st == 3 {
            assert(u.x == 0 && u.y == 0 && u.z == 1);
            assert(e.x == 0 && e.y == 2 * hy && e.z == 0);
            assert(nrm.x == e.y * u.z - e.z * u.y && nrm.y == e.z * u.x - e.x * u.z && nrm.z == e.x * u.y - e.y * u.x);
            assert(nrm.x == 2 * hy && nrm.y == 0 && nrm.z == 0) by (nonlinear_arith)
                requires
                    u.x == 0 && u.y == 0 && u.z == 1 && e.x == 0 && e.y == 2 * hy && e.z == 0 && nrm.x == e.y * u.z - e.z * u.y && nrm.y == e.z * u.x - e.x * u.z && nrm.z == e.x * u.y - e.y * u.x,
            ;
            assert(dv0.x == 0);
            assert(nrm.x * dv0.x + nrm.y * dv0.y + nrm.z * dv0.z <= 0) by (nonlinear_arith)
                requires
                    nrm.x == 2 * hy && nrm.y == 0 && nrm.z == 0 && dv0.x == 0 && hx >= 0 && hy >= 0 && hz >= 0,
            ;
            assert(dot_raw(nrm, dv0) <= 0);
            assert(dv1.x == -2 * hx);
            assert(nrm.x * dv1.x + nrm.y * dv1.y + nrm.z * dv1.z <= 0) by (nonlinear_arith)
                requires
                    nrm.x == 2 * hy && nrm.y == 0 && nrm.z == 0 && dv1.x == -2 * hx && hx >= 0 && hy >= 0 && hz >= 0,
            ;
            assert(dot_raw(nrm, dv1) <= 0);
            assert(dv2.x == -2 * hx);
            assert(nrm.x * dv2.x + nrm.y * dv2.y + nrm.z * dv2.z <= 0) by (nonlinear_arith)
                requires
                    nrm.x == 2 * hy && nrm.y == 0 && nrm.z == 0 && dv2.x == -2 * hx && hx >= 0 && hy >= 0 && hz >= 0,
            ;
            assert(dot_raw(nrm, dv2) <= 0);
            assert(dv3.x == 0);
            assert(nrm.x * dv3.x + nrm.y * dv3.y + nrm.z * dv3.z <= 0) by (nonlinear_arith)
                requires
                    nrm.x == 2 * hy && nrm.y == 0 && nrm.z == 0 && dv3.x == 0 && hx >= 0 && hy >= 0 && hz >= 0,
            ;
            assert(dot_raw(nrm, dv3) <= 0);
        }
        if k == 3 && st == 0 {
            assert(u.x == -1 && u.y == 0 && u.z == 0);
            assert(e.x == 0 && e.y == 0 && e.z == -2 * hz);
            assert(nrm.x == e.y * u.z - e.z * u.y && nrm.y == e.z * u.x - e.x * u.z && nrm.z == e.x * u.y - e.y * u.x);
            assert(nrm.x == 0 && nrm.y == 2 * hz && nrm.z == 0) by (nonlinear_arith)
                requires
                    u.x == -1 && u.y == 0 && u.z == 0 && e.x == 0 && e.y == 0 && e.z == -2 * hz && nrm.x == e.y * u.z - e.z * u.y && nrm.y == e.z * u.x - e.x * u.z && nrm.z == e.x * u.y - e.y * u.x,
            ;
            assert(dv0.y == 0);
            assert(nrm.x * dv0.x + nrm.y * dv0.y + nrm.z * dv0.z <= 0) by (nonlinear_arith)
                requires
                    nrm.x == 0 && nrm.y == 2 * hz && nrm.z == 0 && dv0.y == 0 && hx >= 0 && hy >= 0 && hz >= 0,
            ;
            assert(dot_raw(nrm, dv0) <= 0);
            assert(dv1.y == 0);
            assert(nrm.x * dv1.x + nrm.y * dv1.y + nrm.z * dv1.z <= 0) by (nonlinear_arith)
                requires
                    nrm.x == 0 && nrm.y == 2 * hz && nrm.z == 0 && dv1.y == 0 && hx >= 0 && hy >= 0 && hz >= 0,
            ;
            assert(dot_raw(nrm, dv1) <= 0);
            assert(dv2.y == -2 * hy);
            assert(nrm.x * dv2.x + nrm.y * dv2.y + nrm.z * dv2.z <= 0) by (nonlinear_arith)
                requires
                    nrm.x == 0 && nrm.y == 2 * hz && nrm.z == 0 && dv2.y == -2 * hy && hx >= 0 && hy >= 0 && hz >= 0,
            ;
            assert(dot_raw(nrm, dv2) <= 0);
            assert(dv3.y == -2 * hy);
            assert(nrm.x * dv3.x + nrm.y * dv3.y + nrm.z * dv3.z <= 0) by (nonlinear_arith)
                requires
                    nrm.x == 0 && nrm.y == 2 * hz && nrm.z == 0 && dv3.y == -2 * hy && hx >= 0 && hy >= 0 && hz >= 0,
            ;
            assert(dot_raw(nrm, dv3) <= 0);
        }
        if k == 3 && st == 1 {
            assert(u.x == -1 && u.y == 0 && u.z == 0);
            assert(e.x == 0 && e.y == -2 * hy && e.z == 0);
            assert(nrm.x == e.y * u.z - e.z * u.y && nrm.y == e.z * u.x - e.x * u.z && nrm.z == e.x * u.y - e.y * u.x);
            assert(nrm.x == 0 && nrm.y == 0 && nrm.z == -2 * hy) by (nonlinear_arith)
                requires
                    u.x == -1 && u.y == 0 && u.z == 0 && e.x == 0 && e.y == -2 * hy && e.z == 0 && nrm.x == e.y * u.z - e.z * u.y && nrm.y == e.z * u.x - e.x * u.z && nrm.z == e.x * u.y - e.y * u.x,
            ;
            assert(dv0.z == 2 * hz);
            assert(nrm.x * dv0.x + nrm.y * dv0.y + nrm.z * dv0.z <= 0) by (nonlinear_arith)
                requires
                    nrm.x == 0 && nrm.y == 0 && nrm.z == -2 * hy && dv0.z == 2 * hz && hx >= 0 && hy >= 0 && hz >= 0,
            ;
            assert(dot_raw(nrm, dv0) <= 0);
            assert(dv1.z == 0);
            assert(nrm.x * dv1.x + nrm.y * dv1.y + nrm.z * dv1.z <= 0) by (nonlinear_arith)
                requires
                    nrm.x == 0 && nrm.y == 0 && nrm.z == -2 * hy && dv1.z == 0 && hx >= 0 && hy >= 0 && hz >= 0,
            ;
            assert(dot_raw(nrm, dv1) <= 0);
            assert(dv2.z == 0);
            assert(nrm.x * dv2.x + nrm.y * dv2.y + nrm.z * dv2.z <= 0) by (nonlinear_arith)
                requires
                    nrm.x == 0 && nrm.y == 0 && nrm.z == -2 * hy && dv2.z == 0 && hx >= 0 && hy >= 0 && hz >= 0,
            ;
            assert(dot_raw(nrm, dv2) <= 0);
            assert(dv3.z == 2 * hz);
            assert(nrm.x * dv3.x + nrm.y * dv3.y + nrm.z * dv3.z <= 0) by (nonlinear_arith)
                requires
                    nrm.x == 0 && nrm.y == 0 && nrm.z == -2 * hy && dv3.z == 2 * hz && hx >= 0 && hy >= 0 && hz >= 0,
            ;
            assert(dot_raw(nrm, dv3) <= 0);
        }
        if k == 3 && st == 2 {
            assert(u.x == -1 && u.y == 0 && u.z == 0);
            assert(e.x == 0 && e.y == 0 && e.z == 2 * hz);
            assert(nrm.x == e.y * u.z - e.z * u.y && nrm.y == e.z * u.x - e.x * u.z && nrm.z == e.x * u.y - e.y * u.x);
            assert(nrm.x == 0 && nrm.y == -2 * hz && nrm.z == 0) by (nonlinear_arith)
                requires
                    u.x == -1 && u.y == 0 && u.z == 0 && e.x == 0 && e.y == 0 && e.z == 2 * hz && nrm.x == e.y * u.z - e.z * u.y && nrm.y == e.z * u.x - e.x * u.z && nrm.z == e.x * u.y - e.y * u.x,
            ;
            assert(dv0.y == 2 * hy);
            assert(nrm.x * dv0.x + nrm.y * dv0.y + nrm.z * dv0.z <= 0) by (nonlinear_arith)
                requires
                    nrm.x == 0 && nrm.y == -2 * hz && nrm.z == 0 && dv0.y == 2 * hy && hx >= 0 && hy >= 0 && hz >= 0,
            ;
            assert(dot_raw(nrm, dv0) <= 0);
            assert(dv1.y == 2 * hy);
            assert(nrm.x * dv1.x + nrm.y * dv1.y + nrm.z * dv1.z <= 0) by (nonlinear_arith)
                requires
                    nrm.x == 0 && nrm.y == -2 * hz && nrm.z == 0 && dv1.y == 2 * hy && hx >= 0 && hy >= 0 && hz >= 0,
            ;
            assert(dot_raw(nrm, dv1) <= 0);
            assert(dv2.y == 0);
            assert(nrm.x * dv2.x + nrm.y * dv2.y + nrm.z * dv2.z <= 0) by (nonlinear_arith)
                requires
                    nrm.x == 0 && nrm.y == -2 * hz && nrm.z == 0 && dv2.y == 0 && hx >= 0 && hy >= 0 && hz >= 0,
            ;
            assert(dot_raw(nrm, dv2) <= 0);
            assert(dv3.y == 0);
            assert(nrm.x * dv3.x + nrm.y * dv3.y + nrm.z * dv3.z <= 0) by (nonlinear_arith)
                requires
                    nrm.x == 0 && nrm.y == -2 * hz && nrm.z == 0 && dv3.y == 0 && hx >= 0 && hy >= 0 && hz >= 0,
            ;
            assert(dot_raw(nrm, dv3) <= 0);
        }
        if k == 3 && st == 3 {
            assert(u.x == -1 && u.y == 0 && u.z == 0);
            assert(e.x == 0 && e.y == 2 * hy && e.z == 0);
            assert(nrm.x == e.y * u.z - e.z * u.y && nrm.y == e.z * u.x - e.x * u.z && nrm.z == e.x * u.y - e.y * u.x);
            assert(nrm.x == 0 && nrm.y == 0 && nrm.z == 2 * hy) by (nonlinear_arith)
                requires
                    u.x == -1 && u.y == 0 && u.z == 0 && e.x == 0 && e.y == 2 * hy && e.z == 0 && nrm.x == e.y * u.z - e.z * u.y && nrm.y == e.z * u.x - e.x * u.z && nrm.z == e.x * u.y - e.y * u.x,
            ;
            assert(dv0.z == 0);
            assert(nrm.x * dv0.x + nrm.y * dv0.y + nrm.z * dv0.z <= 0) by (nonlinear_arith)
                requires
                    nrm.x == 0 && nrm.y == 0 && nrm.z == 2 * hy && dv0.z == 0 && hx >= 0 && hy >= 0 && hz >= 0,
            ;
            assert(dot_raw(nrm, dv0) <= 0);
            assert(dv1.z == -2 * hz);
            assert(nrm.x * dv1.x + nrm.y * dv1.y + nrm.z * dv1.z <= 0) by (nonlinear_arith)
                requires
                    nrm.x == 0 && nrm.y == 0 && nrm.z == 2 * hy && dv1.z == -2 * hz && hx >= 0 && hy >= 0 && hz >= 0,
            ;
            assert(dot_raw(nrm, dv1) <= 0);
            assert(dv2.z == -2 * hz);
            assert(nrm.x * dv2.x + nrm.y * dv2.y + nrm.z * dv2.z <= 0) by (nonlinear_arith)
                requires
                    nrm.x == 0 && nrm.y == 0 && nrm.z == 2 * hy && dv2.z == -2 * hz && hx >= 0 && hy >= 0 && hz >= 0,
            ;
            assert(dot_raw(nrm, dv2) <= 0);
            assert(dv3.z == 0);
            assert(nrm.x * dv3.x + nrm.y * dv3.y + nrm.z * dv3.z <= 0) by (nonlinear_arith)
                requires
                    nrm.x == 0 && nrm.y == 0 && nrm.z == 2 * hy && dv3.z == 0 && hx >= 0 && hy >= 0 && hz >= 0,
            ;
            assert(dot_raw(nrm, dv3) <= 0);
        }
        if k == 4 && st == 0 {
            assert(u.x == 0 && u.y == -1 && u.z == 0);
            assert(e.x == -2 * hx && e.y == 0 && e.z == 0);
            assert(nrm.x == e.y * u.z - e.z * u.y && nrm.y == e.z * u.x - e.x * u.z && nrm.z == e.x * u.y - e.y * u.x);
            assert(nrm.x == 0 && nrm.y == 0 && nrm.z == 2 * hx) by (nonlinear_arith)
                requires
                    u.x == 0 && u.y == -1 && u.z == 0 && e.x == -2 * hx && e.y == 0 && e.z == 0 && nrm.x == e.y * u.z - e.z * u.y && nrm.y == e.z * u.x - e.x * u.z && nrm.z == e.x * u.y - e.y * u.x,
            ;
            assert(dv0.z == 0);
            assert(nrm.x * dv0.x + nrm.y * dv0.y + nrm.z * dv0.z <= 0) by (nonlinear_arith)
                requires
                    nrm.x == 0 && nrm.y == 0 && nrm.z == 2 * hx && dv0.z == 0 && hx >= 0 && hy >= 0 && hz >= 0,
            ;
            assert(dot_raw(nrm, dv0) <= 0);
            assert(dv1.z == 0);
            assert(nrm.x * dv1.x + nrm.y * dv1.y + nrm.z * dv1.z <= 0) by (nonlinear_arith)
                requires
                    nrm.x == 0 && nrm.y == 0 && nrm.z == 2 * hx && dv1.z == 0 && hx >= 0 && hy >= 0 && hz >= 0,
            ;
            assert(dot_raw(nrm, dv1) <= 0);
            assert(dv2.z == -2 * hz);
            assert(nrm.x * dv2.x + nrm.y * dv2.y + nrm.z * dv2.z <= 0) by (nonlinear_arith)
                requires
                    nrm.x == 0 && nrm.y == 0 && nrm.z == 2 * hx && dv2.z == -2 * hz && hx >= 0 && hy >= 0 && hz >= 0,
            ;
            assert(dot_raw(nrm, dv2) <= 0);
            assert(dv3.z == -2 * hz);
            assert(nrm.x * dv3.x + nrm.y * dv3.y + nrm.z * dv3.z <= 0) by (nonlinear_arith)
                requires
                    nrm.x == 0 && nrm.y == 0 && nrm.z == 2 * hx && dv3.z == -2 * hz && hx >= 0 && hy >= 0 && hz >= 0,
            ;
            assert(dot_raw(nrm, dv3) <= 0);
        }
        if k == 4 && st == 1 {
            assert(u.x == 0 && u.y == -1 && u.z == 0);
            assert(e.x == 0 && e.y == 0 && e.z == -2 * hz);
            assert(nrm.x == e.y * u.z - e.z * u.y && nrm.y == e.z * u.x - e.x * u.z && nrm.z == e.x * u.y - e.y * u.x);
            assert(nrm.x == -2 * hz && nrm.y == 0 && nrm.z == 0) by (nonlinear_arith)
                requires
                    u.x == 0 && u.y == -1 && u.z == 0 && e.x == 0 && e.y == 0 && e.z == -2 * hz && nrm.x == e.y * u.z - e.z * u.y && nrm.y == e.z * u.x - e.x * u.z && nrm.z == e.x * u.y - e.y * u.x,
            ;
            assert(dv0.x == 2 * hx);
            assert(nrm.x * dv0.x + nrm.y * dv0.y + nrm.z * dv0.z <= 0) by (nonlinear_arith)
                requires
                    nrm.x == -2 * hz && nrm.y == 0 && nrm.z == 0 && dv0.x == 2 * hx && hx >= 0 && hy >= 0 && hz >= 0,
            ;
            assert(dot_raw(nrm, dv0) <= 0);
            assert(dv1.x == 0);
            assert(nrm.x * dv1.x + nrm.y * dv1.y + nrm.z * dv1.z <= 0) by (nonlinear_arith)
                requires
                    nrm.x == -2 * hz && nrm.y == 0 && nrm.z == 0 && dv1.x == 0 && hx >= 0 && hy >= 0 && hz >= 0,
            ;
            assert(dot_raw(nrm, dv1) <= 0);
            assert(dv2.x == 0);
            assert(nrm.x * dv2.x + nrm.y * dv2.y + nrm.z * dv2.z <= 0) by (nonlinear_arith)
                requires
                    nrm.x == -2 * hz && nrm.y == 0 && nrm.z == 0 && dv2.x == 0 && hx >= 0 && hy >= 0 && hz >= 0,
            ;
            assert(dot_raw(nrm, dv2) <= 0);
            assert(dv3.x == 2 * hx);
            assert(nrm.x * dv3.x + nrm.y * dv3.y + nrm.z * dv3.z <= 0) by (nonlinear_arith)
                requires
                    nrm.x == -2 * hz && nrm.y == 0 && nrm.z == 0 && dv3.x == 2 * hx && hx >= 0 && hy >= 0 && hz >= 0,
            ;
            assert(dot_raw(nrm, dv3) <= 0);
        }
        if k == 4 && st == 2 {
            assert(u.x == 0 && u.y == -1 && u.z == 0);
            assert(e.x == 2 * hx && e.y == 0 && e.z == 0);
            assert(nrm.x == e.y * u.z - e.z * u.y && nrm.y == e.z * u.x - e.x * u.z && nrm.z == e.x * u.y - e.y * u.x);
            assert(nrm.x == 0 && nrm.y == 0 && nrm.z == -2 * hx) by (nonlinear_arith)
                requires
                    u.x == 0 && u.y == -1 && u.z == 0 && e.x == 2 * hx && e.y == 0 && e.z == 0 && nrm.x == e.y * u.z - e.z * u.y && nrm.y == e.z * u.x - e.x * u.z && nrm.z == e.x * u.y - e.y * u.x,
            ;
            assert(dv0.z == 2 * hz);
            assert(nrm.x * dv0.x + nrm.y * dv0.y + nrm.z * dv0.z <= 0) by (nonlinear_arith)
                requires
                    nrm.x == 0 && nrm.y == 0 && nrm.z == -2 * hx && dv0.z == 2 * hz && hx >= 0 && hy >= 0 && hz >= 0,
            ;
            assert(dot_raw(nrm, dv0) <= 0);
            assert(dv1.z == 2 * hz);
            assert(nrm.x * dv1.x + nrm.y * dv1.y + nrm.z * dv1.z <= 0) by (nonlinear_arith)
                requires
                    nrm.x == 0 && nrm.y == 0 && nrm.z == -2 * hx && dv1.z == 2 * hz && hx >= 0 && hy >= 0 && hz >= 0,
            ;
            assert(dot_raw(nrm, dv1) <= 0);
            assert(dv2.z == 0);
            assert(nrm.x * dv2.x + nrm.y * dv2.y + nrm.z * dv2.z <= 0) by (nonlinear_arith)
                requires
                    nrm.x == 0 && nrm.y == 0 && nrm.z == -2 * hx && dv2.z == 0 && hx >= 0 && hy >= 0 && hz >= 0,
            ;
            assert(dot_raw(nrm, dv2) <= 0);
            assert(dv3.z == 0);
            assert(nrm.x * dv3.x + nrm.y * dv3.y + nrm.z * dv3.z <= 0) by (nonlinear_arith)
                requires
                    nrm.x == 0 && nrm.y == 0 && nrm.z == -2 * hx && dv3.z == 0 && hx >= 0 && hy >= 0 && hz >= 0,
            ;
            assert(dot_raw(nrm, dv3) <= 0);
        }
        if k == 4 && st == 3 {
            assert(u.x == 0 && u.y == -1 && u.z == 0);
            assert(e.x == 0 && e.y == 0 && e.z == 2 * hz);
            assert(nrm.x == e.y * u.z - e.z * u.y && nrm.y == e.z * u.x - e.x * u.z && nrm.z == e.x * u.y - e.y * u.x);
            assert(nrm.x == 2 * hz && nrm.y == 0 && nrm.z == 0) by (nonlinear_arith)
                requires
                    u.x == 0 && u.y == -1 && u.z == 0 && e.x == 0 && e.y == 0 && e.z == 2 * hz && nrm.x == e.y * u.z - e.z * u.y && nrm.y == e.z * u.x - e.x * u.z && nrm.z == e.x * u.y - e.y * u.x,
            ;
            assert(dv0.x == 0);
            assert(nrm.x * dv0.x + nrm.y * dv0.y + nrm.z * dv0.z <= 0) by (nonlinear_arith)
                requires
                    nrm.x == 2 * hz && nrm.y == 0 && nrm.z == 0 && dv0.x == 0 && hx >= 0 && hy >= 0 && hz >= 0,
            ;
            assert(dot_raw(nrm, dv0) <= 0);
            assert(dv1.x == -2 * hx);
            assert(nrm.x * dv1.x + nrm.y * dv1.y + nrm.z * dv1.z <= 0) by (nonlinear_arith)
                requires
                    nrm.x == 2 * hz && nrm.y == 0 && nrm.z == 0 && dv1.x == -2 * hx && hx >= 0 && hy >= 0 && hz >= 0,
            ;
            assert(dot_raw(nrm, dv1) <= 0);
            assert(dv2.x == -2 * hx);
            assert(nrm.x * dv2.x + nrm.y * dv2.y + nrm.z * dv2.z <= 0) by (nonlinear_arith)
                requires
                    nrm.x == 2 * hz && nrm.y == 0 && nrm.z == 0 && dv2.x == -2 * hx && hx >= 0 && hy >= 0 && hz >= 0,
            ;
            assert(dot_raw(nrm, dv2) <= 0);
            assert(dv3.x == 0);
            assert(nrm.x * dv3.x + nrm.y * dv3.y + nrm.z * dv3.z <= 0) by (nonlinear_arith)
                requires
                    nrm.x == 2 * hz && nrm.y == 0 && nrm.z == 0 && dv3.x == 0 && hx >= 0 && hy >= 0 && hz >= 0,
            ;
            assert(dot_raw(nrm, dv3) <= 0);
        }
        if k == 5 && st == 0 {
            assert(u.x == 0 && u.y == 0 && u.z == -1);
            assert(e.x == 0 && e.y == -2 * hy && e.z == 0);
            assert(nrm.x == e.y * u.z - e.z * u.y && nrm.y == e.z * u.x - e.x * u.z && nrm.z == e.x * u.y - e.y * u.x);
            assert(nrm.x == 2 * hy && nrm.y == 0 && nrm.z == 0) by (nonlinear_arith)
                requires
                    u.x == 0 && u.y == 0 && u.z == -1 && e.x == 0 && e.y == -2 * hy && e.z == 0 && nrm.x == e.y * u.z - e.z * u.y && nrm.y == e.z * u.x - e.x * u.z && nrm.z == e.x * u.y - e.y * u.x,
            ;
            assert(dv0.x == 0);
            assert(nrm.x * dv0.x + nrm.y * dv0.y + nrm.z * dv0.z <= 0) by (nonlinear_arith)
                requires
                    nrm.x == 2 * hy && nrm.y == 0 && nrm.z == 0 && dv0.x == 0 && hx >= 0 && hy >= 0 && hz >= 0,
            ;
            assert(dot_raw(nrm, dv0) <= 0);
            assert(dv1.x == 0);
            assert(nrm.x * dv1.x + nrm.y * dv1.y + nrm.z * dv1.z <= 0) by (nonlinear_arith)
                requires
                    nrm.x == 2 * hy && nrm.y == 0 && nrm.z == 0 && dv1.x == 0 && hx >= 0 && hy >= 0 && hz >= 0,
            ;
            assert(dot_raw(nrm, dv1) <= 0);
            assert(dv2.x == -2 * hx);
            assert(nrm.x * dv2.x + nrm.y * dv2.y + nrm.z * dv2.z <= 0) by (nonlinear_arith)
                requires
                    nrm.x == 2 * hy && nrm.y == 0 && nrm.z == 0 && dv2.x == -2 * hx && hx >= 0 && hy >= 0 && hz >= 0,
            ;
            assert(dot_raw(nrm, dv2) <= 0);
            assert(dv3.x == -2 * hx);
            assert(nrm.x * dv3.x + nrm.y * dv3.y + nrm.z * dv3.z <= 0) by (nonlinear_arith)
                requires
                    nrm.x == 2 * hy && nrm.y == 0 && nrm.z == 0 && dv3.x == -2 * hx && hx >= 0 && hy >= 0 && hz >= 0,
            ;
            assert(dot_raw(nrm, dv3) <= 0);
        }
        if k == 5 && st == 1 {
            assert(u.x == 0 && u.y == 0 && u.z == -1);
            assert(e.x == -2 * hx && e.y == 0 && e.z == 0);
            assert(nrm.x == e.y * u.z - e.z * u.y && nrm.y == e.z * u.x - e.x * u.z && nrm.z == e.x * u.y - e.y * u.x);
            assert(nrm.x == 0 && nrm.y == -2 * hx && nrm.z == 0) by (nonlinear_arith)
                requires
                    u.x == 0 && u.y == 0 && u.z == -1 && e.x == -2 * hx && e.y == 0 && e.z == 0 && nrm.x == e.y * u.z - e.z * u.y && nrm.y == e.z * u.x - e.x * u.z && nrm.z == e.x * u.y - e.y * u.x,
            ;
            assert(dv0.y == 2 * hy);
            assert(nrm.x * dv0.x + nrm.y * dv0.y + nrm.z * dv0.z <= 0) by (nonlinear_arith)
                requires
                    nrm.x == 0 && nrm.y == -2 * hx && nrm.z == 0 && dv0.y == 2 * hy && hx >= 0 && hy >= 0 && hz >= 0,
            ;
            assert(dot_raw(nrm, dv0) <= 0);
            assert(dv1.y == 0);
            assert(nrm.x * dv1.x + nrm.y * dv1.y + nrm.z * dv1.z <= 0) by (nonlinear_arith)
                requires
                    nrm.x == 0 && nrm.y == -2 * hx && nrm.z == 0 && dv1.y == 0 && hx >= 0 && hy >= 0 && hz >= 0,
            ;
            assert(dot_raw(nrm, dv1) <= 0);
            assert(dv2.y == 0);
            assert(nrm.x * dv2.x + nrm.y * dv2.y + nrm.z * dv2.z <= 0) by (nonlinear_arith)
                requires
                    nrm.x == 0 && nrm.y == -2 * hx && nrm.z == 0 && dv2.y == 0 && hx >= 0 && hy >= 0 && hz >= 0,
            ;
            assert(dot_raw(nrm, dv2) <= 0);
            assert(dv3.y == 2 * hy);
            assert(nrm.x * dv3.x + nrm.y * dv3.y + nrm.z * dv3.z <= 0) by (nonlinear_arith)
                requires
                    nrm.x == 0 && nrm.y == -2 * hx && nrm.z == 0 && dv3.y == 2 * hy && hx >= 0 && hy >= 0 && hz >= 0,
            ;
            assert(dot_raw(nrm, dv3) <= 0);
        }
        if k == 5 && st == 2 {
            assert(u.x == 0 && u.y == 0 && u.z == -1);
            assert(e.x == 0 && e.y == 2 * hy && e.z == 0);
            assert(nrm.x == e.y * u.z - e.z * u.y && nrm.y == e.z * u.x - e.x * u.z && nrm.z == e.x * u.y - e.y * u.x);
            assert(nrm.x == -2 * hy && nrm.y == 0 && nrm.z == 0) by (nonlinear_arith)
                requires
                    u.x == 0 && u.y == 0 && u.z == -1 && e.x == 0 && e.y == 2 * hy && e.z == 0 && nrm.x == e.y * u.z - e.z * u.y && nrm.y == e.z * u.x - e.x * u.z && nrm.z == e.x * u.y - e.y * u.x,
            ;
            assert(dv0.x == 2 * hx);
            assert(nrm.x * dv0.x + nrm.y * dv0.y + nrm.z * dv0.z <= 0) by (nonlinear_arith)
                requires
                    nrm.x == -2 * hy && nrm.y == 0 && nrm.z == 0 && dv0.x == 2 * hx && hx >= 0 && hy >= 0 && hz >= 0,
            ;
            assert(dot_raw(nrm, dv0) <= 0);
            assert(dv1.x == 2 * hx);
            assert(nrm.x * dv1.x + nrm.y * dv1.y + nrm.z * dv1.z <= 0) by (nonlinear_arith)
                requires
                    nrm.x == -2 * hy && nrm.y == 0 && nrm.z == 0 && dv1.x == 2 * hx && hx >= 0 && hy >= 0 && hz >= 0,
            ;
            assert(dot_raw(nrm, dv1) <= 0);
            assert(dv2.x == 0);
            assert(nrm.x * dv2.x + nrm.y * dv2.y + nrm.z * dv2.z <= 0) by (nonlinear_arith)
                requires
                    nrm.x == -2 * hy && nrm.y == 0 && nrm.z == 0 && dv2.x == 0 && hx >= 0 && hy >= 0 && hz >= 0,
            ;
            assert(dot_raw(nrm, dv2) <= 0);
            assert(dv3.x == 0);
            assert(nrm.x * dv3.x + nrm.y * dv3.y + nrm.z * dv3.z <= 0) by (nonlinear_arith)
                requires
                    nrm.x == -2 * hy && nrm.y == 0 && nrm.z == 0 && dv3.x == 0 && hx >= 0 && hy >= 0 && hz >= 0,
            ;
            assert(dot_raw(nrm, dv3) <= 0);
        }
        if k == 5 && st == 3 {
            assert(u.x == 0 && u.y == 0 && u.z == -1);
            assert(e.x == 2 * hx && e.y == 0 && e.z == 0);
            assert(nrm.x == e.y * u.z - e.z * u.y && nrm.y == e.z * u.x - e.x * u.z && nrm.z == e.x * u.y - e.y * u.x);
            assert(nrm.x == 0 && nrm.y == 2 * hx && nrm.z == 0) by (nonlinear_arith)
                requires
                    u.x == 0 && u.y == 0 && u.z == -1 && e.x == 2 * hx && e.y == 0 && e.z == 0 && nrm.x == e.y * u.z - e.z * u.y && nrm.y == e.z * u.x - e.x * u.z && nrm.z == e.x * u.y - e.y * u.x,
            ;
            assert(dv0.y == 0);
            assert(nrm.x * dv0.x + nrm.y * dv0.y + nrm.z * dv0.z <= 0) by (nonlinear_arith)
                requires
                    nrm.x == 0 && nrm.y == 2 * hx && nrm.z == 0 && dv0.y == 0 && hx >= 0 && hy >= 0 && hz >= 0,
            ;
            assert(dot_raw(nrm, dv0) <= 0);
            assert(dv1.y == -2 * hy);
            assert(nrm.x * dv1.x + nrm.y * dv1.y + nrm.z * dv1.z <= 0) by (nonlinear_arith)
                requires
                    nrm.x == 0 && nrm.y == 2 * hx && nrm.z == 0 && dv1.y == -2 * hy && hx >= 0 && hy >= 0 && hz >= 0,
            ;
            assert(dot_raw(nrm, dv1) <= 0);
            assert(dv2.y == -2 * hy);
            assert(nrm.x * dv2.x + nrm.y * dv2.y + nrm.z * dv2.z <= 0) by (nonlinear_arith)
                requires
                    nrm.x == 0 && nrm.y == 2 * hx && nrm.z == 0 && dv2.y == -2 * hy && hx >= 0 && hy >= 0 && hz >= 0,
            ;
            assert(dot_raw(nrm, dv2) <= 0);
            assert(dv3.y == 0);
            assert(nrm.x * dv3.x + nrm.y * dv3.y + nrm.z * dv3.z <= 0) by (nonlinear_arith)
                requires
                    nrm.x == 0 && nrm.y == 2 * hx && nrm.z == 0 && dv3.y == 0 && hx >= 0 && hy >= 0 && hz >= 0,
            ;
            assert(dot_raw(nrm, dv3) <= 0);
        }
    assert forall|j: int| 0 <= j < 4 implies #[trigger] side_plane_inner(scale, k, st, j) by {
        if j == 0 {
            assert(dot_raw(nrm, dv0) <= 0);
        } else if j == 1 {
            assert(dot_raw(nrm, dv1) <= 0);
        } else if j == 2 {
            assert(dot_raw(nrm, dv2) <= 0);
        } else {
            assert(dot_raw(nrm, dv3) <= 0);
        }
    }
}

/// Read the four corners of face `k` out of the cached corner table.
fn get_face_vertices(instance: &Cuboid, k: usize) -> (r: [Vec3; 4])
    requires
        body_ok(*instance),
        k < 6,
    ensures
        forall|j: int| 0 <= j < 4 ==> (#[trigger] r@[j])@ == face_verts(*instance, k as int)[j],
{
    let c = &instance.corners;
    let out = if k == 0 {
        [c[7], c[5], c[4], c[6]]
    } else if k == 1 {
        [c[7], c[6], c[2], c[3]]
    } else if k == 2 {
        [c[7], c[3], c[1], c[5]]
    } else if k == 3 {
        [c[3], c[2], c[0], c[1]]
    } else if k == 4 {
        [c[5], c[1], c[0], c[4]]
    } else {
        [c[6], c[4], c[0], c[2]]
    };
    out
}

/// The outward normal of side `s` of the reference face: the side edge
/// crossed with the face direction, normalized; `None` for a degenerate
/// edge, which aborts the manifold (the pair is skipped this tick).
pub open spec fn side_normal_s(a: Cuboid, refk: int, s: int) -> Option<V3> {
    let rv = face_verts(a, refk);
    let e = subv(rv[(s + 1) % 4], rv[s]);
    let c = crossv(e, face_dir_s(a.rotation@, refk));
    if magv(c) <= EPSILON {
        Option::None
    } else {
        Option::Some(normv(c))
    }
}

/// One Sutherland-Hodgman case split: what the edge `p1 -> p2` of the
/// subject polygon contributes against one clip plane, appended to `acc`
/// (with the 8-slot cap of the fixed-size buffers).
pub open spec fn clip_step(acc: Seq<V3>, pp: V3, n: V3, p1: V3, p2: V3) -> Option<Seq<V3>> {
    let in1 = crate::math::dist_s(pp, n, p1) <= EPSILON;
    let in2 = crate::math::dist_s(pp, n, p2) <= EPSILON;
    if in1 && in2 {
        if acc.len() < 8 {
            Option::Some(acc.push(p2))
        } else {
            Option::Some(acc)
        }
    } else if in1 && !in2 {
        if acc.len() < 8 {
            match crate::math::isect_s(pp, n, p1, p2) {
                Option::None => Option::None,
                Option::Some(x) => Option::Some(acc.push(x)),
            }
        } else {
            Option::Some(acc)
        }
    } else if !in1 && in2 {
        if acc.len() < 7 {
            match crate::math::isect_s(pp, n, p1, p2) {
                Option::None => Option::None,
                Option::Some(x) => Option::Some(acc.push(x).push(p2)),
            }
        } else {
            Option::Some(acc)
        }
    } else {
        Option::Some(acc)
    }
}

/// Clip the polygon edges from `i` on against one plane, accumulating the
/// surviving points.
pub open spec fn clip_from(poly: Seq<V3>, pp: V3, n: V3, i: int, acc: Seq<V3>) -> Option<Seq<V3>>
    decreases poly.len() - i,
{
    if i < 0 || i >= poly.len() {
        Option::Some(acc)
    } else {
        match clip_step(acc, pp, n, poly[i], poly[(i + 1) % (poly.len() as int)]) {
            Option::None => Option::None,
            Option::Some(acc2) => clip_from(poly, pp, n, i + 1, acc2),
        }
    }
}

/// Clip the polygon against the reference face's sides from `s` on.
pub open spec fn clip_sides(a: Cuboid, refk: int, s: int, poly: Seq<V3>) -> Option<Seq<V3>>
    decreases 4 - s,
{
    if s >= 4 {
        Option::Some(poly)
    } else {
        let rv = face_verts(a, refk);
        match side_normal_s(a, refk, s) {
            Option::None => Option::None,
            Option::Some(pn) => {
                match clip_from(poly, rv[s], pn, 0, Seq::empty()) {
                    Option::None => Option::None,
                    Option::Some(p2) => clip_sides(a, refk, s + 1, p2),
                }
            },
        }
    }
}

/// The clipped contact polygon: the incident face of `b`, clipped against
/// the four sides of the reference face of `a`.
pub open spec fn manifold_polys(a: Cuboid, b: Cuboid, n: V3) -> Option<Seq<V3>> {
    clip_sides(a, best_face(a, negv(n)), 0, face_verts(b, best_face(b, n)))
}

/// Keep the clipped points at or behind the reference plane (within the
/// geometric tolerance), paired with their non-negative depths.
pub open spec fn accept_from(
    poly: Seq<V3>,
    pp: V3,
    n: V3,
    i: int,
    acc: Seq<(V3, int)>,
) -> Seq<(V3, int)>
    decreases poly.len() - i,
{
    if i < 0 || i >= poly.len() {
        acc
    } else {
        let d = crate::math::dist_s(pp, n, poly[i]);
        if d < EPSILON {
            accept_from(poly, pp, n, i + 1, acc.push((poly[i], abs_i(d))))
        } else {
            accept_from(poly, pp, n, i + 1, acc)
        }
    }
}

/// The contact manifold: the accepted clipped points with their depths, or
/// `None` when a degenerate direction was met (callers skip the pair).
pub open spec fn manifold_s(a: Cuboid, b: Cuboid, n: V3) -> Option<Seq<(V3, int)>> {
    let refk = best_face(a, negv(n));
    match manifold_polys(a, b, n) {
        Option::None => Option::None,
        Option::Some(poly) => Option::Some(
            accept_from(poly, face_verts(a, refk)[0], face_dir_s(a.rotation@, refk), 0, Seq::empty()),
        ),
    }
}

/// The (point, depth) views of a sequence of contact points.
pub open spec fn views_cp(s: Seq<ContactPoint>) -> Seq<(V3, int)> {
    Seq::new(s.len(), |i: int| (s[i].point@, s[i].depth as int))
}

proof fn lemma_views_cp_push(s: Seq<ContactPoint>, v: ContactPoint)
    ensures
        views_cp(s.push(v)) == views_cp(s).push((v.point@, v.depth as int)),
{
    assert(views_cp(s.push(v)) =~= views_cp(s).push((v.point@, v.depth as int)));
}

/// A face direction is unit-length like the axis it comes from.
proof fn lemma_face_dir_props(c: Cuboid, k: int)
    requires
        body_args_ok(c),
        0 <= k < 6,
    ensures
        bounded3(face_dir_s(c.rotation@, k), SCALE as int),
        500_000 <= magv(face_dir_s(c.rotation@, k)) <= 2 * SCALE,
{
    if k < 3 {
        lemma_face_axis_props(c.rotation@, k);
    } else {
        lemma_face_axis_props(c.rotation@, k - 3);
        crate::math::lemma_magv_neg(face_axis_s(c.rotation@, k - 3));
    }
}

/// All six face directions are unit-bounded.
proof fn lemma_face_dir_bounds(c: Cuboid)
    requires
        body_args_ok(c),
    ensures
        forall|k: int| 0 <= k < 6 ==> bounded3(#[trigger] face_dir_s(c.rotation@, k), SCALE as int),
{
    assert forall|k: int| 0 <= k < 6 implies bounded3(
        #[trigger] face_dir_s(c.rotation@, k),
        SCALE as int,
    ) by {
        if k < 3 {
            lemma_face_axis_props(c.rotation@, k);
        } else {
            lemma_face_axis_props(c.rotation@, k - 3);
        }
    }
}

/// Every face vertex is a corner, so it is bounded like one.
proof fn lemma_face_vert_bounds(c: Cuboid, k: int)
    requires
        body_args_ok(c),
        0 <= k < 6,
    ensures
        forall|j: int| 0 <= j < 4 ==> bounded3(#[trigger] face_verts(c, k)[j], CORNER_MAX as int),
{
    assert forall|j: int| 0 <= j < 4 implies bounded3(
        #[trigger] face_verts(c, k)[j],
        CORNER_MAX as int,
    ) by {
        assert(0 <= face_corner_idx(k, j) < 8);
        lemma_corner_bounds(c, face_corner_idx(k, j));
    }
}

/// Generate the contact patch between two overlapping boxes by clipping the
/// incident face of `other` against the reference face of `instance`
/// (Sutherland-Hodgman); `None` when a degenerate direction turned up, in
/// which case the caller skips the pair for this tick.
pub fn calc_contact_manifold(instance: &Cuboid, other: &Cuboid, collision_normal: Vec3) -> (r:
    Option<Vec<ContactPoint>>)
    requires
        body_ok(*instance),
        body_ok(*other),
        bounded3(collision_normal@, 2 * SCALE as int),
    ensures
        r is Some <==> manifold_s(*instance, *other, collision_normal@) is Some,
        r is Some ==> ({
            let m = manifold_s(*instance, *other, collision_normal@).unwrap();
            &&& r.unwrap()@.len() == m.len()
            &&& r.unwrap()@.len() <= 8
            &&& forall|i: int|
                0 <= i < m.len() ==> (#[trigger] r.unwrap()@[i]).point@ == m[i].0
                    && r.unwrap()@[i].depth == m[i].1 && r.unwrap()@[i].depth >= 0 && bounded3(
                    r.unwrap()@[i].point@,
                    CORNER_MAX as int,
                )
        }),
{
    let inc_dirs = other.get_all_face_axes();
    let ref_dirs = instance.get_all_face_axes();
    proof {
        assert(views3(inc_dirs@) =~= face_dirs(*other));
        assert(views3(ref_dirs@) =~= face_dirs(*instance));
        lemma_face_dir_bounds(*other);
        lemma_face_dir_bounds(*instance);
    }
    let incident_face = most_aligned_with(&inc_dirs, &collision_normal);
    let neg_n = collision_normal.negate();
    let reference_face = most_aligned_with(&ref_dirs, &neg_n);
    proof {
        assert(incident_face as int == best_face(*other, collision_normal@));
        assert(reference_face as int == best_face(*instance, negv(collision_normal@)));
    }
    let ghost refk: int = reference_face as int;
    let inc_verts = get_face_vertices(other, incident_face);
    let ref_verts = get_face_vertices(instance, reference_face);
    let ref_dir = ref_dirs[reference_face];
    let mut poly: Vec<Vec3> = Vec::new();
    poly.push(inc_verts[0]);
    poly.push(inc_verts[1]);
    poly.push(inc_verts[2]);
    poly.push(inc_verts[3]);
    proof {
        assert(views3(poly@) =~= face_verts(*other, incident_face as int));
        lemma_face_vert_bounds(*other, incident_face as int);
        lemma_face_vert_bounds(*instance, refk);
    }
    let mut s: usize = 0;
    while s < 4
        invariant
            body_ok(*instance),
            body_ok(*other),
            bounded3(collision_normal@, 2 * SCALE as int),
            0 <= s <= 4,
            reference_face < 6,
            refk == reference_face as int,
            ref_dir@ == face_dir_s(instance.rotation@, refk),
            bounded3(ref_dir@, SCALE as int),
            forall|j: int|
                0 <= j < 4 ==> (#[trigger] ref_verts@[j])@ == face_verts(*instance, refk)[j],
            forall|j: int|
                0 <= j < 4 ==> bounded3(#[trigger] face_verts(*instance, refk)[j], CORNER_MAX as int),
            poly@.len() <= 8,
            forall|j: int| 0 <= j < poly@.len() ==> bounded3((#[trigger] poly@[j])@, CORNER_MAX as int),
            clip_sides(*instance, refk, s as int, views3(poly@)) == manifold_polys(
                *instance,
                *other,
                collision_normal@,
            ),
        decreases 4 - s,
    {
        let p1 = ref_verts[s];
        let p2 = ref_verts[(s + 1) % 4];
        let e = p2.minus(&p1);
        proof {
            assert(2 * (2 * CORNER_MAX as int) * (SCALE as int) <= (0x2_0000_0000_0000int) * (
            SCALE as int)) by (nonlinear_arith)
                requires
                    CORNER_MAX == 0x8000_0000_0000i64 && SCALE == 1_000_000i64,
            ;
            lemma_crossv_bound(e@, ref_dir@, 2 * CORNER_MAX as int, SCALE as int, 0x2_0000_0000_0000int);
        }
        let cr = e.cross(&ref_dir);
        let pn = match cr.normalize() {
            Some(u) => u,
            None => {
                proof {
                    assert(side_normal_s(*instance, refk, s as int) is None);
                    assert(clip_sides(*instance, refk, s as int, views3(poly@)) is None);
                }
                return None;
            },
        };
        proof {
            assert(side_normal_s(*instance, refk, s as int) == Option::Some(pn@));
            assert(magv(pn@) >= 500_000 && bounded3(pn@, SCALE as int));
        }
        let plane = Plane { point: p1, normal: pn };
        let n_len = poly.len();
        let mut next: Vec<Vec3> = Vec::new();
        proof {
            assert(views3(next@) =~= Seq::<V3>::empty());
        }
        let mut i: usize = 0;
        while i < n_len
            invariant
                body_ok(*instance),
                body_ok(*other),
                bounded3(collision_normal@, 2 * SCALE as int),
                s < 4,
                refk == reference_face as int,
                reference_face < 6,
                plane.point == p1,
                plane.normal == pn,
                p1@ == face_verts(*instance, refk)[s as int],
                bounded3(p1@, CORNER_MAX as int),
                bounded3(pn@, SCALE as int),
                magv(pn@) >= 500_000,
                n_len == poly@.len(),
                n_len <= 8,
                0 <= i <= n_len,
                forall|j: int|
                    0 <= j < poly@.len() ==> bounded3((#[trigger] poly@[j])@, CORNER_MAX as int),
                next@.len() <= 8,
                forall|j: int|
                    0 <= j < next@.len() ==> bounded3((#[trigger] next@[j])@, CORNER_MAX as int),
                clip_from(views3(poly@), p1@, pn@, i as int, views3(next@)) == clip_from(
                    views3(poly@),
                    p1@,
                    pn@,
                    0,
                    Seq::empty(),
                ),
                clip_sides(*instance, refk, s as int, views3(poly@)) == manifold_polys(
                    *instance,
                    *other,
                    collision_normal@,
                ),
                side_normal_s(*instance, refk, s as int) == Option::Some(pn@),
            decreases n_len - i,
        {
            let pv1 = poly[i];
            let pv2 = poly[(i + 1) % n_len];
            proof {
                assert(views3(poly@)[i as int] == pv1@);
                assert(views3(poly@)[((i as int) + 1) % (poly@.len() as int)] == pv2@);
            }
            let d1 = plane.distance_to_point(&pv1);
            let d2 = plane.distance_to_point(&pv2);
            let in1 = d1 <= EPSILON;
            let in2 = d2 <= EPSILON;
            if in1 && in2 {
                if next.len() < 8 {
                    proof {
                        lemma_views3_push(next@, pv2);
                    }
                    next.push(pv2);
                }
            } else if in1 && !in2 {
                if next.len() < 8 {
                    match plane.intersect_with_line_segment(&pv1, &pv2) {
                        Some(x) => {
                            proof {
                                lemma_views3_push(next@, x);
                            }
                            next.push(x);
                        },
                        None => {
                            proof {
                                assert(clip_step(views3(next@), p1@, pn@, pv1@, pv2@) is None);
                                assert(clip_from(views3(poly@), p1@, pn@, i as int, views3(next@))
                                    is None);
                            }
                            return None;
                        },
                    }
                }
            } else if !in1 && in2 {
                if next.len() < 7 {
                    match plane.intersect_with_line_segment(&pv1, &pv2) {
                        Some(x) => {
                            proof {
                                lemma_views3_push(next@, x);
                            }
                            next.push(x);
                            proof {
                                lemma_views3_push(next@, pv2);
                            }
                            next.push(pv2);
                        },
                        None => {
                            proof {
                                assert(clip_step(views3(next@), p1@, pn@, pv1@, pv2@) is None);
                                assert(clip_from(views3(poly@), p1@, pn@, i as int, views3(next@))
                                    is None);
                            }
                            return None;
                        },
                    }
                }
            }
            i += 1;
        }
        proof {
            assert(clip_from(views3(poly@), p1@, pn@, n_len as int, views3(next@)) == Option::Some(
                views3(next@),
            ));
            assert(clip_sides(*instance, refk, s as int + 1, views3(next@)) == manifold_polys(
                *instance,
                *other,
                collision_normal@,
            ));
        }
        poly = next;
        s += 1;
    }
    // Accept the clipped points at or behind the reference plane.
    proof {
        lemma_face_dir_props(*instance, refk);
    }
    let final_plane = Plane { normal: ref_dir, point: ref_verts[0] };
    let ghost fpp: V3 = face_verts(*instance, refk)[0];
    let mut out: Vec<ContactPoint> = Vec::new();
    proof {
        assert(views_cp(out@) =~= Seq::<(V3, int)>::empty());
    }
    let m_len = poly.len();
    let mut i: usize = 0;
    while i < m_len
        invariant
            body_ok(*instance),
            refk == reference_face as int,
            reference_face < 6,
            final_plane.normal == ref_dir,
            final_plane.point@ == fpp,
            fpp == face_verts(*instance, refk)[0],
            bounded3(fpp, CORNER_MAX as int),
            ref_dir@ == face_dir_s(instance.rotation@, refk),
            bounded3(ref_dir@, SCALE as int),
            magv(ref_dir@) >= 500_000,
            m_len == poly@.len(),
            m_len <= 8,
            0 <= i <= m_len,
            forall|j: int|
                0 <= j < poly@.len() ==> bounded3((#[trigger] poly@[j])@, CORNER_MAX as int),
            out@.len() <= i,
            forall|j: int|
                0 <= j < out@.len() ==> (#[trigger] out@[j]).depth >= 0 && bounded3(
                    out@[j].point@,
                    CORNER_MAX as int,
                ),
            accept_from(views3(poly@), fpp, ref_dir@, i as int, views_cp(out@)) == accept_from(
                views3(poly@),
                fpp,
                ref_dir@,
                0,
                Seq::empty(),
            ),
        decreases m_len - i,
    {
        let p = poly[i];
        proof {
            assert(views3(poly@)[i as int] == p@);
        }
        let d = final_plane.distance_to_point(&p);
        if d < EPSILON {
            let cp = ContactPoint { point: p, depth: crate::fixed::abs_fx(d) };
            proof {
                lemma_views_cp_push(out@, cp);
            }
            out.push(cp);
        }
        i += 1;
    }
    proof {
        assert(accept_from(views3(poly@), fpp, ref_dir@, m_len as int, views_cp(out@))
            == views_cp(out@));
        assert(manifold_s(*instance, *other, collision_normal@) == Option::Some(views_cp(out@)));
    }
    Some(out)
}

/// The pair collides: bounding boxes touch, no candidate axis separates the
/// boxes, the MTV is non-degenerate, and clipping produced a manifold.
pub open spec fn detect_some(a: Cuboid, b: Cuboid) -> bool {
    &&& crate::world::aabb_isect(a.aabb, b.aabb)
    &&& sat_found(a, b)
    &&& magv(sat_mtv_s(a, b)) > EPSILON
    &&& manifold_s(a, b, normv(sat_mtv_s(a, b))) is Some
}

/// Everything `detect_collision` promises of its result: when it reports a
/// collision, and every observable field of the report, as a function of
/// the two bodies alone. The pair is canonicalized: the smaller index is
/// the instance, and the MTV is oriented from the higher-indexed body
/// toward the lower-indexed one (so it is flipped when the arguments
/// arrive in the other order).
pub open spec fn detect_post(a: Cuboid, b: Cuboid, r: Option<CollisionInfo>) -> bool {
    &&& (r is Some <==> detect_some(a, b))
    &&& (r is Some ==> ({
        let info = r.unwrap();
        &&& info.instance_index == crate::world::min_i(a.index as int, b.index as int)
        &&& info.other_index == crate::world::max_i(a.index as int, b.index as int)
        &&& info.mtv@ == (if a.index <= b.index {
            sat_mtv_s(a, b)
        } else {
            negv(sat_mtv_s(a, b))
        })
        &&& (sat_index(a, b) < 6 <==> info.collision_type == CollisionType::Face)
        &&& (sat_index(a, b) >= 6 ==> info.collision_type == CollisionType::EdgeEdge(
            a.face_axes[(sat_index(a, b) - 6) / 3],
            b.face_axes[(sat_index(a, b) - 6) % 3],
        ))
        &&& ({
            let m = manifold_s(a, b, normv(sat_mtv_s(a, b))).unwrap();
            &&& info.manifold@.len() == m.len()
            &&& m.len() <= 8
            &&& forall|i: int|
                0 <= i < m.len() ==> (#[trigger] info.manifold@[i]).point@ == m[i].0
                    && info.manifold@[i].depth == m[i].1 && info.manifold@[i].depth >= 0
        })
    }))
}

/// Decide whether and how two boxes touch: a fast bounding-box rejection,
/// then the separating-axis test, then manifold generation. Boxes whose
/// bounding boxes do not intersect never collide.
pub fn detect_collision(instance: &Cuboid, other: &Cuboid) -> (r: Option<CollisionInfo>)
    requires
        body_ok(*instance),
        body_ok(*other),
    ensures
        detect_post(*instance, *other, r),
        !crate::world::aabb_isect(instance.aabb, other.aabb) ==> r is None,
        r is Some ==> bounded3(r.unwrap().mtv@, OVERLAP_MAX as int),
        r is Some ==> forall|i: int|
            0 <= i < r.unwrap().manifold@.len() ==> bounded3(
                (#[trigger] r.unwrap().manifold@[i]).point@,
                CORNER_MAX as int,
            ),
{
    if instance.aabb.intersects(&other.aabb) {
        match sat(instance, other) {
            None => None,
            Some((mtv, collision_type)) => {
                match mtv.normalize() {
                    None => None,
                    Some(n) => {
                        match calc_contact_manifold(instance, other, n) {
                            None => None,
                            Some(manifold) => {
                                // Canonicalize the pair: the smaller index is the
                                // instance, and the MTV keeps pointing from the
                                // higher-indexed body toward the lower-indexed one.
                                let (lo, hi, oriented_mtv) = if instance.index <= other.index {
                                    (instance.index, other.index, mtv)
                                } else {
                                    (other.index, instance.index, mtv.negate())
                                };
                                Some(
                                    CollisionInfo {
                                        instance_index: lo,
                                        other_index: hi,
                                        mtv: oriented_mtv,
                                        collision_type,
                                        manifold,
                                    },
                                )
                            },
                        }
                    },
                }
            },
        }
    } else {
        None
    }
}

/// Detection is deterministic and idempotent: the contract pins every
/// observable field of the result down as a function of the two bodies, so
/// any two calls on unchanged inputs report the same collision, MTV,
/// classification and manifold.
pub proof fn lemma_detect_collision_deterministic(
    a: Cuboid,
    b: Cuboid,
    r1: Option<CollisionInfo>,
    r2: Option<CollisionInfo>,
)
    requires
        detect_post(a, b, r1),
        detect_post(a, b, r2),
    ensures
        r1 is Some <==> r2 is Some,
        r1 is Some ==> r1.unwrap().instance_index == r2.unwrap().instance_index
            && r1.unwrap().other_index == r2.unwrap().other_index && r1.unwrap().mtv
            == r2.unwrap().mtv && r1.unwrap().collision_type == r2.unwrap().collision_type
            && r1.unwrap().manifold@ == r2.unwrap().manifold@,
{
    if r1 is Some {
        let i1 = r1.unwrap();
        let i2 = r2.unwrap();
        assert(i1.mtv == i2.mtv);
        if sat_index(a, b) < 6 {
            assert(i1.collision_type == i2.collision_type);
        } else {
            assert(i1.collision_type == i2.collision_type);
        }
        assert forall|i: int| 0 <= i < i1.manifold@.len() implies #[trigger] i1.manifold@[i]
            == i2.manifold@[i] by {
            assert(i1.manifold@[i].point == i2.manifold@[i].point);
        }
        assert(i1.manifold@ =~= i2.manifold@);
    }
}

/// Scaling a unit-bounded axis by an overlap stays representable.
proof fn lemma_smul_overlap_fits(ax: V3, ov: int)
    requires
        bounded3(ax, SCALE as int),
        0 <= ov <= 2 * (PROJ_MAX as int),
    ensures
        crate::math::smul_fits(ax, ov),
        bounded3(smulv(ax, ov), OVERLAP_MAX as int),
        okv(smulv(ax, ov)),
        okv(negv(smulv(ax, ov))),
{
    crate::fixed::lemma_fmul_bound(ax.x, ov, SCALE as int, 2 * (PROJ_MAX as int));
    crate::fixed::lemma_fmul_bound(ax.y, ov, SCALE as int, 2 * (PROJ_MAX as int));
    crate::fixed::lemma_fmul_bound(ax.z, ov, SCALE as int, 2 * (PROJ_MAX as int));
    assert((SCALE as int) * (2 * (PROJ_MAX as int)) / (SCALE as int) == 2 * (PROJ_MAX as int))
        by (nonlinear_arith)
        requires
            SCALE == 1_000_000i64,
    ;
}

} // verus!
