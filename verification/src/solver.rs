//! The sequential-impulse constraint solver: Baumgarte-stabilized normal
//! impulses with Coulomb friction, run in fixed global passes over the
//! collision list.
//!
//! Every arithmetic step is checked: a contact whose computation would
//! leave the fixed-point range (physically absurd inputs) is skipped for
//! the tick, leaving the bodies untouched, and the contracts say exactly
//! when that happens.

use vstd::prelude::*;

verus! {

use vstd::pervasive::VecAdditionalExecFns;
use crate::fixed::EPSILON;
use crate::fixed::RAW_MAX;
use crate::fixed::SCALE;
use crate::fixed::abs_i;
use crate::fixed::fdiv_s;
use crate::fixed::fmul_s;
use crate::fixed::in_range;
use crate::math::M3;
use crate::math::Mat3;
use crate::math::V3;
use crate::math::Vec3;
use crate::math::add3_fits;
use crate::math::addv;
use crate::math::bounded3;
use crate::math::cross_fits;
use crate::math::crossv;
use crate::math::dotv;
use crate::math::magv;
use crate::math::mvmul_fits;
use crate::math::mvmul_s;
use crate::math::normv;
use crate::math::ok_m3;
use crate::math::okv;
use crate::math::smul_fits;
use crate::math::smulv;
use crate::math::sub3_fits;
use crate::math::subv;
use crate::math::zerov;
use crate::world::Cuboid;
use crate::world::POS_MAX;
use crate::world::body_args_ok;
use crate::world::max_i;
use crate::world::min_i;
use crate::physics::CollisionInfo;

/// The global simulation constants, passed explicitly to the solver and
/// integrator rather than baked in as module constants.
#[derive(Clone, Copy, Debug)]
pub struct SolverConfig {
    /// Gravitational acceleration applied each tick.
    pub gravity: Vec3,
    /// Restitution coefficient (bounciness), in `[0, 1]`.
    pub restitution: i64,
    /// Static Coulomb friction coefficient.
    pub friction: i64,
    /// Global solver passes per tick.
    pub iterations: usize,
    /// Baumgarte positional-bias factor, in `[0, 1]`.
    pub bias_factor: i64,
    /// Penetration depth forgiven before bias kicks in.
    pub slop: i64,
}

impl SolverConfig {
    /// The stock constants the simulation runs with.
    pub fn standard() -> (r: SolverConfig)
        ensures
            r.restitution == 500_000,
            r.friction == 600_000,
            r.iterations == 8,
            r.bias_factor == 300_000,
            r.slop == 1_000,
            r.gravity@ == (V3 { x: 0, y: -9_810_000, z: 0 }),
            config_ok(r),
    {
        SolverConfig {
            gravity: Vec3 { x: 0, y: -9_810_000, z: 0 },
            restitution: 500_000,
            friction: 600_000,
            iterations: 8,
            bias_factor: 300_000,
            slop: 1_000,
        }
    }
}

/// The ranges the solver relies on.
pub open spec fn config_ok(cfg: SolverConfig) -> bool {
    &&& bounded3(cfg.gravity@, POS_MAX as int)
    &&& 0 <= cfg.restitution <= SCALE
    &&& 0 <= cfg.friction <= 2 * SCALE
    &&& 0 <= cfg.bias_factor <= SCALE
    &&& 0 <= cfg.slop <= SCALE
}

/// The four velocity vectors the solver updates for one body pair.
pub struct VelPair {
    pub v1: V3,
    pub w1: V3,
    pub v2: V3,
    pub w2: V3,
}

/// Checked cross product.
pub open spec fn wxr(w: V3, r: V3) -> Option<V3> {
    if cross_fits(w, r) {
        Option::Some(crossv(w, r))
    } else {
        Option::None
    }
}

/// Checked componentwise sum within the velocity envelope.
pub open spec fn vel_add_fits(a: V3, b: V3) -> bool {
    abs_i(a.x + b.x) <= POS_MAX && abs_i(a.y + b.y) <= POS_MAX && abs_i(a.z + b.z) <= POS_MAX
}

pub open spec fn vel_sub_fits(a: V3, b: V3) -> bool {
    abs_i(a.x - b.x) <= POS_MAX && abs_i(a.y - b.y) <= POS_MAX && abs_i(a.z - b.z) <= POS_MAX
}

/// Relative velocity at the contact: `(v1 + w1 x r1) - (v2 + w2 x r2)`.
pub open spec fn vrel_s(s: VelPair, r1: V3, r2: V3) -> Option<V3> {
    match wxr(s.w1, r1) {
        Option::None => Option::None,
        Option::Some(a1) => match wxr(s.w2, r2) {
            Option::None => Option::None,
            Option::Some(a2) => {
                if !add3_fits(s.v1, a1) {
                    Option::None
                } else if !add3_fits(s.v2, a2) {
                    Option::None
                } else if !sub3_fits(addv(s.v1, a1), addv(s.v2, a2)) {
                    Option::None
                } else {
                    Option::Some(subv(addv(s.v1, a1), addv(s.v2, a2)))
                }
            },
        },
    }
}

/// The angular term of the effective inverse mass along `n` for one body:
/// `((I_inv * (r x n)) x r) . n`.
pub open spec fn ang_k(im: M3, r: V3, n: V3) -> Option<int> {
    match wxr(r, n) {
        Option::None => Option::None,
        Option::Some(rn) => {
            if !mvmul_fits(im, rn) {
                Option::None
            } else {
                match wxr(mvmul_s(im, rn), r) {
                    Option::None => Option::None,
                    Option::Some(dv) => {
                        if !in_range(dotv(dv, n)) {
                            Option::None
                        } else {
                            Option::Some(dotv(dv, n))
                        }
                    },
                }
            }
        },
    }
}

/// Apply an impulse vector to both bodies: `+impulse * invm` on the first,
/// `-impulse * invm` on the second, with the matching angular kicks.
pub open spec fn apply_pair(
    s: VelPair,
    imp: V3,
    invm1: int,
    invm2: int,
    im1: M3,
    im2: M3,
    r1: V3,
    r2: V3,
) -> Option<VelPair> {
    if !smul_fits(imp, invm1) || !smul_fits(imp, invm2) {
        Option::None
    } else {
        match wxr(r1, imp) {
            Option::None => Option::None,
            Option::Some(c1) => match wxr(r2, imp) {
                Option::None => Option::None,
                Option::Some(c2) => {
                    if !mvmul_fits(im1, c1) || !mvmul_fits(im2, c2) {
                        Option::None
                    } else {
                        let d1 = smulv(imp, invm1);
                        let d2 = smulv(imp, invm2);
                        let dw1 = mvmul_s(im1, c1);
                        let dw2 = mvmul_s(im2, c2);
                        if !vel_add_fits(s.v1, d1) || !vel_add_fits(s.w1, dw1) || !vel_sub_fits(
                            s.v2,
                            d2,
                        ) || !vel_sub_fits(s.w2, dw2) {
                            Option::None
                        } else {
                            Option::Some(
                                VelPair {
                                    v1: addv(s.v1, d1),
                                    w1: addv(s.w1, dw1),
                                    v2: subv(s.v2, d2),
                                    w2: subv(s.w2, dw2),
                                },
                            )
                        }
                    }
                },
            },
        }
    }
}

/// One normal-impulse solve: `None` means the contact contributes nothing
/// this pass (separating bodies, a vanishing effective mass, or a value
/// outside the fixed-point envelope); `Some` carries the new velocities and
/// the applied impulse magnitude, which bounds the friction impulse.
pub open spec fn normal_step(
    s: VelPair,
    n: V3,
    r1: V3,
    r2: V3,
    invm1: int,
    invm2: int,
    im1: M3,
    im2: M3,
    depth: int,
    dt: int,
    restitution: int,
    bias: int,
) -> Option<(VelPair, int)> {
    match vrel_s(s, r1, r2) {
        Option::None => Option::None,
        Option::Some(vrel) => {
            if !in_range(dotv(vrel, n)) {
                Option::None
            } else {
                let vn = dotv(vrel, n);
                if vn > 0 {
                    Option::None
                } else {
                    match ang_k(im1, r1, n) {
                        Option::None => Option::None,
                        Option::Some(k1) => match ang_k(im2, r2, n) {
                            Option::None => Option::None,
                            Option::Some(k2) => {
                                if !in_range(invm1 + invm2 + k1 + k2) {
                                    Option::None
                                } else {
                                    let k = invm1 + invm2 + k1 + k2;
                                    if abs_i(k) <= EPSILON {
                                        Option::None
                                    } else {
                                        let biased = fmul_s(fdiv_s(bias, dt), depth);
                                        if !in_range(fmul_s(vn, restitution)) || !in_range(
                                            fdiv_s(bias, dt),
                                        ) || !in_range(biased) || !in_range(
                                            -fmul_s(vn, restitution) + biased,
                                        ) {
                                            Option::None
                                        } else {
                                            let target = -fmul_s(vn, restitution) + biased;
                                            if !in_range(target - vn) || !in_range(
                                                fdiv_s(target - vn, k),
                                            ) {
                                                Option::None
                                            } else {
                                                let mag = max_i(fdiv_s(target - vn, k), 0);
                                                if !smul_fits(n, mag) {
                                                    Option::None
                                                } else {
                                                    match apply_pair(
                                                        s,
                                                        smulv(n, mag),
                                                        invm1,
                                                        invm2,
                                                        im1,
                                                        im2,
                                                        r1,
                                                        r2,
                                                    ) {
                                                        Option::None => Option::None,
                                                        Option::Some(s2) => Option::Some((s2, mag)),
                                                    }
                                                }
                                            }
                                        }
                                    }
                                }
                            },
                        },
                    }
                }
            }
        },
    }
}

/// One friction solve, bounded by the normal impulse `nmag`: `None` when
/// the tangential residual is degenerate or a value leaves the envelope.
pub open spec fn tangent_step(
    s: VelPair,
    n: V3,
    r1: V3,
    r2: V3,
    invm1: int,
    invm2: int,
    im1: M3,
    im2: M3,
    nmag: int,
    friction: int,
) -> Option<VelPair> {
    match vrel_s(s, r1, r2) {
        Option::None => Option::None,
        Option::Some(vrel) => {
            if !in_range(dotv(vrel, n)) {
                Option::None
            } else {
                let vn = dotv(vrel, n);
                if !smul_fits(n, vn) || !sub3_fits(vrel, smulv(n, vn)) {
                    Option::None
                } else {
                    let vt = subv(vrel, smulv(n, vn));
                    if !bounded3(vt, RAW_MAX as int / 2) {
                        Option::None
                    } else if magv(vt) <= EPSILON {
                        Option::None
                    } else {
                        let dir = normv(vt);
                        if !in_range(dotv(vrel, dir)) {
                            Option::None
                        } else {
                            let ve = dotv(vrel, dir);
                            match ang_k(im1, r1, dir) {
                                Option::None => Option::None,
                                Option::Some(k1) => match ang_k(im2, r2, dir) {
                                    Option::None => Option::None,
                                    Option::Some(k2) => {
                                        if !in_range(invm1 + invm2 + k1 + k2) {
                                            Option::None
                                        } else {
                                            let k = invm1 + invm2 + k1 + k2;
                                            if abs_i(k) <= EPSILON {
                                                Option::None
                                            } else {
                                                if !in_range(fdiv_s(0 - ve, k)) || !in_range(
                                                    fmul_s(friction, nmag),
                                                ) {
                                                    Option::None
                                                } else {
                                                    let mf = fmul_s(friction, nmag);
                                                    let mag = max_i(
                                                        min_i(fdiv_s(0 - ve, k), mf),
                                                        -mf,
                                                    );
                                                    if !smul_fits(dir, mag) {
                                                        Option::None
                                                    } else {
                                                        apply_pair(
                                                            s,
                                                            smulv(dir, mag),
                                                            invm1,
                                                            invm2,
                                                            im1,
                                                            im2,
                                                            r1,
                                                            r2,
                                                        )
                                                    }
                                                }
                                            }
                                        }
                                    },
                                },
                            }
                        }
                    }
                }
            }
        },
    }
}

/// One full contact solve: the normal impulse, then friction bounded by it.
/// A skipped step leaves the velocities of that step unchanged.
pub open spec fn contact_step(
    s: VelPair,
    n: V3,
    r1: V3,
    r2: V3,
    invm1: int,
    invm2: int,
    im1: M3,
    im2: M3,
    depth: int,
    dt: int,
    restitution: int,
    friction: int,
    bias: int,
) -> VelPair {
    match normal_step(s, n, r1, r2, invm1, invm2, im1, im2, depth, dt, restitution, bias) {
        Option::None => s,
        Option::Some((s1, nmag)) => {
            match tangent_step(s1, n, r1, r2, invm1, invm2, im1, im2, nmag, friction) {
                Option::None => s1,
                Option::Some(s2) => s2,
            }
        },
    }
}

/// Gather the velocity views of two bodies.
pub open spec fn vels(v1: Vec3, w1: Vec3, v2: Vec3, w2: Vec3) -> VelPair {
    VelPair { v1: v1@, w1: w1@, v2: v2@, w2: w2@ }
}

/// Checked sum within the velocity envelope.
pub(crate) fn add_vel_c(a: &Vec3, b: &Vec3) -> (r: Option<Vec3>)
    requires
        okv(a@),
        okv(b@),
    ensures
        vel_add_fits(a@, b@) ==> r is Some && r.unwrap()@ == addv(a@, b@),
        !vel_add_fits(a@, b@) ==> r is None,
{
    let x = a.x + b.x;
    let y = a.y + b.y;
    let z = a.z + b.z;
    if x > POS_MAX || x < -POS_MAX || y > POS_MAX || y < -POS_MAX || z > POS_MAX || z < -POS_MAX {
        None
    } else {
        Some(Vec3 { x, y, z })
    }
}

/// Checked difference within the velocity envelope.
fn sub_vel_c(a: &Vec3, b: &Vec3) -> (r: Option<Vec3>)
    requires
        okv(a@),
        okv(b@),
    ensures
        vel_sub_fits(a@, b@) ==> r is Some && r.unwrap()@ == subv(a@, b@),
        !vel_sub_fits(a@, b@) ==> r is None,
{
    let x = a.x - b.x;
    let y = a.y - b.y;
    let z = a.z - b.z;
    if x > POS_MAX || x < -POS_MAX || y > POS_MAX || y < -POS_MAX || z > POS_MAX || z < -POS_MAX {
        None
    } else {
        Some(Vec3 { x, y, z })
    }
}

/// Relative velocity at the contact, checked.
fn vrel_exec(v1: &Vec3, w1: &Vec3, v2: &Vec3, w2: &Vec3, r1: &Vec3, r2: &Vec3) -> (r: Option<Vec3>)
    requires
        okv(v1@),
        okv(w1@),
        okv(v2@),
        okv(w2@),
        okv(r1@),
        okv(r2@),
    ensures
        ({
            let s = vrel_s(vels(*v1, *w1, *v2, *w2), r1@, r2@);
            &&& (r is Some <==> s is Some)
            &&& (r is Some ==> r.unwrap()@ == s.unwrap() && okv(r.unwrap()@))
        }),
{
    let a1 = match w1.cross_c(r1) {
        Some(x) => x,
        None => {
            return None;
        },
    };
    let a2 = match w2.cross_c(r2) {
        Some(x) => x,
        None => {
            return None;
        },
    };
    let t1 = match v1.plus_c(&a1) {
        Some(x) => x,
        None => {
            return None;
        },
    };
    let t2 = match v2.plus_c(&a2) {
        Some(x) => x,
        None => {
            return None;
        },
    };
    t1.minus_c(&t2)
}

/// Angular term of the effective inverse mass, checked.
fn ang_k_exec(im: &Mat3, r: &Vec3, n: &Vec3) -> (res: Option<i64>)
    requires
        ok_m3(im@),
        okv(r@),
        okv(n@),
    ensures
        ({
            let s = ang_k(im@, r@, n@);
            &&& (res is Some <==> s is Some)
            &&& (res is Some ==> res.unwrap() == s.unwrap())
        }),
{
    let rn = match r.cross_c(n) {
        Some(x) => x,
        None => {
            return None;
        },
    };
    let dw = match im.mul_vec_c(&rn) {
        Some(x) => x,
        None => {
            return None;
        },
    };
    let dv = match dw.cross_c(r) {
        Some(x) => x,
        None => {
            return None;
        },
    };
    dv.dot_c(n)
}

/// Apply an impulse to both bodies, checked.
fn apply_exec(
    v1: &Vec3,
    w1: &Vec3,
    v2: &Vec3,
    w2: &Vec3,
    imp: &Vec3,
    invm1: i64,
    invm2: i64,
    im1: &Mat3,
    im2: &Mat3,
    r1: &Vec3,
    r2: &Vec3,
) -> (res: Option<(Vec3, Vec3, Vec3, Vec3)>)
    requires
        okv(v1@),
        okv(w1@),
        okv(v2@),
        okv(w2@),
        okv(imp@),
        okv(r1@),
        okv(r2@),
        in_range(invm1 as int),
        in_range(invm2 as int),
        ok_m3(im1@),
        ok_m3(im2@),
    ensures
        ({
            let s = apply_pair(
                vels(*v1, *w1, *v2, *w2),
                imp@,
                invm1 as int,
                invm2 as int,
                im1@,
                im2@,
                r1@,
                r2@,
            );
            &&& (res is Some <==> s is Some)
            &&& (res is Some ==> ({
                let t = res.unwrap();
                s.unwrap() == (VelPair { v1: t.0@, w1: t.1@, v2: t.2@, w2: t.3@ })
            }))
        }),
{
    let d1 = match imp.scaled_c(invm1) {
        Some(x) => x,
        None => {
            return None;
        },
    };
    let d2 = match imp.scaled_c(invm2) {
        Some(x) => x,
        None => {
            return None;
        },
    };
    let c1 = match r1.cross_c(imp) {
        Some(x) => x,
        None => {
            return None;
        },
    };
    let c2 = match r2.cross_c(imp) {
        Some(x) => x,
        None => {
            return None;
        },
    };
    let dw1 = match im1.mul_vec_c(&c1) {
        Some(x) => x,
        None => {
            return None;
        },
    };
    let dw2 = match im2.mul_vec_c(&c2) {
        Some(x) => x,
        None => {
            return None;
        },
    };
    let nv1 = match add_vel_c(v1, &d1) {
        Some(x) => x,
        None => {
            return None;
        },
    };
    let nw1 = match add_vel_c(w1, &dw1) {
        Some(x) => x,
        None => {
            return None;
        },
    };
    let nv2 = match sub_vel_c(v2, &d2) {
        Some(x) => x,
        None => {
            return None;
        },
    };
    let nw2 = match sub_vel_c(w2, &dw2) {
        Some(x) => x,
        None => {
            return None;
        },
    };
    Some((nv1, nw1, nv2, nw2))
}

/// Solve the normal impulse for one contact point, checked.
fn normal_exec(
    v1: &Vec3,
    w1: &Vec3,
    v2: &Vec3,
    w2: &Vec3,
    n: &Vec3,
    r1: &Vec3,
    r2: &Vec3,
    invm1: i64,
    invm2: i64,
    im1: &Mat3,
    im2: &Mat3,
    depth: i64,
    dt: i64,
    restitution: i64,
    bias: i64,
) -> (res: Option<(Vec3, Vec3, Vec3, Vec3, i64)>)
    requires
        okv(v1@),
        okv(w1@),
        okv(v2@),
        okv(w2@),
        okv(n@),
        okv(r1@),
        okv(r2@),
        in_range(invm1 as int),
        in_range(invm2 as int),
        ok_m3(im1@),
        ok_m3(im2@),
        1 <= dt,
    ensures
        ({
            let s = normal_step(
                vels(*v1, *w1, *v2, *w2),
                n@,
                r1@,
                r2@,
                invm1 as int,
                invm2 as int,
                im1@,
                im2@,
                depth as int,
                dt as int,
                restitution as int,
                bias as int,
            );
            &&& (res is Some <==> s is Some)
            &&& (res is Some ==> ({
                let t = res.unwrap();
                s.unwrap() == ((VelPair { v1: t.0@, w1: t.1@, v2: t.2@, w2: t.3@ }), t.4 as int)
                    && t.4 >= 0
            }))
        }),
{
    let vrel = match vrel_exec(v1, w1, v2, w2, r1, r2) {
        Some(x) => x,
        None => {
            return None;
        },
    };
    let vn = match vrel.dot_c(n) {
        Some(x) => x,
        None => {
            return None;
        },
    };
    if vn > 0 {
        return None;
    }
    let k1 = match ang_k_exec(im1, r1, n) {
        Some(x) => x,
        None => {
            return None;
        },
    };
    let k2 = match ang_k_exec(im2, r2, n) {
        Some(x) => x,
        None => {
            return None;
        },
    };
    let kw: i128 = invm1 as i128 + invm2 as i128 + k1 as i128 + k2 as i128;
    if kw > RAW_MAX as i128 || kw < -(RAW_MAX as i128) {
        return None;
    }
    let k = kw as i64;
    if crate::math::EpsilonEquals::epsilon_equals(k, 0) {
        return None;
    }
    let vnr = match crate::fixed::fmul_c(vn, restitution) {
        Some(x) => x,
        None => {
            return None;
        },
    };
    let bod = match crate::fixed::fdiv_c(bias, dt) {
        Some(x) => x,
        None => {
            return None;
        },
    };
    let biased = match crate::fixed::fmul_c(bod, depth) {
        Some(x) => x,
        None => {
            return None;
        },
    };
    let tw: i128 = -(vnr as i128) + biased as i128;
    if tw > RAW_MAX as i128 || tw < -(RAW_MAX as i128) {
        return None;
    }
    let target = tw as i64;
    let dw: i128 = target as i128 - vn as i128;
    if dw > RAW_MAX as i128 || dw < -(RAW_MAX as i128) {
        return None;
    }
    let mag0 = match crate::fixed::fdiv_c(dw as i64, k) {
        Some(x) => x,
        None => {
            return None;
        },
    };
    let mag = if mag0 < 0 {
        0
    } else {
        mag0
    };
    let imp = match n.scaled_c(mag) {
        Some(x) => x,
        None => {
            return None;
        },
    };
    match apply_exec(v1, w1, v2, w2, &imp, invm1, invm2, im1, im2, r1, r2) {
        Some(t) => Some((t.0, t.1, t.2, t.3, mag)),
        None => None,
    }
}

/// Solve the friction impulse for one contact point, checked.
fn tangent_exec(
    v1: &Vec3,
    w1: &Vec3,
    v2: &Vec3,
    w2: &Vec3,
    n: &Vec3,
    r1: &Vec3,
    r2: &Vec3,
    invm1: i64,
    invm2: i64,
    im1: &Mat3,
    im2: &Mat3,
    nmag: i64,
    friction: i64,
) -> (res: Option<(Vec3, Vec3, Vec3, Vec3)>)
    requires
        okv(v1@),
        okv(w1@),
        okv(v2@),
        okv(w2@),
        okv(n@),
        okv(r1@),
        okv(r2@),
        in_range(invm1 as int),
        in_range(invm2 as int),
        ok_m3(im1@),
        ok_m3(im2@),
        0 <= nmag,
        0 <= friction,
    ensures
        ({
            let s = tangent_step(
                vels(*v1, *w1, *v2, *w2),
                n@,
                r1@,
                r2@,
                invm1 as int,
                invm2 as int,
                im1@,
                im2@,
                nmag as int,
                friction as int,
            );
            &&& (res is Some <==> s is Some)
            &&& (res is Some ==> ({
                let t = res.unwrap();
                s.unwrap() == (VelPair { v1: t.0@, w1: t.1@, v2: t.2@, w2: t.3@ })
            }))
        }),
{
    let vrel = match vrel_exec(v1, w1, v2, w2, r1, r2) {
        Some(x) => x,
        None => {
            return None;
        },
    };
    let vn = match vrel.dot_c(n) {
        Some(x) => x,
        None => {
            return None;
        },
    };
    let nvn = match n.scaled_c(vn) {
        Some(x) => x,
        None => {
            return None;
        },
    };
    let vt = match vrel.minus_c(&nvn) {
        Some(x) => x,
        None => {
            return None;
        },
    };
    if vt.x > RAW_MAX / 2 || vt.x < -(RAW_MAX / 2) || vt.y > RAW_MAX / 2 || vt.y < -(RAW_MAX / 2)
        || vt.z > RAW_MAX / 2 || vt.z < -(RAW_MAX / 2) {
        return None;
    }
    let dir = match vt.normalize() {
        Some(x) => x,
        None => {
            return None;
        },
    };
    let ve = match vrel.dot_c(&dir) {
        Some(x) => x,
        None => {
            return None;
        },
    };
    let k1 = match ang_k_exec(im1, r1, &dir) {
        Some(x) => x,
        None => {
            return None;
        },
    };
    let k2 = match ang_k_exec(im2, r2, &dir) {
        Some(x) => x,
        None => {
            return None;
        },
    };
    let kw: i128 = invm1 as i128 + invm2 as i128 + k1 as i128 + k2 as i128;
    if kw > RAW_MAX as i128 || kw < -(RAW_MAX as i128) {
        return None;
    }
    let k = kw as i64;
    if crate::math::EpsilonEquals::epsilon_equals(k, 0) {
        return None;
    }
    let mag0 = match crate::fixed::fdiv_c(-ve, k) {
        Some(x) => x,
        None => {
            return None;
        },
    };
    let mf = match crate::fixed::fmul_c(friction, nmag) {
        Some(x) => x,
        None => {
            return None;
        },
    };
    proof {
        crate::fixed::lemma_fmul_nonneg(friction as int, nmag as int);
    }
    let mag = if mag0 > mf {
        mf
    } else if mag0 < -mf {
        -mf
    } else {
        mag0
    };
    let imp = match dir.scaled_c(mag) {
        Some(x) => x,
        None => {
            return None;
        },
    };
    apply_exec(v1, w1, v2, w2, &imp, invm1, invm2, im1, im2, r1, r2)
}

/// Solve one contact point completely: normal impulse, then friction
/// bounded by it; a step outside the envelope leaves the velocities of
/// that step unchanged.
fn solve_contact(
    v1: Vec3,
    w1: Vec3,
    v2: Vec3,
    w2: Vec3,
    n: &Vec3,
    r1: &Vec3,
    r2: &Vec3,
    invm1: i64,
    invm2: i64,
    im1: &Mat3,
    im2: &Mat3,
    depth: i64,
    dt: i64,
    restitution: i64,
    friction: i64,
    bias: i64,
) -> (res: (Vec3, Vec3, Vec3, Vec3))
    requires
        bounded3(v1@, POS_MAX as int),
        bounded3(w1@, POS_MAX as int),
        bounded3(v2@, POS_MAX as int),
        bounded3(w2@, POS_MAX as int),
        okv(n@),
        okv(r1@),
        okv(r2@),
        in_range(invm1 as int),
        in_range(invm2 as int),
        ok_m3(im1@),
        ok_m3(im2@),
        1 <= dt,
        0 <= friction,
    ensures
        ({
            let out = contact_step(
                vels(v1, w1, v2, w2),
                n@,
                r1@,
                r2@,
                invm1 as int,
                invm2 as int,
                im1@,
                im2@,
                depth as int,
                dt as int,
                restitution as int,
                friction as int,
                bias as int,
            );
            out == (VelPair { v1: res.0@, w1: res.1@, v2: res.2@, w2: res.3@ })
        }),
        bounded3(res.0@, POS_MAX as int),
        bounded3(res.1@, POS_MAX as int),
        bounded3(res.2@, POS_MAX as int),
        bounded3(res.3@, POS_MAX as int),
{
    let first = normal_exec(
        &v1,
        &w1,
        &v2,
        &w2,
        n,
        r1,
        r2,
        invm1,
        invm2,
        im1,
        im2,
        depth,
        dt,
        restitution,
        bias,
    );
    match first {
        None => (v1, w1, v2, w2),
        Some((nv1, nw1, nv2, nw2, nmag)) => {
            match tangent_exec(
                &nv1,
                &nw1,
                &nv2,
                &nw2,
                n,
                r1,
                r2,
                invm1,
                invm2,
                im1,
                im2,
                nmag,
                friction,
            ) {
                None => (nv1, nw1, nv2, nw2),
                Some((tv1, tw1, tv2, tw2)) => (tv1, tw1, tv2, tw2),
            }
        },
    }
}

/// The zero matrix model.
pub open spec fn zero_m3(m: M3) -> bool {
    m.a.len() == 9 && forall|k: int| 0 <= k < 9 ==> m.a[k] == 0
}

proof fn lemma_fmul_zero(x: int)
    ensures
        fmul_s(x, 0) == 0,
        fmul_s(0, x) == 0,
{
    assert(x * 0 == 0 && 0 * x == 0) by (nonlinear_arith);
}

proof fn lemma_fdiv_zero(b: int)
    ensures
        fdiv_s(0, b) == 0,
{
    assert(0 * (SCALE as int) == 0) by (nonlinear_arith);
}

proof fn lemma_dotv_zero(n: V3)
    ensures
        dotv(zerov(), n) == 0,
        dotv(n, zerov()) == 0,
{
    assert(0 * n.x == 0 && 0 * n.y == 0 && 0 * n.z == 0 && n.x * 0 == 0 && n.y * 0 == 0 && n.z * 0
        == 0) by (nonlinear_arith);
}

proof fn lemma_crossv_zero(a: V3)
    ensures
        crossv(zerov(), a) == zerov(),
        crossv(a, zerov()) == zerov(),
        cross_fits(zerov(), a),
        cross_fits(a, zerov()),
{
    assert forall|x: int| true implies #[trigger] fmul_s(x, 0) == 0 && fmul_s(0, x) == 0 by {
        lemma_fmul_zero(x);
    }
}

proof fn lemma_smulv_zero(a: V3, s: int)
    ensures
        smulv(a, 0) == zerov(),
        smulv(zerov(), s) == zerov(),
        smul_fits(a, 0),
        smul_fits(zerov(), s),
{
    assert forall|x: int| true implies #[trigger] fmul_s(x, 0) == 0 && fmul_s(0, x) == 0 by {
        lemma_fmul_zero(x);
    }
}

proof fn lemma_mvmul_zero_vec(m: M3)
    ensures
        mvmul_s(m, zerov()) == zerov(),
        mvmul_fits(m, zerov()),
{
    assert forall|x: int| true implies #[trigger] (x * 0) == 0 by {
        assert(x * 0 == 0) by (nonlinear_arith);
    }
}

proof fn lemma_mvmul_zero_mat(m: M3, v: V3)
    requires
        zero_m3(m),
    ensures
        mvmul_s(m, v) == zerov(),
        mvmul_fits(m, v),
{
    assert forall|x: int| true implies #[trigger] (0 * x) == 0 by {
        assert(0 * x == 0) by (nonlinear_arith);
    }
    assert(m.a[0] == 0 && m.a[1] == 0 && m.a[2] == 0 && m.a[3] == 0 && m.a[4] == 0 && m.a[5] == 0
        && m.a[6] == 0 && m.a[7] == 0 && m.a[8] == 0);
}

/// A contact with zero relative velocity and no forgiven penetration
/// receives no impulse at all: neither a normal impulse (the target
/// velocity is zero and so is the bias) nor friction (the tangential
/// residual is zero), so the velocities come out exactly as they went in.
pub proof fn lemma_contact_step_still(
    s: VelPair,
    n: V3,
    r1: V3,
    r2: V3,
    invm1: int,
    invm2: int,
    im1: M3,
    im2: M3,
    dt: int,
    restitution: int,
    friction: int,
    bias: int,
)
    requires
        vrel_s(s, r1, r2) == Option::Some(zerov()),
        bounded3(s.v1, POS_MAX as int),
        bounded3(s.w1, POS_MAX as int),
        bounded3(s.v2, POS_MAX as int),
        bounded3(s.w2, POS_MAX as int),
    ensures
        contact_step(s, n, r1, r2, invm1, invm2, im1, im2, 0, dt, restitution, friction, bias)
            == s,
{
    lemma_dotv_zero(n);
    match normal_step(s, n, r1, r2, invm1, invm2, im1, im2, 0, dt, restitution, bias) {
        Option::None => {
        },
        Option::Some((s1, nmag)) => {
            let k = invm1 + invm2 + ang_k(im1, r1, n).unwrap() + ang_k(im2, r2, n).unwrap();
            lemma_fmul_zero(fdiv_s(bias, dt));
            lemma_fmul_zero(restitution);
            lemma_fdiv_zero(k);
            assert(max_i(fdiv_s(0, k), 0) == 0);
            lemma_smulv_zero(n, invm1);
            lemma_smulv_zero(zerov(), invm1);
            lemma_smulv_zero(zerov(), invm2);
            lemma_crossv_zero(r1);
            lemma_crossv_zero(r2);
            lemma_mvmul_zero_vec(im1);
            lemma_mvmul_zero_vec(im2);
            assert(apply_pair(s, smulv(n, 0), invm1, invm2, im1, im2, r1, r2) == Option::Some(
                VelPair { v1: s.v1, w1: s.w1, v2: s.v2, w2: s.w2 },
            ));
            assert(s1 == s && nmag == 0);
            // Friction sees a zero tangential residual and skips.
            lemma_smulv_zero(n, 0);
            assert(subv(zerov(), smulv(n, 0)) == zerov());
            crate::fixed::lemma_sqrt_s(0);
            assert(magv(zerov()) == 0);
            assert(tangent_step(s1, n, r1, r2, invm1, invm2, im1, im2, nmag, friction) is None);
        },
    }
}

/// A body at rest with no forgiven penetration receives no impulse: the
/// solver is a no-op fixed point on resting, separated states.
pub proof fn lemma_contact_step_rest(
    n: V3,
    r1: V3,
    r2: V3,
    invm1: int,
    invm2: int,
    im1: M3,
    im2: M3,
    dt: int,
    restitution: int,
    friction: int,
    bias: int,
)
    ensures
        ({
            let s0 = VelPair { v1: zerov(), w1: zerov(), v2: zerov(), w2: zerov() };
            contact_step(
                s0,
                n,
                r1,
                r2,
                invm1,
                invm2,
                im1,
                im2,
                0,
                dt,
                restitution,
                friction,
                bias,
            ) == s0
        }),
{
    let s0 = VelPair { v1: zerov(), w1: zerov(), v2: zerov(), w2: zerov() };
    lemma_crossv_zero(r1);
    lemma_crossv_zero(r2);
    assert(vrel_s(s0, r1, r2) == Option::Some(zerov()));
    lemma_contact_step_still(
        s0,
        n,
        r1,
        r2,
        invm1,
        invm2,
        im1,
        im2,
        dt,
        restitution,
        friction,
        bias,
    );
}

/// A frozen first body (zero inverse mass and inertia) is never moved by a
/// contact solve.
pub proof fn lemma_contact_step_frozen1(
    s: VelPair,
    n: V3,
    r1: V3,
    r2: V3,
    invm2: int,
    im1: M3,
    im2: M3,
    depth: int,
    dt: int,
    restitution: int,
    friction: int,
    bias: int,
)
    requires
        zero_m3(im1),
    ensures
        ({
            let o = contact_step(
                s,
                n,
                r1,
                r2,
                0,
                invm2,
                im1,
                im2,
                depth,
                dt,
                restitution,
                friction,
                bias,
            );
            o.v1 == s.v1 && o.w1 == s.w1
        }),
{
    assert forall|ss: VelPair, imp: V3|
        #[trigger] apply_pair(ss, imp, 0, invm2, im1, im2, r1, r2) is Some implies apply_pair(
        ss,
        imp,
        0,
        invm2,
        im1,
        im2,
        r1,
        r2,
    ).unwrap().v1 == ss.v1 && apply_pair(ss, imp, 0, invm2, im1, im2, r1, r2).unwrap().w1
        == ss.w1 by {
        lemma_smulv_zero(imp, 0);
        lemma_mvmul_zero_mat(im1, crossv(r1, imp));
    }
}

/// A frozen second body is never moved by a contact solve.
pub proof fn lemma_contact_step_frozen2(
    s: VelPair,
    n: V3,
    r1: V3,
    r2: V3,
    invm1: int,
    im1: M3,
    im2: M3,
    depth: int,
    dt: int,
    restitution: int,
    friction: int,
    bias: int,
)
    requires
        zero_m3(im2),
    ensures
        ({
            let o = contact_step(
                s,
                n,
                r1,
                r2,
                invm1,
                0,
                im1,
                im2,
                depth,
                dt,
                restitution,
                friction,
                bias,
            );
            o.v2 == s.v2 && o.w2 == s.w2
        }),
{
    assert forall|ss: VelPair, imp: V3|
        #[trigger] apply_pair(ss, imp, invm1, 0, im1, im2, r1, r2) is Some implies apply_pair(
        ss,
        imp,
        invm1,
        0,
        im1,
        im2,
        r1,
        r2,
    ).unwrap().v2 == ss.v2 && apply_pair(ss, imp, invm1, 0, im1, im2, r1, r2).unwrap().w2
        == ss.w2 by {
        lemma_smulv_zero(imp, 0);
        lemma_mvmul_zero_mat(im2, crossv(r2, imp));
    }
}

/// A vector view materialized back into stored components (meaningful when
/// every component is representable).
pub open spec fn v2vec(v: V3) -> Vec3 {
    Vec3 { x: v.x as i64, y: v.y as i64, z: v.z as i64 }
}

/// The effect of solving contact point `p` of one collision on the body
/// list: both bodies get the velocities `contact_step` assigns, keyed by
/// the lower index as the first body. A contact whose offsets leave the
/// representable range is skipped.
pub open spec fn solve_point_s(
    bodies: Seq<Cuboid>,
    info: CollisionInfo,
    p: int,
    dt: int,
    cfg: SolverConfig,
    n: V3,
) -> Seq<Cuboid> {
    let ai = (if info.instance_index < info.other_index {
        info.instance_index
    } else {
        info.other_index
    }) as int;
    let bi = (if info.instance_index < info.other_index {
        info.other_index
    } else {
        info.instance_index
    }) as int;
    let a = bodies[ai];
    let b = bodies[bi];
    let pt = info.manifold[p].point@;
    let dep = info.manifold[p].depth as int;
    let dd = if dep > cfg.slop {
        dep - cfg.slop
    } else {
        0
    };
    if !(sub3_fits(pt, a.position@) && sub3_fits(pt, b.position@)) {
        bodies
    } else {
        let out = contact_step(
            VelPair {
                v1: a.velocity@,
                w1: a.angular_velocity@,
                v2: b.velocity@,
                w2: b.angular_velocity@,
            },
            n,
            subv(pt, a.position@),
            subv(pt, b.position@),
            crate::world::inv_mass_s(a),
            crate::world::inv_mass_s(b),
            crate::world::inv_inertia_s(a),
            crate::world::inv_inertia_s(b),
            dd,
            dt,
            cfg.restitution as int,
            cfg.friction as int,
            cfg.bias_factor as int,
        );
        bodies.update(
            ai,
            Cuboid { velocity: v2vec(out.v1), angular_velocity: v2vec(out.w1), ..a },
        ).update(bi, Cuboid { velocity: v2vec(out.v2), angular_velocity: v2vec(out.w2), ..b })
    }
}

/// Solve the contact points of one collision from `p` on, in order.
pub open spec fn solve_points_s(
    bodies: Seq<Cuboid>,
    info: CollisionInfo,
    p: int,
    dt: int,
    cfg: SolverConfig,
    n: V3,
) -> Seq<Cuboid>
    decreases info.manifold@.len() - p,
{
    if p < 0 || p >= info.manifold@.len() {
        bodies
    } else {
        solve_points_s(solve_point_s(bodies, info, p, dt, cfg, n), info, p + 1, dt, cfg, n)
    }
}

/// The effect of one collision: its points solved in order against the
/// normalized MTV; a degenerate MTV skips the collision.
pub open spec fn solve_collision_s(
    bodies: Seq<Cuboid>,
    info: CollisionInfo,
    dt: int,
    cfg: SolverConfig,
) -> Seq<Cuboid> {
    if magv(info.mtv@) <= crate::fixed::EPSILON {
        bodies
    } else {
        solve_points_s(bodies, info, 0, dt, cfg, normv(info.mtv@))
    }
}

/// The effect of one pass: every collision solved once, in list order.
pub open spec fn solve_list_s(
    bodies: Seq<Cuboid>,
    cs: Seq<CollisionInfo>,
    c: int,
    dt: int,
    cfg: SolverConfig,
) -> Seq<Cuboid>
    decreases cs.len() - c,
{
    if c < 0 || c >= cs.len() {
        bodies
    } else {
        solve_list_s(solve_collision_s(bodies, cs[c], dt, cfg), cs, c + 1, dt, cfg)
    }
}

/// The effect of `k` global passes over the collision list.
pub open spec fn solve_passes_s(
    bodies: Seq<Cuboid>,
    cs: Seq<CollisionInfo>,
    k: int,
    dt: int,
    cfg: SolverConfig,
) -> Seq<Cuboid>
    decreases k,
{
    if k <= 0 {
        bodies
    } else {
        solve_list_s(solve_passes_s(bodies, cs, k - 1, dt, cfg), cs, 0, dt, cfg)
    }
}

/// One contact solve changes nothing but the two named bodies, and keeps
/// the list's length.
proof fn lemma_point_frame(
    bodies: Seq<Cuboid>,
    info: CollisionInfo,
    p: int,
    dt: int,
    cfg: SolverConfig,
    n: V3,
    j: int,
)
    requires
        info.instance_index < bodies.len(),
        info.other_index < bodies.len(),
        0 <= j < bodies.len(),
        j != info.instance_index,
        j != info.other_index,
    ensures
        solve_point_s(bodies, info, p, dt, cfg, n).len() == bodies.len(),
        solve_point_s(bodies, info, p, dt, cfg, n)[j] == bodies[j],
{
}

proof fn lemma_points_frame(
    bodies: Seq<Cuboid>,
    info: CollisionInfo,
    p: int,
    dt: int,
    cfg: SolverConfig,
    n: V3,
    j: int,
)
    requires
        info.instance_index < bodies.len(),
        info.other_index < bodies.len(),
        0 <= j < bodies.len(),
        j != info.instance_index,
        j != info.other_index,
    ensures
        solve_points_s(bodies, info, p, dt, cfg, n).len() == bodies.len(),
        solve_points_s(bodies, info, p, dt, cfg, n)[j] == bodies[j],
    decreases info.manifold@.len() - p,
{
    if 0 <= p < info.manifold@.len() {
        lemma_point_frame(bodies, info, p, dt, cfg, n, j);
        lemma_points_frame(solve_point_s(bodies, info, p, dt, cfg, n), info, p + 1, dt, cfg, n, j);
    }
}

proof fn lemma_collision_frame(
    bodies: Seq<Cuboid>,
    info: CollisionInfo,
    dt: int,
    cfg: SolverConfig,
    j: int,
)
    requires
        info.instance_index < bodies.len(),
        info.other_index < bodies.len(),
        0 <= j < bodies.len(),
        j != info.instance_index,
        j != info.other_index,
    ensures
        solve_collision_s(bodies, info, dt, cfg).len() == bodies.len(),
        solve_collision_s(bodies, info, dt, cfg)[j] == bodies[j],
{
    if !(magv(info.mtv@) <= crate::fixed::EPSILON) {
        lemma_points_frame(bodies, info, 0, dt, cfg, normv(info.mtv@), j);
    }
}

/// Whether any collision in the list names body `j`.
pub open spec fn names_body(cs: Seq<CollisionInfo>, j: int) -> bool {
    exists|c: int|
        0 <= c < cs.len() && ((#[trigger] cs[c]).instance_index == j || cs[c].other_index == j)
}

proof fn lemma_list_frame(bodies: Seq<Cuboid>, cs: Seq<CollisionInfo>, c: int, dt: int, cfg: SolverConfig, j: int)
    requires
        forall|k: int|
            0 <= k < cs.len() ==> (#[trigger] cs[k]).instance_index < bodies.len()
                && cs[k].other_index < bodies.len(),
        0 <= j < bodies.len(),
        !names_body(cs, j),
    ensures
        solve_list_s(bodies, cs, c, dt, cfg).len() == bodies.len(),
        solve_list_s(bodies, cs, c, dt, cfg)[j] == bodies[j],
    decreases cs.len() - c,
{
    if 0 <= c < cs.len() {
        lemma_collision_frame(bodies, cs[c], dt, cfg, j);
        lemma_list_frame(solve_collision_s(bodies, cs[c], dt, cfg), cs, c + 1, dt, cfg, j);
    }
}

/// The solver leaves every body untouched that no collision in the list
/// names: an uncollided body keeps exactly its incoming velocities.
pub proof fn lemma_solver_skips_unnamed(
    bodies: Seq<Cuboid>,
    cs: Seq<CollisionInfo>,
    k: int,
    dt: int,
    cfg: SolverConfig,
    j: int,
)
    requires
        forall|c: int|
            0 <= c < cs.len() ==> (#[trigger] cs[c]).instance_index < bodies.len()
                && cs[c].other_index < bodies.len(),
        0 <= j < bodies.len(),
        !names_body(cs, j),
    ensures
        solve_passes_s(bodies, cs, k, dt, cfg).len() == bodies.len(),
        solve_passes_s(bodies, cs, k, dt, cfg)[j] == bodies[j],
    decreases k,
{
    if k > 0 {
        lemma_solver_skips_unnamed(bodies, cs, k - 1, dt, cfg, j);
        lemma_list_frame(solve_passes_s(bodies, cs, k - 1, dt, cfg), cs, 0, dt, cfg, j);
    }
}

/// A collision record the solver can act on: distinct in-bounds body
/// indices, a representable MTV, and representable contact points with
/// non-negative depths.
pub open spec fn wf_collision(ci: CollisionInfo, n: int) -> bool {
    &&& ci.instance_index < n
    &&& ci.other_index < n
    &&& ci.instance_index != ci.other_index
    &&& bounded3(ci.mtv@, RAW_MAX as int / 2)
    &&& forall|p: int|
        0 <= p < ci.manifold@.len() ==> okv((#[trigger] ci.manifold@[p]).point@) && 0
            <= ci.manifold@[p].depth
}

/// `b` differs from `a` at most in its velocities.
pub open spec fn same_but_velocity(a: Cuboid, b: Cuboid) -> bool {
    b == (Cuboid { velocity: b.velocity, angular_velocity: b.angular_velocity, ..a })
}

/// Every body is at rest.
pub open spec fn all_resting(s: Seq<Cuboid>) -> bool {
    forall|j: int|
        0 <= j < s.len() ==> (#[trigger] s[j]).velocity@ == zerov() && s[j].angular_velocity@
            == zerov()
}

/// Every contact of the collision is within the penetration tolerance.
pub open spec fn shallow_info(ci: CollisionInfo, slop: int) -> bool {
    forall|p: int| 0 <= p < ci.manifold@.len() ==> (#[trigger] ci.manifold@[p]).depth <= slop
}

pub open spec fn all_shallow(cs: Seq<CollisionInfo>, slop: int) -> bool {
    forall|k: int| 0 <= k < cs.len() ==> shallow_info(#[trigger] cs[k], slop)
}

/// Solve every contact point of one collision once, in order. Frozen
/// bodies are never moved; a fully resting, in-tolerance collision changes
/// nothing.
#[verifier::rlimit(100)]
fn solve_collision(instances: &mut Vec<Cuboid>, info: &CollisionInfo, dt: i64, cfg: &SolverConfig)
    requires
        wf_collision(*info, old(instances)@.len() as int),
        forall|j: int|
            0 <= j < old(instances)@.len() ==> body_args_ok(#[trigger] old(instances)@[j]),
        1 <= dt <= SCALE,
        config_ok(*cfg),
    ensures
        final(instances)@.len() == old(instances)@.len(),
        forall|j: int|
            0 <= j < old(instances)@.len() ==> same_but_velocity(
                old(instances)@[j],
                #[trigger] final(instances)@[j],
            ),
        forall|j: int|
            0 <= j < old(instances)@.len() ==> body_args_ok(#[trigger] final(instances)@[j]),
        forall|j: int|
            0 <= j < old(instances)@.len() && old(instances)@[j].frozen
                ==> (#[trigger] final(instances)@[j]) == old(instances)@[j],
        all_resting(old(instances)@) && shallow_info(*info, cfg.slop as int) ==> final(instances)@
            == old(instances)@,
        final(instances)@ == solve_collision_s(old(instances)@, *info, dt as int, *cfg),
{
    let ii = info.instance_index;
    let oi = info.other_index;
    let a_idx = if ii < oi {
        ii
    } else {
        oi
    };
    let b_idx = if ii < oi {
        oi
    } else {
        ii
    };
    let abody = instances[a_idx];
    let bbody = instances[b_idx];
    let normal = match info.mtv.normalize() {
        Some(u) => u,
        None => {
            return;
        },
    };
    let invm1 = abody.get_inverse_mass();
    let invm2 = bbody.get_inverse_mass();
    let im1 = abody.get_inverse_moment_of_inertia();
    let im2 = bbody.get_inverse_moment_of_inertia();
    let n_pts = info.manifold.len();
    let mut p: usize = 0;
    while p < n_pts
        invariant
            wf_collision(*info, old(instances)@.len() as int),
            n_pts == info.manifold@.len(),
            0 <= p <= n_pts,
            1 <= dt <= SCALE,
            config_ok(*cfg),
            a_idx < old(instances)@.len(),
            b_idx < old(instances)@.len(),
            a_idx != b_idx,
            instances@.len() == old(instances)@.len(),
            forall|j: int|
                0 <= j < old(instances)@.len() ==> same_but_velocity(
                    old(instances)@[j],
                    #[trigger] instances@[j],
                ),
            forall|j: int|
                0 <= j < old(instances)@.len() ==> body_args_ok(#[trigger] instances@[j]),
            forall|j: int|
                0 <= j < old(instances)@.len() && old(instances)@[j].frozen
                    ==> #[trigger] instances@[j] == old(instances)@[j],
            all_resting(old(instances)@) && shallow_info(*info, cfg.slop as int) ==> instances@
                == old(instances)@,
            okv(normal@),
            bounded3(normal@, SCALE as int),
            normal@ == normv(info.mtv@),
            magv(info.mtv@) > crate::fixed::EPSILON,
            a_idx == if ii < oi {
                ii
            } else {
                oi
            },
            b_idx == if ii < oi {
                oi
            } else {
                ii
            },
            ii == info.instance_index,
            oi == info.other_index,
            solve_points_s(instances@, *info, p as int, dt as int, *cfg, normal@)
                == solve_points_s(old(instances)@, *info, 0, dt as int, *cfg, normal@),
            invm1 as int == crate::world::inv_mass_s(instances@[a_idx as int]),
            invm2 as int == crate::world::inv_mass_s(instances@[b_idx as int]),
            0 <= invm1 <= 1_000_000_000_000,
            0 <= invm2 <= 1_000_000_000_000,
            im1@ == crate::world::inv_inertia_s(instances@[a_idx as int]),
            im2@ == crate::world::inv_inertia_s(instances@[b_idx as int]),
            ok_m3(im1@),
            ok_m3(im2@),
            instances@[a_idx as int].frozen ==> invm1 == 0 && zero_m3(im1@),
            instances@[b_idx as int].frozen ==> invm2 == 0 && zero_m3(im2@),
        decreases n_pts - p,
    {
        let pt = info.manifold[p].point;
        let dep = info.manifold[p].depth;
        let dd = if dep > cfg.slop {
            dep - cfg.slop
        } else {
            0
        };
        let a = instances[a_idx];
        let b = instances[b_idx];
        let r1o = pt.minus_c(&a.position);
        let r2o = pt.minus_c(&b.position);
        if let (Some(r1), Some(r2)) = (r1o, r2o) {
            let (nv1, nw1, nv2, nw2) = solve_contact(
                a.velocity,
                a.angular_velocity,
                b.velocity,
                b.angular_velocity,
                &normal,
                &r1,
                &r2,
                invm1,
                invm2,
                &im1,
                &im2,
                dd,
                dt,
                cfg.restitution,
                cfg.friction,
                cfg.bias_factor,
            );
            proof {
                if a.frozen {
                    lemma_contact_step_frozen1(
                        vels(a.velocity, a.angular_velocity, b.velocity, b.angular_velocity),
                        normal@,
                        r1@,
                        r2@,
                        invm2 as int,
                        im1@,
                        im2@,
                        dd as int,
                        dt as int,
                        cfg.restitution as int,
                        cfg.friction as int,
                        cfg.bias_factor as int,
                    );
                }
                if b.frozen {
                    lemma_contact_step_frozen2(
                        vels(a.velocity, a.angular_velocity, b.velocity, b.angular_velocity),
                        normal@,
                        r1@,
                        r2@,
                        invm1 as int,
                        im1@,
                        im2@,
                        dd as int,
                        dt as int,
                        cfg.restitution as int,
                        cfg.friction as int,
                        cfg.bias_factor as int,
                    );
                }
                if all_resting(old(instances)@) && shallow_info(*info, cfg.slop as int) {
                    assert(a.velocity@ == zerov() && a.angular_velocity@ == zerov() && b.velocity@
                        == zerov() && b.angular_velocity@ == zerov());
                    assert(dd == 0);
                    lemma_contact_step_rest(
                        normal@,
                        r1@,
                        r2@,
                        invm1 as int,
                        invm2 as int,
                        im1@,
                        im2@,
                        dt as int,
                        cfg.restitution as int,
                        cfg.friction as int,
                        cfg.bias_factor as int,
                    );
                }
            }
            let ghost pre = instances@;
            let mut na = a;
            na.velocity = nv1;
            na.angular_velocity = nw1;
            let mut nb = b;
            nb.velocity = nv2;
            nb.angular_velocity = nw2;
            instances.set(a_idx, na);
            instances.set(b_idx, nb);
            proof {
                let out = contact_step(
                    vels(a.velocity, a.angular_velocity, b.velocity, b.angular_velocity),
                    normal@,
                    r1@,
                    r2@,
                    invm1 as int,
                    invm2 as int,
                    im1@,
                    im2@,
                    dd as int,
                    dt as int,
                    cfg.restitution as int,
                    cfg.friction as int,
                    cfg.bias_factor as int,
                );
                assert(na == (Cuboid {
                    velocity: v2vec(out.v1),
                    angular_velocity: v2vec(out.w1),
                    ..a
                }));
                assert(nb == (Cuboid {
                    velocity: v2vec(out.v2),
                    angular_velocity: v2vec(out.w2),
                    ..b
                }));
                assert(solve_point_s(pre, *info, p as int, dt as int, *cfg, normal@)
                    == instances@);
                if all_resting(old(instances)@) && shallow_info(*info, cfg.slop as int) {
                    assert(na.velocity == a.velocity && na.angular_velocity == a.angular_velocity);
                    assert(na == a && nb == b);
                    assert(instances@ =~= old(instances)@);
                }
            }
        } else {
            proof {
                assert(solve_point_s(instances@, *info, p as int, dt as int, *cfg, normal@)
                    == instances@);
            }
        }
        p += 1;
    }
}

/// Run the fixed number of global solver passes over the collision list,
/// mutating only body velocities. Frozen bodies never move, and a fully
/// resting world with all penetrations inside the tolerance is left
/// exactly as it was (the solver's no-op fixed point).
pub fn resolve_collisions(
    collisions: &Vec<CollisionInfo>,
    instances: &mut Vec<Cuboid>,
    dt: i64,
    cfg: &SolverConfig,
)
    requires
        forall|k: int|
            0 <= k < collisions@.len() ==> wf_collision(
                #[trigger] collisions@[k],
                old(instances)@.len() as int,
            ),
        forall|j: int|
            0 <= j < old(instances)@.len() ==> body_args_ok(#[trigger] old(instances)@[j]),
        1 <= dt <= SCALE,
        config_ok(*cfg),
    ensures
        final(instances)@.len() == old(instances)@.len(),
        forall|j: int|
            0 <= j < old(instances)@.len() ==> same_but_velocity(
                old(instances)@[j],
                #[trigger] final(instances)@[j],
            ),
        forall|j: int|
            0 <= j < old(instances)@.len() ==> body_args_ok(#[trigger] final(instances)@[j]),
        forall|j: int|
            0 <= j < old(instances)@.len() && old(instances)@[j].frozen
                ==> (#[trigger] final(instances)@[j]) == old(instances)@[j],
        all_resting(old(instances)@) && all_shallow(collisions@, cfg.slop as int)
            ==> final(instances)@ == old(instances)@,
        final(instances)@ == solve_passes_s(
            old(instances)@,
            collisions@,
            cfg.iterations as int,
            dt as int,
            *cfg,
        ),
{
    let mut pass: usize = 0;
    while pass < cfg.iterations
        invariant
            instances@ == solve_passes_s(
                old(instances)@,
                collisions@,
                pass as int,
                dt as int,
                *cfg,
            ),
            0 <= pass <= cfg.iterations,
            forall|k: int|
                0 <= k < collisions@.len() ==> wf_collision(
                    #[trigger] collisions@[k],
                    old(instances)@.len() as int,
                ),
            1 <= dt <= SCALE,
            config_ok(*cfg),
            instances@.len() == old(instances)@.len(),
            forall|j: int|
                0 <= j < old(instances)@.len() ==> same_but_velocity(
                    old(instances)@[j],
                    #[trigger] instances@[j],
                ),
            forall|j: int|
                0 <= j < old(instances)@.len() ==> body_args_ok(#[trigger] instances@[j]),
            forall|j: int|
                0 <= j < old(instances)@.len() && old(instances)@[j].frozen
                    ==> #[trigger] instances@[j] == old(instances)@[j],
            all_resting(old(instances)@) && all_shallow(collisions@, cfg.slop as int)
                ==> instances@ == old(instances)@,
        decreases cfg.iterations - pass,
    {
        let n_cols = collisions.len();
        let ghost pass_start = instances@;
        let mut c: usize = 0;
        while c < n_cols
            invariant
                n_cols == collisions@.len(),
                0 <= c <= n_cols,
                solve_list_s(instances@, collisions@, c as int, dt as int, *cfg) == solve_list_s(
                    pass_start,
                    collisions@,
                    0,
                    dt as int,
                    *cfg,
                ),
                pass_start == solve_passes_s(
                    old(instances)@,
                    collisions@,
                    pass as int,
                    dt as int,
                    *cfg,
                ),
                pass < cfg.iterations,
                forall|k: int|
                    0 <= k < collisions@.len() ==> wf_collision(
                        #[trigger] collisions@[k],
                        old(instances)@.len() as int,
                    ),
                1 <= dt <= SCALE,
                config_ok(*cfg),
                instances@.len() == old(instances)@.len(),
                forall|j: int|
                    0 <= j < old(instances)@.len() ==> same_but_velocity(
                        old(instances)@[j],
                        #[trigger] instances@[j],
                    ),
                forall|j: int|
                    0 <= j < old(instances)@.len() ==> body_args_ok(#[trigger] instances@[j]),
                forall|j: int|
                    0 <= j < old(instances)@.len() && old(instances)@[j].frozen
                        ==> #[trigger] instances@[j] == old(instances)@[j],
                all_resting(old(instances)@) && all_shallow(collisions@, cfg.slop as int)
                    ==> instances@ == old(instances)@,
            decreases n_cols - c,
        {
            solve_collision(instances, &collisions[c], dt, cfg);
            c += 1;
        }
        pass += 1;
    }
}

} // verus!
