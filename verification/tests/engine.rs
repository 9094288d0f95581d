//! End-to-end tests for the collision and solver core, with world values
//! written in the library's fixed-point representation (one unit is
//! 1_000_000 raw steps).

use cuboids::fixed::{EPSILON, SCALE};
use cuboids::hash_grid::HashGrid;
use cuboids::math::{EpsilonEquals, Quaternion, Vec3};
use cuboids::physics::{
    calc_contact_manifold, detect_collision, sat, CollisionInfo, CollisionType, ContactPoint,
};
use cuboids::solver::{resolve_collisions, SolverConfig};
use cuboids::world::{Cuboid, World, AABB, PHYSICS_DT};

/// A world quantity in fixed point.
fn fx(v: f64) -> i64 {
    (v * SCALE as f64).round() as i64
}

fn vec3(x: f64, y: f64, z: f64) -> Vec3 {
    Vec3 {
        x: fx(x),
        y: fx(y),
        z: fx(z),
    }
}

/// A quaternion for a rotation of `angle` radians about `axis`, computed
/// with host floating point and handed to the library in fixed point.
fn quat_from_angle(axis: (f64, f64, f64), angle: f64) -> Quaternion {
    let mag = (axis.0 * axis.0 + axis.1 * axis.1 + axis.2 * axis.2).sqrt();
    let (ax, ay, az) = (axis.0 / mag, axis.1 / mag, axis.2 / mag);
    let (s, c) = (angle / 2.0).sin_cos();
    Quaternion {
        real: fx(c),
        x: fx(s * ax),
        y: fx(s * ay),
        z: fx(s * az),
    }
}

#[test]
fn test_cell_iterator() {
    let n = 2;
    let mut instances = vec![
        Cuboid {
            index: 0,
            position: vec3(1.0, 1.0, 1.0),
            ..Default::default()
        },
        Cuboid {
            position: vec3(0.75, 1.0, 1.0),
            index: 1,
            ..Default::default()
        },
    ];
    for x in &mut instances {
        x.update_derived();
    }
    let mut grid = HashGrid::new(&instances, n);
    grid.init(&instances);
    let mut len = 0;
    for cell_index in HashGrid::cell_indices(&instances[0], grid.spacing, grid.n) {
        let bucket = &grid.buckets[cell_index];
        assert_eq!(bucket.len(), 2);
        len += 1;
    }
    assert_eq!(len, 1);
}

#[test]
fn test_sat_no_collision() {
    let mut c1 = Cuboid::default();
    let mut c2 = Cuboid {
        position: vec3(0.0, 0.0, 10.0),
        ..Default::default()
    };
    c1.update_derived();
    c2.update_derived();
    assert!(sat(&c1, &c2).is_none());
}

#[test]
fn test_sat_collision_type() {
    // Between Face and Edge.
    let mut c1 = Cuboid::default();
    let mut c2 = Cuboid {
        position: vec3(0.0, 0.5, 0.0),
        ..Default::default()
    };
    c1.update_derived();
    c2.update_derived();
    let res = sat(&c1, &c2).expect("sat was None");
    assert_eq!(res.1, CollisionType::Face);
    assert!(res.0.x.abs() < EPSILON);
    assert!((res.0.y + fx(0.5)).abs() < EPSILON);
    assert!(res.0.z.abs() < EPSILON);
}

#[test]
fn test_contact_manifold_flush_face() {
    let mut c1 = Cuboid::default();
    let mut c2 = Cuboid {
        position: vec3(0.0, -0.5, 0.0),
        scale: vec3(100.0, 1.0, 100.0),
        ..Default::default()
    };
    c1.update_derived();
    c2.update_derived();
    let manifold: Vec<ContactPoint> = calc_contact_manifold(&c1, &c2, vec3(0.0, 1.0, 0.0))
        .expect("manifold was None");
    assert_eq!(manifold.len(), 4);
    assert_eq!(
        manifold.iter().map(|x| x.depth).collect::<Vec<_>>(),
        vec![fx(0.5), fx(0.5), fx(0.5), fx(0.5)]
    );
    let points = manifold
        .iter()
        .map(|x| (x.point.x, x.point.y, x.point.z))
        .collect::<Vec<_>>();
    let expected = [
        (fx(-0.5), 0, fx(-0.5)),
        (fx(-0.5), 0, fx(0.5)),
        (fx(0.5), 0, fx(-0.5)),
        (fx(0.5), 0, fx(0.5)),
    ];
    // The clip parameter is quantized to 1e-6, so a corner on a 100-unit
    // slab edge can sit up to 1e-4 units off the exact location; match each
    // expected corner to exactly one computed point within that tolerance.
    let tol = fx(0.0001);
    for e in expected.iter() {
        let hits = points
            .iter()
            .filter(|p| {
                (p.0 - e.0).abs() <= tol && (p.1 - e.1).abs() <= tol && (p.2 - e.2).abs() <= tol
            })
            .count();
        assert_eq!(hits, 1, "expected corner {:?} in {:?}", e, points);
    }
    assert!(manifold.iter().all(|x| (x.depth - fx(0.5)).abs() < EPSILON));
}

#[test]
fn test_contact_manifold_vertex_face() {
    let mut c1 = Cuboid::default();
    let mut c2 = Cuboid {
        position: vec3(0.0, 1.3, 0.0),
        rotation: quat_from_angle((1.0_f64 / 2.0_f64.sqrt(), 0.0, -1.0 / 2.0_f64.sqrt()), 2.1862),
        ..Default::default()
    };
    c1.update_derived();
    c2.update_derived();
    let manifold: Vec<ContactPoint> = calc_contact_manifold(&c1, &c2, vec3(0.0, -1.0, 0.0))
        .expect("manifold was None");
    assert_eq!(manifold.len(), 1);
}

#[test]
fn test_cuboid_model_matrix() {
    let mut cuboid = Cuboid {
        position: vec3(1.0, 2.0, 3.0),
        rotation: quat_from_angle((0.0, 1.0, 0.0), std::f64::consts::FRAC_PI_2),
        ..Default::default()
    };
    cuboid.update_derived();
    let raw = cuboid.to_raw();
    // Column major: a quarter turn about y sends +x to -z and +z to +x.
    let expected_model: [f64; 16] = [
        0.0, 0.0, -1.0, 0.0, 0.0, 1.0, 0.0, 0.0, 1.0, 0.0, 0.0, 0.0, 1.0, 2.0, 3.0, 1.0,
    ];
    for (expected, actual) in expected_model.iter().zip(raw.model.iter()) {
        assert!((fx(*expected) - actual).abs() < EPSILON);
    }
}

#[test]
fn test_detect_rejects_separated_boxes() {
    // Non-overlapping bounding boxes never produce a collision.
    let mut c1 = Cuboid::default();
    let mut c2 = Cuboid {
        position: vec3(5.0, 7.0, -4.0),
        index: 1,
        ..Default::default()
    };
    c1.update_derived();
    c2.update_derived();
    assert!(!c1.aabb.intersects(&c2.aabb));
    assert!(detect_collision(&c1, &c2).is_none());
}

#[test]
fn test_detect_face_overlap_mtv() {
    // Two unit cubes overlapping by half a unit along y: MTV is (0, -0.5, 0)
    // from the second body toward the first, tagged as a face contact.
    let mut c1 = Cuboid::default();
    let mut c2 = Cuboid {
        position: vec3(0.0, 0.5, 0.0),
        index: 1,
        ..Default::default()
    };
    c1.update_derived();
    c2.update_derived();
    let info = detect_collision(&c1, &c2).expect("no collision detected");
    assert_eq!(info.instance_index, 0);
    assert_eq!(info.other_index, 1);
    assert_eq!(info.collision_type, CollisionType::Face);
    assert!(info.mtv.x.abs() < EPSILON);
    assert!((info.mtv.y + fx(0.5)).abs() < EPSILON);
    assert!(info.mtv.z.abs() < EPSILON);
}

#[test]
fn test_detect_canonicalizes_pair() {
    // Whatever the call order, the smaller index is the instance and the
    // MTV points from the higher-indexed body toward the lower-indexed one.
    let mut c1 = Cuboid::default();
    let mut c2 = Cuboid {
        position: vec3(0.0, 0.5, 0.0),
        index: 1,
        ..Default::default()
    };
    c1.update_derived();
    c2.update_derived();
    let swapped = detect_collision(&c2, &c1).expect("no collision detected");
    assert_eq!(swapped.instance_index, 0);
    assert_eq!(swapped.other_index, 1);
    assert!(swapped.mtv.x.abs() < EPSILON);
    assert!((swapped.mtv.y + fx(0.5)).abs() < EPSILON);
    assert!(swapped.mtv.z.abs() < EPSILON);
}

#[test]
fn test_detect_collision_is_deterministic() {
    let mut c1 = Cuboid::default();
    let mut c2 = Cuboid {
        position: vec3(0.3, 0.6, -0.2),
        rotation: quat_from_angle((0.0, 0.0, 1.0), 0.4),
        index: 1,
        ..Default::default()
    };
    c1.update_derived();
    c2.update_derived();
    let a = detect_collision(&c1, &c2).expect("no collision detected");
    let b = detect_collision(&c1, &c2).expect("no collision detected");
    assert_eq!(a.instance_index, b.instance_index);
    assert_eq!(a.other_index, b.other_index);
    assert_eq!(a.mtv, b.mtv);
    assert_eq!(a.collision_type, b.collision_type);
    assert_eq!(a.manifold, b.manifold);
}

#[test]
fn test_frozen_body_has_no_mass_response() {
    // Whatever the scale and density, a frozen body reports zero inverse
    // mass and a zero inverse inertia tensor.
    let mut c = Cuboid {
        scale: vec3(2.0, 3.0, 4.0),
        density: fx(7.0),
        frozen: true,
        ..Default::default()
    };
    c.update_derived();
    assert_eq!(c.get_inverse_mass(), 0);
    let m = c.get_inverse_moment_of_inertia();
    assert_eq!(m.array, [0i64; 9]);
}

#[test]
fn test_inverse_mass_uses_scale_magnitude() {
    // 1 / (|scale| * density) for a unit cube of unit density:
    // 1 / sqrt(3), rounded down in fixed point.
    let mut c = Cuboid::default();
    c.update_derived();
    assert_eq!(c.get_inverse_mass(), 577_350);
}

#[test]
fn test_normalize_rejects_degenerate_vector() {
    let zero = Vec3 { x: 0, y: 0, z: 0 };
    assert!(zero.normalize().is_none());
    let tiny = Vec3 { x: 3, y: -2, z: 1 };
    assert!(tiny.normalize().is_none());
    let unit = vec3(0.0, 3.0, 4.0).normalize().expect("normalize failed");
    assert_eq!(unit, vec3(0.0, 0.6, 0.8));
}

#[test]
fn test_solver_noop_on_resting_contact() {
    // Zero relative velocity and zero effective depth produce zero impulse.
    let mut a = Cuboid::default();
    let mut b = Cuboid {
        position: vec3(0.0, 1.0, 0.0),
        index: 1,
        ..Default::default()
    };
    a.update_derived();
    b.update_derived();
    let mut bodies = vec![a, b];
    let cfg = SolverConfig::standard();
    let collisions = vec![CollisionInfo {
        instance_index: 0,
        other_index: 1,
        mtv: vec3(0.0, -0.001, 0.0),
        collision_type: CollisionType::Face,
        manifold: vec![ContactPoint {
            point: vec3(0.5, 0.5, 0.5),
            depth: cfg.slop,
        }],
    }];
    resolve_collisions(&collisions, &mut bodies, PHYSICS_DT, &cfg);
    for body in &bodies {
        assert_eq!(body.velocity, Vec3 { x: 0, y: 0, z: 0 });
        assert_eq!(body.angular_velocity, Vec3 { x: 0, y: 0, z: 0 });
    }
}

#[test]
fn test_overlapping_bodies_share_a_bucket() {
    // The broad-phase guarantee on concrete values: two bodies whose
    // bounding boxes intersect list at least one common bucket.
    let mut a = Cuboid {
        position: vec3(10.0, 0.0, -3.0),
        ..Default::default()
    };
    let mut b = Cuboid {
        position: vec3(10.75, 0.25, -3.5),
        index: 1,
        ..Default::default()
    };
    a.update_derived();
    b.update_derived();
    assert!(a.aabb.intersects(&b.aabb));
    let grid = HashGrid::new(&vec![a, b], 2);
    let cells_a = HashGrid::cell_indices(&a, grid.spacing, grid.n);
    let cells_b = HashGrid::cell_indices(&b, grid.spacing, grid.n);
    assert!(cells_a.iter().any(|k| cells_b.contains(k)));
}

#[test]
fn test_integrate_applies_gravity_exactly() {
    let mut c = Cuboid::default();
    c.update_derived();
    c.integrate(PHYSICS_DT, vec3(0.0, -9.81, 0.0));
    // gravity * dt, then velocity * dt, each rounded toward zero.
    assert_eq!(c.velocity.y, -54_504);
    assert_eq!(c.position.y, -302);
    assert_eq!(c.velocity.x, 0);
    assert_eq!(c.position.x, 0);
}

#[test]
fn test_world_tick_drops_a_cube_and_keeps_the_floor() {
    let mut body = Cuboid {
        position: vec3(0.0, 10.0, 0.0),
        ..Default::default()
    };
    body.update_derived();
    let mut world = World::new(vec![body]);
    let floor_before = world.instances[world.n];
    assert!(floor_before.frozen);
    for _ in 0..10 {
        world.update();
    }
    let dropped = &world.instances[0];
    assert!(dropped.position.y < fx(10.0));
    assert!(dropped.velocity.y < 0);
    let floor_after = world.instances[world.n];
    assert_eq!(floor_after.position, floor_before.position);
    assert_eq!(floor_after.velocity, floor_before.velocity);
    assert!(floor_after.frozen);
}

#[test]
fn test_aabb_dimensions() {
    let mut c = Cuboid {
        scale: vec3(2.0, 4.0, 6.0),
        ..Default::default()
    };
    c.update_derived();
    let dims = c.aabb.get_dimensions();
    assert_eq!(dims, vec3(2.0, 4.0, 6.0));
}

#[test]
fn test_integration_keeps_rotation_unit() {
    // A spinning body's orientation is renormalized every tick.
    let mut c = Cuboid {
        angular_velocity: vec3(2.0, -1.0, 0.5),
        ..Default::default()
    };
    c.update_derived();
    for _ in 0..200 {
        c.integrate(PHYSICS_DT, vec3(0.0, 0.0, 0.0));
    }
    let q = &c.rotation;
    let sq = (q.real as i128) * (q.real as i128)
        + (q.x as i128) * (q.x as i128)
        + (q.y as i128) * (q.y as i128)
        + (q.z as i128) * (q.z as i128);
    let mag = (sq as f64).sqrt();
    assert!((mag - SCALE as f64).abs() <= 100.0, "orientation drifted: {}", mag);
}

#[test]
fn test_world_pushes_overlapping_cubes_apart() {
    // Two deeply overlapping cubes entering the tick at rest: the
    // positional-bias impulse pushes the upper one up relative to the
    // lower one.
    let mut a = Cuboid {
        position: vec3(0.0, 10.0, 0.0),
        ..Default::default()
    };
    let mut b = Cuboid {
        position: vec3(0.0, 10.5, 0.0),
        index: 1,
        ..Default::default()
    };
    a.update_derived();
    b.update_derived();
    let mut world = World::new(vec![a, b]);
    world.update();
    let lower = &world.instances[0];
    let upper = &world.instances[1];
    assert!(upper.velocity.y > lower.velocity.y, "{} vs {}", upper.velocity.y, lower.velocity.y);
    assert_eq!(world.dropped_collisions, 0);
}

#[test]
fn test_aabb_new_checks_ordering() {
    let bb = AABB::new(vec3(-1.0, -2.0, -3.0), vec3(1.0, 2.0, 3.0));
    assert_eq!(bb.min, vec3(-1.0, -2.0, -3.0));
    assert_eq!(bb.max, vec3(1.0, 2.0, 3.0));
    let other = AABB::new(vec3(0.5, 0.5, 0.5), vec3(5.0, 5.0, 5.0));
    assert!(bb.intersects(&other));
    assert!(other.intersects(&bb));
}

#[test]
fn test_mat3_transpose_involution() {
    let q = quat_from_angle((0.3, 1.0, -0.2), 1.1);
    let m = q.to_mat3();
    let tt = m.transpose().transpose();
    assert_eq!(m.array, tt.array);
    let t = m.transpose();
    for col in 0..3 {
        for row in 0..3 {
            assert_eq!(t.array[col * 3 + row], m.array[row * 3 + col]);
        }
    }
}

#[test]
fn test_epsilon_equals_scalars() {
    assert!(fx(1.0).epsilon_equals(fx(1.0) + EPSILON));
    assert!(!fx(1.0).epsilon_equals(fx(1.0) + EPSILON + 1));
}
