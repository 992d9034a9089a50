//! End-to-end checks of the physics engine: collisions, joints,
//! springs, constraints and the fixed-step accumulator, on exact
//! fixed-point values (one unit is 65536 ticks).

use blobs::body::{RigidBodyBuilder, RigidBodyType};
use blobs::collider::{Collider, ColliderBuilder, ColliderFlags, Shape};
use blobs::fx::{FX_LIM, FX_ONE};
use blobs::groups::InteractionGroups;
use blobs::physics::{Constraint, Physics, FIXED_DELTA};
use blobs::springs::{Spring, SpringConnection};
use blobs::vec2::Vec2;

fn fx(units: i64) -> i64 {
    units * FX_ONE
}

fn ball(radius: i64, offset: Vec2) -> Collider {
    ColliderBuilder::new()
        .radius(radius)
        .offset(offset)
        .shape(Shape::Ball { radius })
        .build()
}

#[test]
fn symmetric_collision_splits_penetration() {
    // Two equal circles overlapping by 0.4 units move 0.2 units each,
    // ending at -0.8 and 0.8 on the x axis.
    let mut physics = Physics::new(Vec2 { x: 0, y: 0 }, false);
    let pa = Vec2 { x: -39322, y: 0 }; // about -0.6 units
    let pb = Vec2 { x: 39322, y: 0 };
    let ha = physics.insert_rbd(RigidBodyBuilder::new().position(pa).build());
    let hb = physics.insert_rbd(RigidBodyBuilder::new().position(pb).build());
    let r = 52429i64; // about 0.8 units
    physics.insert_collider_with_parent(ball(r, Vec2 { x: 0, y: 0 }), ha);
    physics.insert_collider_with_parent(ball(r, Vec2 { x: 0, y: 0 }), hb);
    physics.brute_force_collisions();
    let a = physics.get_rbd(ha).unwrap();
    let b = physics.get_rbd(hb).unwrap();
    // penetration 2*52429 - 78644 = 26214 ticks, half on each side
    assert_eq!(a.position, Vec2 { x: -52429, y: 0 });
    assert_eq!(b.position, Vec2 { x: 52429, y: 0 });
    let events = physics.drain_collision_events();
    assert_eq!(events.len(), 1);
    assert!(physics.drain_collision_events().is_empty());
}

#[test]
fn static_body_never_moves() {
    // Gravity, an overlapping dynamic body, a joint and a boundary
    // constraint all leave the static body exactly where it was.
    let mut physics = Physics::new(Vec2 { x: 0, y: -fx(10) }, false);
    let anchor = Vec2 { x: fx(1), y: fx(2) };
    let hs = physics.insert_rbd(
        RigidBodyBuilder::new().position(anchor).body_type(RigidBodyType::Static).build(),
    );
    let hd = physics.insert_rbd(
        RigidBodyBuilder::new().position(Vec2 { x: fx(1) + 30000, y: fx(2) }).build(),
    );
    physics.insert_collider_with_parent(ball(32768, Vec2 { x: 0, y: 0 }), hs);
    physics.insert_collider_with_parent(ball(32768, Vec2 { x: 0, y: 0 }), hd);
    physics.create_fixed_joint(hs, hd, Vec2 { x: 0, y: 0 }, Vec2 { x: 0, y: 0 });
    physics.add_constraint(Constraint { position: Vec2 { x: 0, y: 0 }, radius: fx(1) });
    for _ in 0..5 {
        physics.fixed_step(FIXED_DELTA);
    }
    let s = physics.get_rbd(hs).unwrap();
    assert_eq!(s.position, anchor);
    let d = physics.get_rbd(hd).unwrap();
    assert_ne!(d.position, Vec2 { x: fx(1) + 30000, y: fx(2) });
}

#[test]
fn joint_solver_restores_rest_distance() {
    // Two free bodies joined at one unit, then displaced: one solver
    // pass brings the distance back within a tick of the rest length.
    let mut physics = Physics::new(Vec2 { x: 0, y: 0 }, false);
    let ha = physics.insert_rbd(RigidBodyBuilder::new().position(Vec2 { x: 0, y: 0 }).build());
    let hb = physics.insert_rbd(
        RigidBodyBuilder::new().position(Vec2 { x: fx(1) + fx(1) / 2, y: 0 }).build(),
    );
    physics.create_fixed_joint_with_distance(
        ha,
        hb,
        Vec2 { x: 0, y: 0 },
        Vec2 { x: 0, y: 0 },
        fx(1),
    );
    physics.solve_fixed_joints(FIXED_DELTA);
    let a = physics.get_rbd(ha).unwrap().position;
    let b = physics.get_rbd(hb).unwrap().position;
    let dist = b.x - a.x;
    assert!(a.y == 0 && b.y == 0);
    assert!((dist - fx(1)).abs() <= 1, "distance {dist} not near {}", fx(1));
}

#[test]
fn constraint_contains_dynamic_bodies() {
    // A body five units out is pulled back onto the two-unit circle.
    let mut physics = Physics::new(Vec2 { x: 0, y: 0 }, false);
    let h = physics.insert_rbd(
        RigidBodyBuilder::new().position(Vec2 { x: fx(5), y: 0 }).build(),
    );
    physics.add_constraint(Constraint { position: Vec2 { x: 0, y: 0 }, radius: fx(2) });
    physics.apply_constraints();
    let p = physics.get_rbd(h).unwrap().position;
    assert_eq!(p, Vec2 { x: fx(2), y: 0 });
}

#[test]
fn one_sided_collision_moves_only_the_dynamic_body() {
    let mut physics = Physics::new(Vec2 { x: 0, y: 0 }, false);
    let wall_at = Vec2 { x: 0, y: 0 };
    let hs = physics.insert_rbd(
        RigidBodyBuilder::new().position(wall_at).body_type(RigidBodyType::Static).build(),
    );
    let hd = physics.insert_rbd(
        RigidBodyBuilder::new().position(Vec2 { x: 32768, y: 0 }).build(),
    );
    physics.insert_collider_with_parent(ball(32768, Vec2 { x: 0, y: 0 }), hs);
    physics.insert_collider_with_parent(ball(32768, Vec2 { x: 0, y: 0 }), hd);
    physics.brute_force_collisions();
    assert_eq!(physics.get_rbd(hs).unwrap().position, wall_at);
    // full penetration 0.5 units lands on the dynamic side
    assert_eq!(physics.get_rbd(hd).unwrap().position, Vec2 { x: 65536, y: 0 });
}

#[test]
fn sensors_report_but_do_not_push() {
    let mut physics = Physics::new(Vec2 { x: 0, y: 0 }, false);
    let pa = Vec2 { x: 0, y: 0 };
    let pb = Vec2 { x: 30000, y: 0 };
    let ha = physics.insert_rbd(RigidBodyBuilder::new().position(pa).build());
    let hb = physics.insert_rbd(RigidBodyBuilder::new().position(pb).build());
    let sensor = ColliderBuilder::new()
        .radius(32768)
        .flags(ColliderFlags { is_sensor: true })
        .build();
    physics.insert_collider_with_parent(sensor, ha);
    physics.insert_collider_with_parent(ball(32768, Vec2 { x: 0, y: 0 }), hb);
    physics.brute_force_collisions();
    assert_eq!(physics.get_rbd(ha).unwrap().position, pa);
    assert_eq!(physics.get_rbd(hb).unwrap().position, pb);
    assert_eq!(physics.drain_collision_events().len(), 1);
}

#[test]
fn group_filter_blocks_interaction() {
    let mut physics = Physics::new(Vec2 { x: 0, y: 0 }, false);
    let pa = Vec2 { x: 0, y: 0 };
    let pb = Vec2 { x: 30000, y: 0 };
    let ha = physics.insert_rbd(RigidBodyBuilder::new().position(pa).build());
    let hb = physics.insert_rbd(RigidBodyBuilder::new().position(pb).build());
    let grp = InteractionGroups::none();
    let ca = ColliderBuilder::new().radius(32768).collision_groups(grp).build();
    physics.insert_collider_with_parent(ca, ha);
    physics.insert_collider_with_parent(ball(32768, Vec2 { x: 0, y: 0 }), hb);
    physics.brute_force_collisions();
    assert_eq!(physics.get_rbd(ha).unwrap().position, pa);
    assert_eq!(physics.get_rbd(hb).unwrap().position, pb);
    assert_eq!(physics.drain_collision_events().len(), 0);
}

#[test]
fn spring_applies_equal_and_opposite_force() {
    // Stretched by one unit at unit stiffness: one unit of force each way.
    let mut physics = Physics::new(Vec2 { x: 0, y: 0 }, false);
    let ha = physics.insert_rbd(RigidBodyBuilder::new().position(Vec2 { x: 0, y: 0 }).build());
    let hb = physics.insert_rbd(
        RigidBodyBuilder::new().position(Vec2 { x: fx(2), y: 0 }).build(),
    );
    physics.insert_spring(Spring {
        rigid_body_a: ha,
        connection_b: SpringConnection::RigidBody(hb),
        rest_length: fx(1),
        stiffness: FX_ONE,
        damping: 0,
    });
    physics.apply_springs();
    assert_eq!(physics.get_rbd(ha).unwrap().acceleration, Vec2 { x: FX_ONE, y: 0 });
    assert_eq!(physics.get_rbd(hb).unwrap().acceleration, Vec2 { x: -FX_ONE, y: 0 });
}

#[test]
fn gravity_scales_per_body() {
    let mut physics = Physics::new(Vec2 { x: 0, y: -fx(10) }, false);
    let h1 = physics.insert_rbd(RigidBodyBuilder::new().build());
    let h2 = physics.insert_rbd(RigidBodyBuilder::new().gravity_mod(FX_ONE / 2).build());
    let hs = physics.insert_rbd(
        RigidBodyBuilder::new().body_type(RigidBodyType::Static).build(),
    );
    physics.apply_gravity();
    assert_eq!(physics.get_rbd(h1).unwrap().acceleration, Vec2 { x: 0, y: -fx(10) });
    assert_eq!(physics.get_rbd(h2).unwrap().acceleration, Vec2 { x: 0, y: -fx(5) });
    assert_eq!(physics.get_rbd(hs).unwrap().acceleration, Vec2 { x: 0, y: 0 });
}

#[test]
fn fixed_step_drains_whole_steps_only() {
    let mut physics = Physics::new(Vec2 { x: 0, y: -fx(10) }, false);
    let h = physics.insert_rbd(RigidBodyBuilder::new().position(Vec2 { x: 0, y: fx(3) }).build());
    // less than one fixed delta: nothing is simulated
    physics.fixed_step(FIXED_DELTA - 1);
    assert_eq!(physics.get_rbd(h).unwrap().position, Vec2 { x: 0, y: fx(3) });
    // the rest of the tick arrives: exactly one step runs
    physics.fixed_step(1);
    let after_one = physics.get_rbd(h).unwrap().position;
    assert!(after_one.y < fx(3));
}

#[test]
fn removing_a_body_clears_its_colliders_and_point() {
    let mut physics = Physics::new(Vec2 { x: 0, y: 0 }, false);
    let h = physics.insert_rbd(RigidBodyBuilder::new().position(Vec2 { x: fx(1), y: 0 }).build());
    let c = physics.insert_collider_with_parent(ball(32768, Vec2 { x: 0, y: 0 }), h);
    assert_eq!(physics.rbd_count(), 1);
    assert_eq!(physics.col_count(), 1);
    physics.remove_rbd(h);
    assert_eq!(physics.rbd_count(), 0);
    assert_eq!(physics.col_count(), 0);
    assert!(physics.get_rbd(h).is_none());
    assert!(physics.col_set.get(c).is_none());
    // removing again is a no-op
    physics.remove_rbd(h);
    assert_eq!(physics.rbd_count(), 0);
}

#[test]
fn collider_removal_cascades_to_an_empty_body() {
    let mut physics = Physics::new(Vec2 { x: 0, y: 0 }, false);
    let h = physics.insert_rbd(RigidBodyBuilder::new().build());
    let c = physics.insert_collider_with_parent(ball(32768, Vec2 { x: 0, y: 0 }), h);
    let removed = physics.col_set.remove(c, &mut physics.rbd_set);
    assert_eq!(removed, Some(h));
    assert!(physics.rbd_set.get(h).is_none());
    assert!(physics.col_set.get(c).is_none());
}

#[test]
fn collider_mass_and_inertia_formulas() {
    let c = ball(32768, Vec2 { x: 0, y: 0 });
    // mass = 2 * radius = one unit; inertia = 0.5 * m * r^2 = 0.125
    assert_eq!(c.mass(), FX_ONE);
    assert_eq!(c.inertia(), 8192);
    // an offset collider gains the parallel-axis term m * d^2
    let c2 = ball(32768, Vec2 { x: FX_ONE, y: 0 });
    assert_eq!(c2.inertia(), 8192 + FX_ONE);
    assert_eq!(FX_LIM, 2147483648);
}

#[test]
fn update_objects_propagates_collider_transforms() {
    let mut physics = Physics::new(Vec2 { x: 0, y: 0 }, false);
    let h = physics.insert_rbd(
        RigidBodyBuilder::new().position(Vec2 { x: fx(2), y: fx(3) }).build(),
    );
    let c = physics.insert_collider_with_parent(ball(32768, Vec2 { x: FX_ONE, y: FX_ONE }), h);
    physics.update_objects(FIXED_DELTA);
    let col = physics.col_set.get(c).unwrap();
    assert_eq!(col.absolute_transform.translation, Vec2 { x: fx(3), y: fx(4) });
    assert_eq!(col.absolute_transform.rotation, 0);
}

#[test]
fn velocity_request_becomes_motion() {
    let mut physics = Physics::new(Vec2 { x: 0, y: 0 }, false);
    let h = physics.insert_rbd(
        RigidBodyBuilder::new()
            .position(Vec2 { x: 0, y: 0 })
            .velocity_request(Vec2 { x: fx(60), y: 0 })
            .build(),
    );
    physics.update_objects(FIXED_DELTA);
    let b = physics.get_rbd(h).unwrap();
    // one sixtieth of a second at sixty units per second: about one unit
    let moved = b.position.x;
    assert!(moved > fx(1) - 2000 && moved < fx(1) + 2000, "moved {moved}");
    assert!(b.velocity_request.is_none());
}

#[test]
fn debug_snapshot_lists_bodies_and_joints() {
    let mut physics = Physics::new(Vec2 { x: 0, y: 0 }, false);
    let ha = physics.insert_rbd(RigidBodyBuilder::new().position(Vec2 { x: fx(1), y: 0 }).build());
    let hb = physics.insert_rbd(RigidBodyBuilder::new().position(Vec2 { x: fx(2), y: 0 }).build());
    physics.create_fixed_joint(ha, hb, Vec2 { x: 0, y: 0 }, Vec2 { x: 0, y: 0 });
    let data = physics.debug_data();
    assert_eq!(data.bodies.len(), 2);
    assert_eq!(data.joints.len(), 1);
    assert_eq!(data.joints[0].body_a, Vec2 { x: fx(1), y: 0 });
    assert_eq!(data.joints[0].body_b, Vec2 { x: fx(2), y: 0 });
}

#[test]
fn spatial_pass_resolves_via_broad_phase() {
    // With the spatial strategy on, candidates come from the grid and
    // the pair is split exactly as in the brute-force pass.
    let mut physics = Physics::new(Vec2 { x: 0, y: 0 }, true);
    let pa = Vec2 { x: -19660, y: 0 }; // about -0.3 units
    let pb = Vec2 { x: 19660, y: 0 };
    let ha = physics.insert_rbd(RigidBodyBuilder::new().position(pa).build());
    let hb = physics.insert_rbd(RigidBodyBuilder::new().position(pb).build());
    physics.insert_collider_with_parent(ball(32768, Vec2 { x: 0, y: 0 }), ha);
    physics.insert_collider_with_parent(ball(32768, Vec2 { x: 0, y: 0 }), hb);
    physics.spatial_collisions();
    // penetration 65536 - 39320 = 26216 ticks, half on each side
    assert_eq!(physics.get_rbd(ha).unwrap().position, Vec2 { x: -32768, y: 0 });
    assert_eq!(physics.get_rbd(hb).unwrap().position, Vec2 { x: 32768, y: 0 });
    assert_eq!(physics.drain_collision_events().len(), 1);
}

#[test]
fn fixed_step_accumulator_is_exact() {
    let mut physics = Physics::new(Vec2 { x: 0, y: 0 }, false);
    // two and a half deltas arrive: two steps run, half a delta remains
    physics.fixed_step(2 * FIXED_DELTA + FIXED_DELTA / 2);
    assert_eq!(physics.accumulator, FIXED_DELTA / 2);
    assert_eq!(physics.time, 2 * FIXED_DELTA);
    // a stalled frame worth ten deltas: the cap drains only three
    physics.fixed_step(10 * FIXED_DELTA);
    assert_eq!(physics.accumulator, 7 * FIXED_DELTA + FIXED_DELTA / 2);
    assert_eq!(physics.time, 5 * FIXED_DELTA);
}
