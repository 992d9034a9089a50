//! The spatial hash and body-transform checks, on exact fixed-point
//! values (one unit is 65536 ticks).

use blobs::body::RigidBodyBuilder;
use blobs::collider::ColliderBuilder;
use blobs::fx::FX_ONE;
use blobs::spatial::SpatialHash;
use blobs::vec2::Vec2;

fn fx(units: i64) -> i64 {
    units * FX_ONE
}

fn v(x: i64, y: i64) -> Vec2 {
    Vec2 { x, y }
}

// A helper that builds a spatial hash with a few indexed points.
fn create_spatial_hash() -> SpatialHash {
    let mut spatial_hash = SpatialHash::new(fx(100));
    spatial_hash.insert(v(fx(50), fx(50)), fx(1)); // id 0
    spatial_hash.insert(v(fx(150), fx(150)), fx(1)); // id 1
    spatial_hash.insert(v(fx(250), fx(250)), fx(1)); // id 2
    spatial_hash.insert(v(fx(350), fx(350)), fx(1)); // id 3
    spatial_hash.insert(v(fx(450), fx(450)), fx(1)); // id 4
    spatial_hash
}

#[test]
fn test_get_cell_coords() {
    let spatial_hash = create_spatial_hash();
    assert_eq!(spatial_hash.get_cell_coords(v(fx(50), fx(50))), (0, 0));
    assert_eq!(spatial_hash.get_cell_coords(v(fx(150), fx(150))), (1, 1));
    assert_eq!(spatial_hash.get_cell_coords(v(fx(250), fx(250))), (2, 2));
    assert_eq!(spatial_hash.get_cell_coords(v(fx(350), fx(350))), (3, 3));
    assert_eq!(spatial_hash.get_cell_coords(v(fx(450), fx(450))), (4, 4));
}

#[test]
fn test_insert() {
    let mut spatial_hash = SpatialHash::new(fx(100));
    // 50.5 and -25.5 units are exact in this fixed-point form
    let pos = v(fx(50) + FX_ONE / 2, -fx(25) - FX_ONE / 2);
    let id = spatial_hash.insert(pos, fx(1));

    assert_eq!(id, 0);
    assert_eq!(spatial_hash.next_id(), 1);

    let point = spatial_hash.get_point(id).unwrap();
    assert_eq!(point.id, 0);
    assert_eq!(point.position, pos);

    // the point is filed under its own cell: a zero-radius query at its
    // position finds it
    let found = spatial_hash.query(pos, 0);
    assert!(found.iter().any(|p| p.id == id));
}

#[test]
fn insert_and_query() {
    let mut hash = SpatialHash::new(fx(1));
    let p1 = hash.insert(v(0, 0), 0);
    let p2 = hash.insert(v(fx(2), fx(2)), 0);

    let results = hash.query(v(fx(1), fx(1)), fx(1) + FX_ONE / 2);
    assert_eq!(results.len(), 2);
    assert!(results.iter().any(|p| p.id == p1));
    assert!(results.iter().any(|p| p.id == p2));
}

#[test]
fn move_point() {
    let mut hash = SpatialHash::new(fx(1));
    let p = hash.insert(v(0, 0), 0);

    hash.move_point(p, v(fx(2), fx(2))).unwrap();

    let results = hash.query(v(fx(1), fx(1)), fx(1) + FX_ONE / 2);
    assert_eq!(results.len(), 1);
    assert!(results.iter().any(|point| point.id == p && point.position == v(fx(2), fx(2))));
}

#[test]
fn remove() {
    let mut hash = SpatialHash::new(fx(1));
    let p = hash.insert(v(0, 0), 0);

    hash.remove(p);

    let results = hash.query(v(0, 0), fx(1) + FX_ONE / 2);
    assert!(results.is_empty());
}

#[test]
fn query_is_exact_over_the_neighbourhood() {
    // Points at 50, 150 and 250 units with cell size 100: a query of
    // radius 80 at (100, 100) returns exactly the first two.
    let mut hash = SpatialHash::new(fx(100));
    let a = hash.insert(v(fx(50), fx(50)), fx(1));
    let b = hash.insert(v(fx(150), fx(150)), fx(1));
    let c = hash.insert(v(fx(250), fx(250)), fx(1));

    let results = hash.query(v(fx(100), fx(100)), fx(80));
    assert_eq!(results.len(), 2);
    assert!(results.iter().any(|p| p.id == a));
    assert!(results.iter().any(|p| p.id == b));
    assert!(!results.iter().any(|p| p.id == c));
}

#[test]
fn moved_point_leaves_its_old_cell() {
    let mut hash = SpatialHash::new(fx(1));
    let p = hash.insert(v(0, 0), 0);
    hash.move_point(p, v(fx(10), 0)).unwrap();
    // unreachable from the old position with a small radius
    assert!(hash.query(v(0, 0), FX_ONE / 2).is_empty());
    // found at the new position with radius zero
    let found = hash.query(v(fx(10), 0), 0);
    assert_eq!(found.len(), 1);
    assert_eq!(found[0].id, p);
}

#[test]
fn test_simple_body_transform() {
    let body = RigidBodyBuilder::new()
        .position(v(fx(2), fx(3)))
        .scale(v(fx(1), fx(1)))
        .build();

    let transform = body.transform();
    assert_eq!(transform.translation, v(fx(2), fx(3)));
    assert_eq!(transform.rotation, 0);
}

#[test]
fn test_body_transform() {
    // a quarter turn is about 1.5708 radians: 102944 ticks
    let quarter_turn = 102944i64;
    let body = RigidBodyBuilder::new()
        .position(v(fx(2), fx(3)))
        .rotation(quarter_turn)
        .scale(v(fx(1), fx(1)))
        .build();

    let transform = body.transform();
    assert_eq!(transform.translation, v(fx(2), fx(3)));
    assert_eq!(transform.rotation, quarter_turn);
}

#[test]
fn test_collider_offset() {
    // the collider's world pose is the parent pose with the local
    // offset added; the parent's angle carries over unchanged
    let quarter_turn = 102944i64;
    let collider = ColliderBuilder::new().offset(v(fx(1), fx(1))).build();

    let mut physics = blobs::physics::Physics::new(v(0, 0), false);
    let h = physics.insert_rbd(
        RigidBodyBuilder::new()
            .position(v(fx(2), fx(3)))
            .rotation(quarter_turn)
            .scale(v(fx(1), fx(1)))
            .build(),
    );
    let c = physics.insert_collider_with_parent(collider, h);
    physics.update_objects(blobs::physics::FIXED_DELTA);

    let col = physics.col_set.get(c).unwrap();
    assert_eq!(col.absolute_transform.translation, v(fx(3), fx(4)));
    assert_eq!(col.absolute_transform.rotation, quarter_turn);
}
