//! Bounding boxes and fixed-point arithmetic edges.

use blobs::aabb::Aabb;
use blobs::fx::{FX_LIM, FX_ONE};
use blobs::vec2::Vec2;

fn v(x: i64, y: i64) -> Vec2 {
    Vec2 { x, y }
}

#[test]
fn aabb_contains_and_intersects() {
    let b = Aabb::from_two_points(v(FX_ONE, 0), v(0, FX_ONE));
    assert_eq!(b.min, v(0, 0));
    assert_eq!(b.max, v(FX_ONE, FX_ONE));
    assert!(b.contains(v(0, 0)));
    assert!(b.contains(v(FX_ONE / 2, FX_ONE)));
    assert!(!b.contains(v(-1, 0)));

    let c = Aabb::new(v(FX_ONE, FX_ONE), v(2 * FX_ONE, 2 * FX_ONE));
    assert!(b.intersects(&c));
    let d = Aabb::new(v(3 * FX_ONE, 0), v(4 * FX_ONE, FX_ONE));
    assert!(!b.intersects(&d));
}

#[test]
fn aabb_center_size_round_trip() {
    let b = Aabb::from_center_size(v(FX_ONE, -FX_ONE), v(2 * FX_ONE, 4 * FX_ONE));
    assert_eq!(b.min, v(0, -3 * FX_ONE));
    assert_eq!(b.max, v(2 * FX_ONE, FX_ONE));
    assert_eq!(b.center(), v(FX_ONE, -FX_ONE));
    assert_eq!(b.size(), v(2 * FX_ONE, 4 * FX_ONE));
}

#[test]
fn aabb_expansion() {
    let mut b = Aabb::new(v(0, 0), v(FX_ONE, FX_ONE));
    b.expand_to_include_point(v(-FX_ONE, 2 * FX_ONE));
    assert_eq!(b.min, v(-FX_ONE, 0));
    assert_eq!(b.max, v(FX_ONE, 2 * FX_ONE));
    let other = Aabb::new(v(-2 * FX_ONE, 0), v(0, 3 * FX_ONE));
    b.expand_to_include_aabb(&other);
    assert_eq!(b.min, v(-2 * FX_ONE, 0));
    assert_eq!(b.max, v(FX_ONE, 3 * FX_ONE));
}

#[test]
fn saturation_holds_values_at_the_world_bound() {
    // moving a spatial point beyond the bound saturates its position
    let mut hash = blobs::spatial::SpatialHash::new(FX_ONE);
    let p = hash.insert(v(FX_LIM - 5, 0), 0);
    hash.move_point(p, v(100, 0)).unwrap();
    let point = hash.get_point(p).unwrap();
    assert_eq!(point.position, v(FX_LIM, 0));
}
