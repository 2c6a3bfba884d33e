use barnes_hut::boid::Boid;
use barnes_hut::boundary::Boundary;
use barnes_hut::signals::{Body, TreeState};
use barnes_hut::traits::{Intersect, Mass};
use barnes_hut::vector::Vector2;

#[test]
fn vector_arithmetic_is_componentwise() {
    let a = Vector2::new(3, -4);
    let b = Vector2::new(10, 7);
    assert_eq!(a.add(b), Vector2::new(13, 3));
    assert_eq!(b.sub(a), Vector2::new(7, 11));
    assert_eq!(a.mul(3), Vector2::new(9, -12));
    assert_eq!(Vector2::default(), Vector2::new(0, 0));
}

#[test]
fn vector_division_truncates_toward_zero() {
    assert_eq!(Vector2::new(7, -7).div(2), Vector2::new(3, -3));
    assert_eq!(Vector2::new(9, -1).div(3), Vector2::new(3, 0));
    assert_eq!(Vector2::new(7, -7).div(-2), Vector2::new(-3, 3));
    assert_eq!(Vector2::new(9, -9).div(-1), Vector2::new(-9, 9));
}

#[test]
fn magnitude_is_floor_of_euclidean_length() {
    assert_eq!(Vector2::new(3, 4).magnitude(), 5);
    assert_eq!(Vector2::new(-3, 4).magnitude(), 5);
    assert_eq!(Vector2::new(2, 3).magnitude(), 3);
    assert_eq!(Vector2::new(0, 0).magnitude(), 0);
    assert_eq!(Vector2::new(1, 0).magnitude(), 1);
}

#[test]
fn boundary_center_and_half_size() {
    let b = Boundary::new(Vector2::new(0, 0), Vector2::new(10, 10));
    assert_eq!(b.center(), Vector2::new(5, 5));
    assert_eq!(b.half_size(), 5);
    let c = Boundary::from_center(Vector2::new(100, 100), 50);
    assert_eq!(c.min, Vector2::new(50, 50));
    assert_eq!(c.max, Vector2::new(150, 150));
}

#[test]
fn boundary_point_containment_is_inclusive() {
    let b = Boundary::new(Vector2::new(0, 0), Vector2::new(10, 10));
    assert!(b.intersects(&Vector2::new(0, 0)));
    assert!(b.intersects(&Vector2::new(9, 9)));
    assert!(b.intersects(&Vector2::new(10, 5)));
    assert!(b.intersects(&Vector2::new(5, 10)));
    assert!(b.intersects(&Vector2::new(10, 10)));
    assert!(!b.intersects(&Vector2::new(-1, 5)));
    assert!(!b.intersects(&Vector2::new(11, 5)));
}

#[test]
fn boundary_overlap_is_inclusive_of_touching_edges() {
    let a = Boundary::new(Vector2::new(0, 0), Vector2::new(10, 10));
    let b = Boundary::new(Vector2::new(5, 5), Vector2::new(15, 15));
    let c = Boundary::new(Vector2::new(10, 0), Vector2::new(20, 10));
    let d = Boundary::new(Vector2::new(11, 0), Vector2::new(20, 10));
    assert!(a.intersects(&b));
    assert!(b.intersects(&a));
    assert!(a.intersects(&c));
    assert!(c.intersects(&a));
    assert!(!a.intersects(&d));
}

#[test]
fn boundary_contains_boid_by_position() {
    let b = Boundary::new(Vector2::new(0, 0), Vector2::new(10, 10));
    assert!(b.intersects(&Boid::new(5, 5, 1)));
    assert!(b.intersects(&Boid::new(10, 5, 1)));
    assert!(!b.intersects(&Boid::new(11, 5, 1)));
}

#[test]
fn boid_accessors_and_updates() {
    let mut b = Boid::new(3, 4, 17);
    assert_eq!(b.position(), Vector2::new(3, 4));
    assert_eq!(b.velocity(), Vector2::new(0, 0));
    assert_eq!(b.mass(), 17);
    b.set_velocity(Vector2::new(-1, 2));
    b.set_position(Vector2::new(30, 40));
    assert_eq!(b.velocity(), Vector2::new(-1, 2));
    assert_eq!(b.position(), Vector2::new(30, 40));
    assert_eq!(b.mass(), 17);
}

#[test]
fn boid_acts_as_point_mass() {
    let b = Boid::new(8, 9, 21);
    assert_eq!(Mass::mass(&b), 21);
    assert_eq!(Mass::center_of_mass(&b), Vector2::new(8, 9));
}

#[test]
fn snapshot_types_carry_their_fields() {
    let b = Boid::new(1, 2, 3);
    let s = Body::from_boid(&b);
    assert_eq!(s.position, Vector2::new(1, 2));
    assert_eq!(s.velocity, Vector2::new(0, 0));
    assert_eq!(s.mass, 3);
    let outer = Boundary::new(Vector2::new(0, 0), Vector2::new(8, 8));
    let t = TreeState::new(vec![outer], Vector2::new(4, 4), outer, Vector2::new(4, 4));
    assert_eq!(t.boundaries.len(), 1);
    assert_eq!(t.center_of_mass, Vector2::new(4, 4));
    assert_eq!(t.outer_bounds, outer);
    assert_eq!(t.center, Vector2::new(4, 4));
}
