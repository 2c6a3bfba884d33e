use barnes_hut::GRAVITY;
use barnes_hut::boid::Boid;
use barnes_hut::boundary::Boundary;
use barnes_hut::quadtree::{InsertionError, Quadtree};
use barnes_hut::vector::Vector2;

fn world() -> Boundary {
    Boundary::new(Vector2::new(0, 0), Vector2::new(1024, 1024))
}

/// Half-open cell containment, the reading under which the reported
/// leaves partition the padded region.
fn cell_contains(b: &Boundary, x: i64, y: i64) -> bool {
    b.min.x <= x && x < b.max.x && b.min.y <= y && y < b.max.y
}

/// Integer floor square root, for expected-value computations.
fn isqrt(n: i128) -> i128 {
    let mut r: i128 = 0;
    while (r + 1) * (r + 1) <= n {
        r += 1;
    }
    r
}

/// Truncating division, for expected-value computations.
fn tdiv(a: i128, b: i128) -> i128 {
    if a >= 0 { a / b } else { -((-a) / b) }
}

/// The library's exact pairwise force formula, recomputed independently.
fn pair_force(tm: i64, tp: (i64, i64), sm: i64, sp: (i64, i64)) -> (i64, i64) {
    let dx = (sp.0 - tp.0) as i128;
    let dy = (sp.1 - tp.1) as i128;
    let r2 = dx * dx + dy * dy;
    if r2 == 0 {
        return (0, 0);
    }
    let r = isqrt(r2);
    let c = GRAVITY as i128 * sm as i128 * tm as i128;
    (tdiv(c * dx, r2 * r) as i64, tdiv(c * dy, r2 * r) as i64)
}

#[test]
fn insert_inside_succeeds() {
    let mut t = Quadtree::new(world());
    let b = Boid::new(100, 200, 5);
    assert!(t.insert(b).is_ok());
    assert_eq!(t.bodies().len(), 1);
}

#[test]
fn insert_outside_fails_with_out_of_bounds() {
    let mut t = Quadtree::new(world());
    let b = Boid::new(2000, 50, 5);
    match t.insert(b) {
        Err(InsertionError::OutOfBounds { boundary, position }) => {
            assert_eq!(boundary, world());
            assert_eq!(position, Vector2::new(2000, 50));
        }
        Ok(()) => panic!("insertion outside the boundary must fail"),
    }
    assert_eq!(t.bodies().len(), 0);
    let below = Boid::new(-1, 10, 5);
    assert!(t.insert(below).is_err());
}

#[test]
fn insert_on_edges_succeeds() {
    // admission is inclusive on all edges of the requested region
    let mut t = Quadtree::new(world());
    assert!(t.insert(Boid::new(1024, 10, 5)).is_ok());
    assert!(t.insert(Boid::new(10, 1024, 5)).is_ok());
    assert!(t.insert(Boid::new(0, 0, 5)).is_ok());
    assert!(t.insert(Boid::new(1024, 1024, 5)).is_ok());
    assert!(t.insert(Boid::new(1025, 10, 5)).is_err());
    assert_eq!(t.mass(), 20);
}

#[test]
fn aggregate_mass_is_sum_of_masses() {
    let mut t = Quadtree::new(world());
    assert!(t.insert(Boid::new(10, 10, 3)).is_ok());
    assert!(t.insert(Boid::new(600, 20, 5)).is_ok());
    assert!(t.insert(Boid::new(20, 700, 7)).is_ok());
    assert_eq!(t.mass(), 15);
}

#[test]
fn two_body_center_of_mass() {
    let mut t = Quadtree::new(world());
    assert!(t.insert(Boid::new(0, 0, 1)).is_ok());
    assert!(t.insert(Boid::new(400, 400, 3)).is_ok());
    // (1 * (0, 0) + 3 * (400, 400)) / 4 == (300, 300)
    assert_eq!(t.center_of_mass(), Vector2::new(300, 300));
    assert_eq!(t.mass(), 4);
}

#[test]
fn empty_tree_center_of_mass_is_region_center() {
    // the padded region over [0, 1024]^2 is the square of side 2048
    let t = Quadtree::new(world());
    assert_eq!(t.boundary(), world());
    assert_eq!(
        t.outer_bounds(),
        Boundary::new(Vector2::new(0, 0), Vector2::new(2048, 2048)),
    );
    assert_eq!(t.boundaries(), vec![t.outer_bounds()]);
    assert_eq!(t.center_of_mass(), Vector2::new(1024, 1024));
    assert_eq!(t.mass(), 0);
}

#[test]
fn theta_zero_equals_brute_force() {
    let bodies = [(100i64, 100i64, 50i64), (900, 150, 70), (300, 800, 90), (511, 512, 40)];
    let mut t = Quadtree::new(world());
    for &(x, y, m) in bodies.iter() {
        assert!(t.insert(Boid::new(x, y, m)).is_ok());
    }
    for &(tx, ty, tm) in bodies.iter() {
        let target = Boid::new(tx, ty, tm);
        let f = t.calculate_force(&target, 0, 1);
        let mut ex: i64 = 0;
        let mut ey: i64 = 0;
        for &(sx, sy, sm) in bodies.iter() {
            let (px, py) = pair_force(tm, (tx, ty), sm, (sx, sy));
            ex += px;
            ey += py;
        }
        assert_eq!((f.x, f.y), (ex, ey));
    }
}

#[test]
fn lone_body_feels_zero_force() {
    let mut t = Quadtree::new(world());
    let b = Boid::new(512, 512, 1000);
    assert!(t.insert(b).is_ok());
    let f = t.calculate_force(&b, 1, 2);
    assert_eq!((f.x, f.y), (0, 0));
    let g = t.calculate_force(&b, 0, 1);
    assert_eq!((g.x, g.y), (0, 0));
}

#[test]
fn equal_masses_equal_and_opposite_force() {
    // two bodies of mass 1000 separated by 100 along x:
    // expected magnitude GRAVITY * m * m / d^2 == 100_000_000
    let m = 1000;
    let b1 = Boid::new(200, 512, m);
    let b2 = Boid::new(300, 512, m);
    let mut t = Quadtree::new(world());
    assert!(t.insert(b1).is_ok());
    assert!(t.insert(b2).is_ok());
    let f1 = t.calculate_force(&b1, 1, 2);
    let f2 = t.calculate_force(&b2, 1, 2);
    let expected = GRAVITY * m * m / (100 * 100);
    assert_eq!(expected, 100_000_000);
    assert_eq!((f1.x, f1.y), (expected, 0));
    assert_eq!((f2.x, f2.y), (-expected, 0));
}

#[test]
fn forces_between_two_bodies_are_equal_and_opposite() {
    let b1 = Boid::new(100, 300, 500);
    let b2 = Boid::new(700, 600, 2000);
    let mut t = Quadtree::new(world());
    assert!(t.insert(b1).is_ok());
    assert!(t.insert(b2).is_ok());
    let f1 = t.calculate_force(&b1, 0, 1);
    let f2 = t.calculate_force(&b2, 0, 1);
    assert!(f1.x != 0 || f1.y != 0);
    assert_eq!((f1.x + f2.x, f1.y + f2.y), (0, 0));
}

#[test]
fn boundaries_partition_the_region() {
    let mut t = Quadtree::new(world());
    for &(x, y) in [(100i64, 100i64), (900, 150), (300, 800), (511, 512), (512, 512)].iter() {
        assert!(t.insert(Boid::new(x, y, 10)).is_ok());
    }
    let leaves = t.boundaries();
    assert!(leaves.len() > 1);
    // sample points of the padded region, including shared former edges:
    // each lies in exactly one leaf cell, and points outside in none
    let samples = [
        (0i64, 0i64),
        (1023, 1023),
        (512, 512),
        (511, 511),
        (512, 0),
        (0, 512),
        (100, 100),
        (900, 150),
        (255, 256),
        (768, 767),
        (1024, 5),
        (5, 1024),
        (2047, 2047),
    ];
    for &(x, y) in samples.iter() {
        let hits = leaves.iter().filter(|b| cell_contains(b, x, y)).count();
        assert_eq!(hits, 1, "point ({x}, {y}) must lie in exactly one leaf");
    }
    for &(x, y) in [(-1i64, 5i64), (2048, 5), (5, 2048), (5000, 5000)].iter() {
        let hits = leaves.iter().filter(|b| cell_contains(b, x, y)).count();
        assert_eq!(hits, 0, "point ({x}, {y}) lies outside the region");
    }
}

#[test]
fn rebuild_from_same_list_is_identical() {
    let bodies = [(100i64, 100i64, 50i64), (900, 150, 70), (300, 800, 90)];
    let mut t1 = Quadtree::new(world());
    let mut t2 = Quadtree::new(world());
    for &(x, y, m) in bodies.iter() {
        assert!(t1.insert(Boid::new(x, y, m)).is_ok());
        assert!(t2.insert(Boid::new(x, y, m)).is_ok());
    }
    assert_eq!(t1.mass(), t2.mass());
    assert_eq!(t1.center_of_mass(), t2.center_of_mass());
}

#[test]
fn tree_records_inserted_bodies_in_order() {
    let mut t = Quadtree::new(world());
    assert!(t.insert(Boid::new(10, 20, 3)).is_ok());
    assert!(t.insert(Boid::new(30, 40, 4)).is_ok());
    let _ = t.insert(Boid::new(-5, 0, 9));
    let bodies = t.bodies();
    assert_eq!(bodies.len(), 2);
    assert_eq!(bodies[0].position, Vector2::new(10, 20));
    assert_eq!(bodies[0].mass, 3);
    assert_eq!(bodies[1].position, Vector2::new(30, 40));
    assert_eq!(bodies[1].mass, 4);
    assert_eq!(t.boundary(), world());
}
