use barnes_hut::boid::Boid;
use barnes_hut::simulation::Simulation;
use barnes_hut::vector::Vector2;

#[test]
fn empty_tick_leaves_degenerate_box() {
    let mut sim = Simulation::new();
    assert_eq!(sim.bounding_box(), (Vector2::new(0, 0), Vector2::new(1000, 1000)));
    let tree = sim.tick(1, 9, 10);
    assert_eq!(tree.bodies().len(), 0);
    assert_eq!(sim.bounding_box(), (Vector2::new(0, 0), Vector2::new(0, 0)));
    assert!(sim.tree_state().is_some());
}

#[test]
fn two_bodies_attract_exactly() {
    let mut sim = Simulation::new();
    sim.add_boid(Boid::new(100, 512, 1000));
    sim.add_boid(Boid::new(300, 512, 1000));
    assert!(sim.within_limits());
    let tree = sim.tick(1, 0, 1);
    assert_eq!(tree.bodies().len(), 2);

    // pairwise force: GRAVITY * m * m * dx / (r^2 * r) with r == 200:
    // 10^6 * 10^3 * 10^3 * 200 / (40_000 * 200) == 25_000_000
    // acceleration 25_000_000 / 1000 == 25_000; dt == 1
    let bodies = sim.bodies();
    assert_eq!(bodies[0].velocity, Vector2::new(25_000, 0));
    assert_eq!(bodies[0].position, Vector2::new(100 + 25_000, 512));
    assert_eq!(bodies[1].velocity, Vector2::new(-25_000, 0));
    assert_eq!(bodies[1].position, Vector2::new(300 - 25_000, 512));
    assert_eq!(bodies[0].mass, 1000);
    assert_eq!(bodies[1].mass, 1000);

    // the new bounding box is the exact extents of the updated positions
    assert_eq!(sim.bounding_box(), (Vector2::new(-24_700, 512), Vector2::new(25_100, 512)));
}

#[test]
fn body_on_box_edge_is_not_dropped_next_tick() {
    let mut sim = Simulation::new();
    sim.add_boid(Boid::new(100, 512, 1000));
    sim.add_boid(Boid::new(300, 512, 1000));
    let _ = sim.tick(1, 0, 1);
    // after a tick the box is the exact min/max of the new positions, so
    // two bodies sit exactly on its edges; neither may be dropped
    let (bmin, bmax) = sim.bounding_box();
    let bodies = sim.bodies();
    assert!(bodies.iter().any(|b| b.position.x == bmin.x));
    assert!(bodies.iter().any(|b| b.position.x == bmax.x));
    let tree = sim.tick(1, 0, 1);
    assert_eq!(tree.bodies().len(), 2);
}

#[test]
fn out_of_box_body_is_skipped_for_the_tick_but_still_integrated() {
    let mut sim = Simulation::new();
    // the initial box covers [0, 1000] x [0, 1000], inclusive
    sim.add_boid(Boid::new(100, 100, 1000));
    sim.add_boid(Boid::new(5000, 100, 1000));
    let tree = sim.tick(1, 0, 1);
    // the second body lies outside the box: skipped for this tick
    assert_eq!(tree.bodies().len(), 1);
    // both bodies were still integrated; the lone tree body felt nothing
    let bodies = sim.bodies();
    assert_eq!(bodies.len(), 2);
    assert_eq!(bodies[0].velocity, Vector2::new(0, 0));
    assert_eq!(bodies[0].position, Vector2::new(100, 100));
    // the box now covers both, so the next tick keeps both
    let tree2 = sim.tick(1, 0, 1);
    assert_eq!(tree2.bodies().len(), 2);
}

#[test]
fn colocated_second_body_is_skipped() {
    let mut sim = Simulation::new();
    sim.add_boid(Boid::new(100, 100, 10));
    sim.add_boid(Boid::new(100, 100, 20));
    let tree = sim.tick(1, 9, 10);
    assert_eq!(tree.bodies().len(), 1);
    assert_eq!(tree.mass(), 10);
    assert_eq!(sim.bodies().len(), 2);
}

#[test]
fn snapshot_reports_tree_diagnostics() {
    let mut sim = Simulation::new();
    sim.add_boid(Boid::new(0, 0, 1));
    sim.add_boid(Boid::new(400, 400, 3));
    let tree = sim.tick(1, 9, 10);
    let state = sim.tree_state().as_ref().expect("a tick publishes a snapshot");
    assert_eq!(state.boundaries.len(), tree.boundaries().len());
    assert_eq!(state.center_of_mass, tree.center_of_mass());
    assert_eq!(state.outer_bounds, tree.outer_bounds());
    assert_eq!(tree.boundary().max, Vector2::new(1000, 1000));
    // the outer bounds cover the prior box [0, 1000)^2 from its corner
    assert_eq!(state.outer_bounds.min, Vector2::new(0, 0));
    assert!(state.outer_bounds.max.x > 1000 && state.outer_bounds.max.y > 1000);
}

#[test]
fn within_limits_detects_excursions() {
    let mut sim = Simulation::new();
    // two very heavy bodies one unit apart: an enormous force
    sim.add_boid(Boid::new(100, 100, 500_000));
    sim.add_boid(Boid::new(101, 100, 500_000));
    assert!(sim.within_limits());
    // a long timestep flings both far outside the range a tick accepts
    let _ = sim.tick(256, 0, 1);
    assert!(!sim.within_limits());
}

#[test]
fn enclosing_boundary_covers_the_box_inclusively() {
    let b = barnes_hut::quadtree::enclosing_boundary(
        Vector2::new(0, 0),
        Vector2::new(1000, 1000),
    );
    assert_eq!(b.min, Vector2::new(0, 0));
    assert_eq!(b.max, Vector2::new(1024, 1024));
    let c = barnes_hut::quadtree::enclosing_boundary(
        Vector2::new(-3, -3),
        Vector2::new(-3, -3),
    );
    assert_eq!(c.min, Vector2::new(-3, -3));
    assert_eq!(c.max, Vector2::new(-2, -2));
}

#[test]
fn registry_snapshot_preserves_registration_order() {
    let mut sim = Simulation::new();
    sim.add_boid(Boid::new(1, 2, 3));
    sim.add_boid(Boid::new(4, 5, 6));
    let bodies = sim.bodies();
    assert_eq!(bodies.len(), 2);
    assert_eq!(bodies[0].position, Vector2::new(1, 2));
    assert_eq!(bodies[0].mass, 3);
    assert_eq!(bodies[1].position, Vector2::new(4, 5));
    assert_eq!(bodies[1].mass, 6);
}
