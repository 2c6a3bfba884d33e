//! Read-only snapshot types handed to external consumers.

use vstd::prelude::*;

use crate::boid::Boid;
use crate::boundary::Boundary;
use crate::vector::Vector2;

verus! {

/// Snapshot of one body's state.
#[derive(Clone, Copy, Debug)]
pub struct Body {
    pub position: Vector2,
    pub velocity: Vector2,
    pub mass: i64,
}

impl Body {
    /// Snapshot of the given body.
    pub fn from_boid(b: &Boid) -> (s: Self)
        ensures
            s.position == b@.position,
            s.velocity == b@.velocity,
            s.mass as int == b@.mass,
    {
        Body { position: b.position(), velocity: b.velocity(), mass: b.mass() }
    }
}

/// Diagnostic snapshot of one tick's quadtree.
#[derive(Debug)]
pub struct TreeState {
    /// Boundaries of every undivided node, flattened.
    pub boundaries: Vec<Boundary>,
    /// Aggregate centre of mass of the whole tree.
    pub center_of_mass: Vector2,
    /// The tree's outer boundary.
    pub outer_bounds: Boundary,
    /// Centre of the outer boundary.
    pub center: Vector2,
}

impl TreeState {
    pub fn new(
        boundaries: Vec<Boundary>,
        center_of_mass: Vector2,
        outer_bounds: Boundary,
        center: Vector2,
    ) -> (t: Self)
        ensures
            t.boundaries == boundaries,
            t.center_of_mass == center_of_mass,
            t.outer_bounds == outer_bounds,
            t.center == center,
    {
        TreeState { boundaries, center_of_mass, outer_bounds, center }
    }
}

} // verus!
