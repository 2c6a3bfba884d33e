//! A point mass with position, velocity and a fixed mass.
//!
//! Position and velocity are mutated only by the stepping loop, once per
//! tick; the mass is set at creation and never changes. Concurrent sharing
//! of bodies between the stepping loop and snapshot readers is the embedding
//! application's concern, not the library's.

use vstd::prelude::*;

use crate::traits::Mass;
use crate::vector::Vector2;

verus! {

/// Mathematical view of a body: a position, a velocity and a mass.
pub ghost struct BoidView {
    pub position: Vector2,
    pub velocity: Vector2,
    pub mass: int,
}

/// A simulated body.
#[derive(Clone, Copy, Debug)]
pub struct Boid {
    position: Vector2,
    velocity: Vector2,
    mass: i64,
}

impl View for Boid {
    type V = BoidView;

    closed spec fn view(&self) -> BoidView {
        BoidView { position: self.position, velocity: self.velocity, mass: self.mass as int }
    }
}

impl Boid {
    /// A body at `(x, y)` with the given mass and zero initial velocity.
    pub fn new(x: i64, y: i64, mass: i64) -> (b: Self)
        ensures
            b@.position == (Vector2 { x, y }),
            b@.velocity == (Vector2 { x: 0i64, y: 0i64 }),
            b@.mass == mass,
    {
        Boid { position: Vector2 { x, y }, velocity: Vector2 { x: 0, y: 0 }, mass }
    }

    pub fn position(&self) -> (p: Vector2)
        ensures
            p == self@.position,
    {
        self.position
    }

    pub fn velocity(&self) -> (v: Vector2)
        ensures
            v == self@.velocity,
    {
        self.velocity
    }

    pub fn mass(&self) -> (m: i64)
        ensures
            m as int == self@.mass,
    {
        self.mass
    }

    pub fn set_position(&mut self, position: Vector2)
        ensures
            final(self)@.position == position,
            final(self)@.velocity == old(self)@.velocity,
            final(self)@.mass == old(self)@.mass,
    {
        self.position = position;
    }

    pub fn set_velocity(&mut self, velocity: Vector2)
        ensures
            final(self)@.velocity == velocity,
            final(self)@.position == old(self)@.position,
            final(self)@.mass == old(self)@.mass,
    {
        self.velocity = velocity;
    }
}

impl Mass for Boid {
    open spec fn mass_spec(&self) -> int {
        self@.mass
    }

    open spec fn center_of_mass_spec(&self) -> Vector2 {
        self@.position
    }

    fn mass(&self) -> (m: i64)
    {
        self.mass
    }

    fn center_of_mass(&self) -> (c: Vector2)
    {
        self.position
    }
}

} // verus!
