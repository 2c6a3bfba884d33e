//! Traits shared by the spatial types.

use vstd::prelude::*;

use crate::vector::Vector2;

verus! {

/// A containment or overlap test, with its spec-level meaning.
pub trait Intersect<T> {
    /// What `intersects` decides.
    spec fn intersects_spec(&self, other: &T) -> bool;

    fn intersects(&self, other: &T) -> (r: bool)
        ensures
            r == self.intersects_spec(other),
    ;
}

/// Anything that carries a mass concentrated at a point.
pub trait Mass {
    spec fn mass_spec(&self) -> int;

    spec fn center_of_mass_spec(&self) -> Vector2;

    fn mass(&self) -> (m: i64)
        ensures
            m as int == self.mass_spec(),
    ;

    fn center_of_mass(&self) -> (c: Vector2)
        ensures
            c == self.center_of_mass_spec(),
    ;
}

} // verus!
