//! Axis-aligned square regions, the basis of the spatial subdivision.
//!
//! A boundary's public containment and overlap tests are inclusive on all
//! edges: a point exactly on `min` or `max` intersects, and rectangles that
//! merely touch overlap. This inclusivity is what lets a body sitting
//! exactly on a computed bounding-box edge be accepted.
//!
//! Subdivision works with a second, half-open reading of the same value:
//! `covers` takes `[min, max)` on both axes, so the four quadrants of a
//! region cover each point exactly once and a body on a former shared edge
//! is aggregated exactly once. The quadtree checks admission against the
//! inclusive test and places bodies by the half-open one, over a region
//! padded beyond the requested box.

use vstd::prelude::*;

use crate::WORLD_LIMIT;
use crate::boid::Boid;
use crate::math::is_pow2;
use crate::traits::Intersect;
use crate::vector::Vector2;

verus! {

/// An axis-aligned square region between `min` and `max`.
#[derive(Clone, Copy, PartialEq, Eq, Structural, Debug)]
pub struct Boundary {
    pub min: Vector2,
    pub max: Vector2,
}

impl Boundary {
    /// Side length.
    pub open spec fn side(self) -> int {
        self.max.x - self.min.x
    }

    /// A region the quadtree can subdivide: square, power-of-two side,
    /// inside the world's coordinate range. On the integer lattice only a
    /// power-of-two side keeps every level's quadrants four equal squares.
    pub open spec fn wf(self) -> bool {
        &&& self.max.x - self.min.x == self.max.y - self.min.y
        &&& is_pow2(self.side())
        &&& -WORLD_LIMIT <= self.min.x
        &&& self.max.x <= WORLD_LIMIT
        &&& -WORLD_LIMIT <= self.min.y
        &&& self.max.y <= WORLD_LIMIT
    }

    /// Point containment, inclusive on both edges of both axes.
    pub open spec fn contains_point(self, p: Vector2) -> bool {
        &&& self.min.x <= p.x <= self.max.x
        &&& self.min.y <= p.y <= self.max.y
    }

    /// Cell containment, inclusive at `min` and exclusive at `max`: the
    /// half-open reading under which quadrants cover a point exactly once.
    pub open spec fn covers(self, p: Vector2) -> bool {
        &&& self.min.x <= p.x < self.max.x
        &&& self.min.y <= p.y < self.max.y
    }

    /// The two regions overlap, inclusive of touching edges.
    pub open spec fn overlaps(self, other: Boundary) -> bool {
        &&& self.min.x <= other.max.x
        &&& other.min.x <= self.max.x
        &&& self.min.y <= other.max.y
        &&& other.min.y <= self.max.y
    }

    pub fn new(min: Vector2, max: Vector2) -> (b: Self)
        ensures
            b == (Boundary { min, max }),
    {
        Boundary { min, max }
    }

    /// The square of side `2 * halfwidth` centred at `center`.
    pub fn from_center(center: Vector2, halfwidth: i64) -> (b: Self)
        requires
            halfwidth >= 0,
            i64::MIN <= center.x - halfwidth,
            i64::MIN <= center.y - halfwidth,
            center.x + halfwidth <= i64::MAX,
            center.y + halfwidth <= i64::MAX,
        ensures
            b.min.x == center.x - halfwidth,
            b.min.y == center.y - halfwidth,
            b.max.x == center.x + halfwidth,
            b.max.y == center.y + halfwidth,
    {
        let min = Vector2 { x: center.x - halfwidth, y: center.y - halfwidth };
        let max = Vector2 { x: center.x + halfwidth, y: center.y + halfwidth };
        Boundary { min, max }
    }

    /// The midpoint, with halves rounded down.
    pub fn center(&self) -> (c: Vector2)
        requires
            self.min.x <= self.max.x,
            self.min.y <= self.max.y,
            self.max.x - self.min.x <= i64::MAX,
            self.max.y - self.min.y <= i64::MAX,
        ensures
            c.x == self.min.x + (self.max.x - self.min.x) / 2,
            c.y == self.min.y + (self.max.y - self.min.y) / 2,
    {
        let width = ((self.max.x - self.min.x) as u64) / 2;
        let height = ((self.max.y - self.min.y) as u64) / 2;
        Vector2 { x: self.min.x + width as i64, y: self.min.y + height as i64 }
    }

    /// Half the side length, rounded down.
    pub fn half_size(&self) -> (h: i64)
        requires
            self.min.x <= self.max.x,
            self.max.x - self.min.x <= i64::MAX,
        ensures
            h == (self.max.x - self.min.x) / 2,
    {
        (((self.max.x - self.min.x) as u64) / 2) as i64
    }
}

impl Intersect<Vector2> for Boundary {
    open spec fn intersects_spec(&self, other: &Vector2) -> bool {
        self.contains_point(*other)
    }

    fn intersects(&self, other: &Vector2) -> (r: bool)
    {
        self.min.x <= other.x && other.x <= self.max.x && self.min.y <= other.y && other.y
            <= self.max.y
    }
}

impl Intersect<Boundary> for Boundary {
    open spec fn intersects_spec(&self, other: &Boundary) -> bool {
        self.overlaps(*other)
    }

    fn intersects(&self, other: &Boundary) -> (r: bool)
    {
        self.min.x <= other.max.x && other.min.x <= self.max.x && self.min.y <= other.max.y
            && other.min.y <= self.max.y
    }
}

impl Intersect<Boid> for Boundary {
    open spec fn intersects_spec(&self, other: &Boid) -> bool {
        self.contains_point(other@.position)
    }

    fn intersects(&self, other: &Boid) -> (r: bool)
    {
        let p = other.position();
        self.min.x <= p.x && p.x <= self.max.x && self.min.y <= p.y && p.y <= self.max.y
    }
}

} // verus!
