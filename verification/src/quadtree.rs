//! The Barnes-Hut region quadtree.
//!
//! A tree is requested over a region whose edges admit bodies inclusively,
//! and subdivides a padded power-of-two square strictly beyond it, so every
//! admitted position falls in exactly one half-open cell.
//! A node covers one such cell and is in one of three states:
//! empty, holding a single body, or subdivided into four equal quadrants.
//! Each node keeps the exact aggregate mass and mass moment (the sum of
//! `mass * position` over the bodies in its subtree), so the centre of mass
//! is the moment divided by the mass. Trees are rebuilt from scratch every
//! tick and hold no state across ticks.

use vstd::prelude::*;

use crate::BOX_LIMIT;
use crate::GRAVITY;
use crate::MASS_LIMIT;
use crate::THETA_LIMIT;
use crate::WORLD_LIMIT;
use crate::boid::Boid;
use crate::math::sqrt_floor;
use crate::math::tdiv;
use vstd::multiset::Multiset;
use crate::boid::BoidView;
use crate::boundary::Boundary;
use crate::signals::Body;
use crate::traits::Intersect;
use crate::vector::Vector2;

verus! {

/// The single recoverable error: a body's position does not lie inside the
/// boundary of the node it was inserted into.
#[derive(Clone, Copy, PartialEq, Eq, Structural, Debug)]
pub enum InsertionError {
    OutOfBounds { boundary: Boundary, position: Vector2 },
}

pub type InsertionResult = Result<(), InsertionError>;

/// One quadtree node. `body` and `children` are never both present:
/// both absent is the empty state, `body` alone is the single-body state,
/// `children` alone is the subdivided state.
struct Node {
    boundary: Boundary,
    mass: i64,
    moment_x: i128,
    moment_y: i128,
    body: Option<Boid>,
    children: Option<Box<Quad>>,
}

/// The four quadrants of a subdivided node, in the fixed order
/// low-x/low-y, low-x/high-y, high-x/low-y, high-x/high-y.
struct Quad {
    q0: Node,
    q1: Node,
    q2: Node,
    q3: Node,
}

/// Sum of the masses of a sequence of bodies.
pub open spec fn agg_mass(s: Seq<BoidView>) -> int
    decreases s.len(),
{
    if s.len() == 0 {
        0
    } else {
        agg_mass(s.drop_last()) + s.last().mass
    }
}

/// Sum of `mass * position.x` over a sequence of bodies.
pub open spec fn agg_mx(s: Seq<BoidView>) -> int
    decreases s.len(),
{
    if s.len() == 0 {
        0
    } else {
        agg_mx(s.drop_last()) + s.last().mass * s.last().position.x
    }
}

/// Sum of `mass * position.y` over a sequence of bodies.
pub open spec fn agg_my(s: Seq<BoidView>) -> int
    decreases s.len(),
{
    if s.len() == 0 {
        0
    } else {
        agg_my(s.drop_last()) + s.last().mass * s.last().position.y
    }
}

/// The aggregates distribute over concatenation.
pub proof fn lemma_agg_concat(a: Seq<BoidView>, b: Seq<BoidView>)
    ensures
        agg_mass(a + b) == agg_mass(a) + agg_mass(b),
        agg_mx(a + b) == agg_mx(a) + agg_mx(b),
        agg_my(a + b) == agg_my(a) + agg_my(b),
    decreases b.len(),
{
    if b.len() == 0 {
        assert(a + b =~= a);
    } else {
        lemma_agg_concat(a, b.drop_last());
        assert((a + b).drop_last() =~= a + b.drop_last());
        assert((a + b).last() == b.last());
    }
}

/// Aggregates of a sequence of bodies with unit-or-larger masses and
/// positions within `w` of the origin: the mass dominates the length and
/// the moments are bounded by `mass * w`.
pub proof fn lemma_agg_bounds(s: Seq<BoidView>, w: int)
    requires
        w >= 0,
        forall|i: int| 0 <= i < s.len() ==> (#[trigger] s[i]).mass >= 1,
        forall|i: int|
            0 <= i < s.len() ==> -w <= (#[trigger] s[i]).position.x <= w && -w
                <= s[i].position.y <= w,
    ensures
        agg_mass(s) >= s.len(),
        -(agg_mass(s) * w) <= agg_mx(s) <= agg_mass(s) * w,
        -(agg_mass(s) * w) <= agg_my(s) <= agg_mass(s) * w,
    decreases s.len(),
{
    if s.len() == 0 {
        assert(agg_mass(s) * w == 0) by (nonlinear_arith)
            requires agg_mass(s) == 0,
        ;
    } else {
        let t = s.drop_last();
        let b = s.last();
        lemma_agg_bounds(t, w);
        assert(-(b.mass * w) <= b.mass * b.position.x <= b.mass * w) by (nonlinear_arith)
            requires b.mass >= 1, -w <= b.position.x <= w,
        ;
        assert(-(b.mass * w) <= b.mass * b.position.y <= b.mass * w) by (nonlinear_arith)
            requires b.mass >= 1, -w <= b.position.y <= w,
        ;
        assert((agg_mass(t) + b.mass) * w == agg_mass(t) * w + b.mass * w) by (nonlinear_arith);
    }
}

/// `c` is quadrant `i` of `p`, where `h` is half of `p`'s side.
pub open spec fn is_quadrant(p: Boundary, c: Boundary, i: int) -> bool {
    let h = p.side() / 2;
    let ox: int = if i == 2 || i == 3 {
        h
    } else {
        0
    };
    let oy: int = if i == 1 || i == 3 {
        h
    } else {
        0
    };
    &&& c.min.x == p.min.x + ox
    &&& c.min.y == p.min.y + oy
    &&& c.max.x == c.min.x + h
    &&& c.max.y == c.min.y + h
}

/// Quadrants of a well-formed region of side at least 2 are themselves
/// well-formed, lie inside the parent, and partition it exactly: every
/// point of the parent lies in exactly one quadrant.
pub proof fn lemma_quadrant_facts(p: Boundary, c: Boundary, i: int)
    requires
        p.wf(),
        p.side() >= 2,
        0 <= i < 4,
        is_quadrant(p, c, i),
    ensures
        c.wf(),
        c.side() == p.side() / 2,
        forall|pt: Vector2| c.covers(pt) ==> p.covers(pt),
{
    crate::math::lemma_pow2_half(p.side());
}

/// Every point of a parent of side at least 2 lies in exactly one quadrant.
pub proof fn lemma_quadrant_partition(
    p: Boundary,
    c0: Boundary,
    c1: Boundary,
    c2: Boundary,
    c3: Boundary,
    pt: Vector2,
)
    requires
        p.wf(),
        p.side() >= 2,
        is_quadrant(p, c0, 0),
        is_quadrant(p, c1, 1),
        is_quadrant(p, c2, 2),
        is_quadrant(p, c3, 3),
    ensures
        p.covers(pt) <==> (c0.covers(pt) || c1.covers(pt)
            || c2.covers(pt) || c3.covers(pt)),
        c0.covers(pt) ==> !c1.covers(pt) && !c2.covers(pt)
            && !c3.covers(pt),
        c1.covers(pt) ==> !c0.covers(pt) && !c2.covers(pt)
            && !c3.covers(pt),
        c2.covers(pt) ==> !c0.covers(pt) && !c1.covers(pt)
            && !c3.covers(pt),
        c3.covers(pt) ==> !c0.covers(pt) && !c1.covers(pt)
            && !c2.covers(pt),
{
    crate::math::lemma_pow2_half(p.side());
}

/// A well-formed region of side 1 holds exactly one lattice point.
pub proof fn lemma_unit_region_single_point(b: Boundary, p: Vector2, q: Vector2)
    requires
        b.wf(),
        b.side() == 1,
        b.covers(p),
        b.covers(q),
    ensures
        p == q,
{
}

impl Node {
    /// The bodies stored in this subtree, in tree order.
    spec fn bodies(self) -> Seq<BoidView>
        decreases self,
    {
        match self.children {
            Some(q) => q.q0.bodies() + q.q1.bodies() + q.q2.bodies() + q.q3.bodies(),
            None => match self.body {
                Some(b) => seq![b@],
                None => Seq::empty(),
            },
        }
    }

    /// Structural well-formedness: a square power-of-two boundary; at most
    /// one of `body` and `children` present; aggregates equal to the exact
    /// sums over the stored bodies; every body inside the boundary; children
    /// forming the four quadrants of the boundary.
    spec fn wf(self) -> bool
        decreases self,
    {
        &&& self.boundary.wf()
        &&& !(self.body is Some && self.children is Some)
        &&& 0 <= self.mass <= MASS_LIMIT
        &&& self.mass as int == agg_mass(self.bodies())
        &&& self.moment_x as int == agg_mx(self.bodies())
        &&& self.moment_y as int == agg_my(self.bodies())
        &&& (forall|i: int|
            0 <= i < self.bodies().len() ==> #[trigger] self.bodies()[i].mass >= 1)
        &&& (forall|i: int|
            0 <= i < self.bodies().len() ==> self.boundary.covers(
                #[trigger] self.bodies()[i].position,
            ))
        &&& match self.body {
            Some(b) => self.bodies() == seq![b@],
            None => true,
        }
        &&& match self.children {
            Some(q) => {
                &&& self.boundary.side() >= 2
                &&& q.q0.wf()
                &&& q.q1.wf()
                &&& q.q2.wf()
                &&& q.q3.wf()
                &&& is_quadrant(self.boundary, q.q0.boundary, 0)
                &&& is_quadrant(self.boundary, q.q1.boundary, 1)
                &&& is_quadrant(self.boundary, q.q2.boundary, 2)
                &&& is_quadrant(self.boundary, q.q3.boundary, 3)
            },
            None => true,
        }
    }

    /// A fresh, empty node covering `boundary`.
    fn new(boundary: Boundary) -> (n: Node)
        requires
            boundary.wf(),
        ensures
            n.wf(),
            n.bodies() == Seq::<BoidView>::empty(),
            n.boundary == boundary,
            n.mass == 0i64,
            n.moment_x == 0i128,
            n.moment_y == 0i128,
            n.body is None,
            n.children is None,
    {
        let n = Node {
            boundary,
            mass: 0,
            moment_x: 0,
            moment_y: 0,
            body: None,
            children: None,
        };
        proof {
            assert(n.bodies() =~= Seq::<BoidView>::empty());
        }
        n
    }
}

/// `post`'s body multiset and aggregates are `pre`'s plus one body `b`.
spec fn absorbed(post: Node, pre: Node, b: BoidView) -> bool {
    &&& post.bodies().to_multiset() == pre.bodies().to_multiset().insert(b)
    &&& agg_mass(post.bodies()) == agg_mass(pre.bodies()) + b.mass
    &&& agg_mx(post.bodies()) == agg_mx(pre.bodies()) + b.mass * b.position.x
    &&& agg_my(post.bodies()) == agg_my(pre.bodies()) + b.mass * b.position.y
}

impl Quad {
    /// All bodies of the four quadrants, in quadrant order.
    spec fn qbodies(self) -> Seq<BoidView> {
        self.q0.bodies() + self.q1.bodies() + self.q2.bodies() + self.q3.bodies()
    }

    /// The four children are well-formed and form the quadrants of `pb`.
    spec fn qwf(self, pb: Boundary) -> bool {
        &&& self.q0.wf()
        &&& self.q1.wf()
        &&& self.q2.wf()
        &&& self.q3.wf()
        &&& is_quadrant(pb, self.q0.boundary, 0)
        &&& is_quadrant(pb, self.q1.boundary, 1)
        &&& is_quadrant(pb, self.q2.boundary, 2)
        &&& is_quadrant(pb, self.q3.boundary, 3)
    }

    /// How the concatenated body sequence indexes into the quadrants.
    proof fn lemma_qbodies_index(self)
        ensures
            self.qbodies().len() == self.q0.bodies().len() + self.q1.bodies().len()
                + self.q2.bodies().len() + self.q3.bodies().len(),
            forall|i: int|
                0 <= i < self.q0.bodies().len() ==> self.qbodies()[i] == #[trigger] self.q0.bodies()[i],
            forall|i: int|
                0 <= i < self.q1.bodies().len() ==> self.qbodies()[self.q0.bodies().len() + i]
                    == #[trigger] self.q1.bodies()[i],
            forall|i: int|
                0 <= i < self.q2.bodies().len() ==> self.qbodies()[self.q0.bodies().len()
                    + self.q1.bodies().len() + i] == #[trigger] self.q2.bodies()[i],
            forall|i: int|
                0 <= i < self.q3.bodies().len() ==> self.qbodies()[self.q0.bodies().len()
                    + self.q1.bodies().len() + self.q2.bodies().len() + i]
                    == #[trigger] self.q3.bodies()[i],
    {
    }

    /// Facts a parent recovers from well-formed quadrants: every stored body
    /// has unit-or-larger mass and lies inside the parent; the aggregates of
    /// the concatenation are the sums over the quadrants.
    proof fn lemma_wf_implies(self, pb: Boundary)
        requires
            self.qwf(pb),
            pb.wf(),
            pb.side() >= 2,
        ensures
            forall|i: int| 0 <= i < self.qbodies().len() ==> (#[trigger] self.qbodies()[i]).mass >= 1,
            forall|i: int|
                0 <= i < self.qbodies().len() ==> pb.covers(
                    (#[trigger] self.qbodies()[i]).position,
                ),
            agg_mass(self.qbodies()) == self.q0.mass + self.q1.mass + self.q2.mass + self.q3.mass,
            agg_mx(self.qbodies()) == self.q0.moment_x + self.q1.moment_x + self.q2.moment_x
                + self.q3.moment_x,
            agg_my(self.qbodies()) == self.q0.moment_y + self.q1.moment_y + self.q2.moment_y
                + self.q3.moment_y,
    {
        lemma_quadrant_facts(pb, self.q0.boundary, 0);
        lemma_quadrant_facts(pb, self.q1.boundary, 1);
        lemma_quadrant_facts(pb, self.q2.boundary, 2);
        lemma_quadrant_facts(pb, self.q3.boundary, 3);
        lemma_agg_concat(self.q0.bodies(), self.q1.bodies());
        lemma_agg_concat(self.q0.bodies() + self.q1.bodies(), self.q2.bodies());
        lemma_agg_concat(self.q0.bodies() + self.q1.bodies() + self.q2.bodies(), self.q3.bodies());
        self.lemma_qbodies_index();
    }

    /// Insert `boid` into the quadrant that contains its position.
    ///
    /// The insertion is attempted on each child in order and stops at the
    /// first success. Under the half-open cell reading the quadrants cover
    /// each point of the parent region exactly once, so exactly one child
    /// accepts and the order makes no difference.
    fn insert(&mut self, boid: Boid, pb: Ghost<Boundary>)
        requires
            pb@.wf(),
            pb@.side() >= 2,
            old(self).qwf(pb@),
            pb@.covers(boid@.position),
            1 <= boid@.mass,
            agg_mass(old(self).qbodies()) + boid@.mass <= MASS_LIMIT,
            forall|i: int|
                0 <= i < old(self).qbodies().len() ==> (#[trigger] old(self).qbodies()[i]).position
                    != boid@.position,
        ensures
            final(self).qwf(pb@),
            final(self).qbodies().to_multiset() == old(self).qbodies().to_multiset().insert(boid@),
            agg_mass(final(self).qbodies()) == agg_mass(old(self).qbodies()) + boid@.mass,
            agg_mx(final(self).qbodies()) == agg_mx(old(self).qbodies()) + boid@.mass
                * boid@.position.x,
            agg_my(final(self).qbodies()) == agg_my(old(self).qbodies()) + boid@.mass
                * boid@.position.y,
        decreases pb@.side(), 0int,
    {
        proof {
            lemma_quadrant_partition(
                pb@,
                old(self).q0.boundary,
                old(self).q1.boundary,
                old(self).q2.boundary,
                old(self).q3.boundary,
                boid@.position,
            );
            old(self).lemma_wf_implies(pb@);
            old(self).lemma_qbodies_index();
        }
        let ghost l0 = self.q0.bodies().len() as int;
        let ghost l1 = self.q1.bodies().len() as int;
        let ghost l2 = self.q2.bodies().len() as int;
        proof {
            assert forall|i: int| 0 <= i < old(self).q0.bodies().len() implies (
            #[trigger] old(self).q0.bodies()[i]).position != boid@.position by {
                assert(old(self).qbodies()[i] == old(self).q0.bodies()[i]);
            }
            assert forall|i: int| 0 <= i < old(self).q1.bodies().len() implies (
            #[trigger] old(self).q1.bodies()[i]).position != boid@.position by {
                assert(old(self).qbodies()[l0 + i] == old(self).q1.bodies()[i]);
            }
            assert forall|i: int| 0 <= i < old(self).q2.bodies().len() implies (
            #[trigger] old(self).q2.bodies()[i]).position != boid@.position by {
                assert(old(self).qbodies()[l0 + l1 + i] == old(self).q2.bodies()[i]);
            }
            assert forall|i: int| 0 <= i < old(self).q3.bodies().len() implies (
            #[trigger] old(self).q3.bodies()[i]).position != boid@.position by {
                assert(old(self).qbodies()[l0 + l1 + l2 + i] == old(self).q3.bodies()[i]);
            }
        }
        let r0 = self.q0.insert(boid);
        if r0.is_ok() {
            proof {
                self.lemma_finish(*old(self), boid@);
            }
            return ;
        }
        let r1 = self.q1.insert(boid);
        if r1.is_ok() {
            proof {
                self.lemma_finish(*old(self), boid@);
            }
            return ;
        }
        let r2 = self.q2.insert(boid);
        if r2.is_ok() {
            proof {
                self.lemma_finish(*old(self), boid@);
            }
            return ;
        }
        let r3 = self.q3.insert(boid);
        proof {
            assert(r3 is Ok);
            self.lemma_finish(*old(self), boid@);
        }
    }

    /// After exactly one quadrant has absorbed `b`, the concatenation's
    /// multiset and aggregates have absorbed it too.
    proof fn lemma_finish(self, prev: Quad, b: BoidView)
        requires
            (absorbed(self.q0, prev.q0, b) && self.q1 == prev.q1 && self.q2 == prev.q2 && self.q3
                == prev.q3) || (absorbed(self.q1, prev.q1, b) && self.q0 == prev.q0 && self.q2
                == prev.q2 && self.q3 == prev.q3) || (absorbed(self.q2, prev.q2, b) && self.q0
                == prev.q0 && self.q1 == prev.q1 && self.q3 == prev.q3) || (absorbed(
                self.q3,
                prev.q3,
                b,
            ) && self.q0 == prev.q0 && self.q1 == prev.q1 && self.q2 == prev.q2),
        ensures
            self.qbodies().to_multiset() == prev.qbodies().to_multiset().insert(b),
            agg_mass(self.qbodies()) == agg_mass(prev.qbodies()) + b.mass,
            agg_mx(self.qbodies()) == agg_mx(prev.qbodies()) + b.mass * b.position.x,
            agg_my(self.qbodies()) == agg_my(prev.qbodies()) + b.mass * b.position.y,
    {
        broadcast use vstd::multiset::group_multiset_axioms;

        lemma_agg_concat(self.q0.bodies(), self.q1.bodies());
        lemma_agg_concat(self.q0.bodies() + self.q1.bodies(), self.q2.bodies());
        lemma_agg_concat(self.q0.bodies() + self.q1.bodies() + self.q2.bodies(), self.q3.bodies());
        lemma_agg_concat(prev.q0.bodies(), prev.q1.bodies());
        lemma_agg_concat(prev.q0.bodies() + prev.q1.bodies(), prev.q2.bodies());
        lemma_agg_concat(prev.q0.bodies() + prev.q1.bodies() + prev.q2.bodies(), prev.q3.bodies());
        vstd::seq_lib::lemma_multiset_commutative(self.q0.bodies(), self.q1.bodies());
        vstd::seq_lib::lemma_multiset_commutative(self.q0.bodies() + self.q1.bodies(), self.q2.bodies());
        vstd::seq_lib::lemma_multiset_commutative(
            self.q0.bodies() + self.q1.bodies() + self.q2.bodies(),
            self.q3.bodies(),
        );
        vstd::seq_lib::lemma_multiset_commutative(prev.q0.bodies(), prev.q1.bodies());
        vstd::seq_lib::lemma_multiset_commutative(prev.q0.bodies() + prev.q1.bodies(), prev.q2.bodies());
        vstd::seq_lib::lemma_multiset_commutative(
            prev.q0.bodies() + prev.q1.bodies() + prev.q2.bodies(),
            prev.q3.bodies(),
        );
        assert(self.qbodies().to_multiset() =~= prev.qbodies().to_multiset().insert(b));
    }
}

impl Node {
    /// A well-formed node's moment is bounded by `mass * WORLD_LIMIT`, and
    /// its bodies all lie within the world.
    proof fn lemma_moment_bounds(self)
        requires
            self.wf(),
        ensures
            -(self.mass * WORLD_LIMIT) <= self.moment_x <= self.mass * WORLD_LIMIT,
            -(self.mass * WORLD_LIMIT) <= self.moment_y <= self.mass * WORLD_LIMIT,
            agg_mass(self.bodies()) >= self.bodies().len(),
            forall|i: int|
                0 <= i < self.bodies().len() ==> -WORLD_LIMIT <= (
                #[trigger] self.bodies()[i]).position.x <= WORLD_LIMIT && -WORLD_LIMIT
                    <= self.bodies()[i].position.y <= WORLD_LIMIT,
    {
        assert forall|i: int| 0 <= i < self.bodies().len() implies -WORLD_LIMIT <= (
        #[trigger] self.bodies()[i]).position.x <= WORLD_LIMIT && -WORLD_LIMIT
            <= self.bodies()[i].position.y <= WORLD_LIMIT by {
            assert(self.boundary.covers(self.bodies()[i].position));
        }
        lemma_agg_bounds(self.bodies(), WORLD_LIMIT as int);
    }

    /// Fold one body into the aggregate mass and mass moment, exactly as
    /// `new_mass = mass + m`, `new_moment = moment + m * p`.
    fn update_com(&mut self, boid: &Boid)
        requires
            1 <= boid@.mass,
            0 <= old(self).mass,
            old(self).mass + boid@.mass <= MASS_LIMIT,
            -WORLD_LIMIT <= boid@.position.x <= WORLD_LIMIT,
            -WORLD_LIMIT <= boid@.position.y <= WORLD_LIMIT,
            -(old(self).mass * WORLD_LIMIT) <= old(self).moment_x <= old(self).mass * WORLD_LIMIT,
            -(old(self).mass * WORLD_LIMIT) <= old(self).moment_y <= old(self).mass * WORLD_LIMIT,
        ensures
            final(self).mass == old(self).mass + boid@.mass,
            final(self).moment_x == old(self).moment_x + boid@.mass * boid@.position.x,
            final(self).moment_y == old(self).moment_y + boid@.mass * boid@.position.y,
            final(self).boundary == old(self).boundary,
            final(self).body == old(self).body,
            final(self).children == old(self).children,
    {
        proof {
            let m0 = old(self).mass as int;
            let bm = boid@.mass;
            let px = boid@.position.x as int;
            let py = boid@.position.y as int;
            assert(m0 * WORLD_LIMIT <= MASS_LIMIT * WORLD_LIMIT) by (nonlinear_arith)
                requires 0 <= m0 <= MASS_LIMIT, WORLD_LIMIT > 0,
            ;
            assert(-(MASS_LIMIT * WORLD_LIMIT) <= bm * px <= MASS_LIMIT * WORLD_LIMIT)
                by (nonlinear_arith)
                requires 1 <= bm <= MASS_LIMIT, -WORLD_LIMIT <= px <= WORLD_LIMIT, WORLD_LIMIT > 0,
            ;
            assert(-(MASS_LIMIT * WORLD_LIMIT) <= bm * py <= MASS_LIMIT * WORLD_LIMIT)
                by (nonlinear_arith)
                requires 1 <= bm <= MASS_LIMIT, -WORLD_LIMIT <= py <= WORLD_LIMIT, WORLD_LIMIT > 0,
            ;
        }
        let m = boid.mass();
        let p = boid.position();
        self.mass = self.mass + m;
        self.moment_x = self.moment_x + (m as i128) * (p.x as i128);
        self.moment_y = self.moment_y + (m as i128) * (p.y as i128);
    }

    /// Insert a body into the subtree.
    ///
    /// Succeeds exactly when the body's position lies inside this node's
    /// boundary; otherwise the tree is left unchanged and the offending
    /// boundary and position are reported. An empty node stores the body;
    /// a single-body node subdivides into four quadrants, moves its occupant
    /// down, then places the new body; a subdivided node places the body in
    /// the quadrant that contains it. On success the node's aggregate mass
    /// and moment absorb the new body.
    fn insert(&mut self, boid: Boid) -> (r: InsertionResult)
        requires
            old(self).wf(),
            1 <= boid@.mass,
            old(self).mass + boid@.mass <= MASS_LIMIT,
            forall|i: int|
                0 <= i < old(self).bodies().len() ==> (#[trigger] old(self).bodies()[i]).position
                    != boid@.position,
        ensures
            final(self).wf(),
            final(self).boundary == old(self).boundary,
            old(self).boundary.covers(boid@.position) ==> {
                &&& r is Ok
                &&& final(self).bodies().to_multiset() == old(self).bodies().to_multiset().insert(
                    boid@,
                )
                &&& final(self).mass == old(self).mass + boid@.mass
                &&& final(self).moment_x == old(self).moment_x + boid@.mass * boid@.position.x
                &&& final(self).moment_y == old(self).moment_y + boid@.mass * boid@.position.y
            },
            !old(self).boundary.covers(boid@.position) ==> {
                &&& r == Err::<(), InsertionError>(
                    InsertionError::OutOfBounds {
                        boundary: old(self).boundary,
                        position: boid@.position,
                    },
                )
                &&& *final(self) == *old(self)
            },
        decreases old(self).boundary.side(), 1int,
    {
        let p = boid.position();
        if !(self.boundary.min.x <= p.x && p.x < self.boundary.max.x && self.boundary.min.y <= p.y
            && p.y < self.boundary.max.y) {
            return Err(
                InsertionError::OutOfBounds { boundary: self.boundary, position: p },
            );
        }
        proof {
            old(self).lemma_moment_bounds();
        }
        if self.children.is_some() {
            let mut q = self.children.take().unwrap();
            proof {
                assert(old(self).bodies() == q.qbodies());
            }
            q.insert(boid, Ghost(self.boundary));
            self.children = Some(q);
            self.update_com(&boid);
            proof {
                self.children.unwrap().lemma_wf_implies(self.boundary);
                assert(self.bodies() == self.children.unwrap().qbodies());
            }
            Ok(())
        } else if self.body.is_some() {
            let existing = self.body.take().unwrap();
            proof {
                if old(self).boundary.side() == 1 {
                    lemma_unit_region_single_point(
                        old(self).boundary,
                        existing@.position,
                        boid@.position,
                    );
                    assert(old(self).bodies()[0] == existing@);
                    assert(false);
                }
                crate::math::lemma_pow2_half(old(self).boundary.side());
            }
            let h = self.boundary.half_size();
            let minx = self.boundary.min.x;
            let miny = self.boundary.min.y;
            let b0 = Boundary {
                min: Vector2 { x: minx, y: miny },
                max: Vector2 { x: minx + h, y: miny + h },
            };
            let b1 = Boundary {
                min: Vector2 { x: minx, y: miny + h },
                max: Vector2 { x: minx + h, y: miny + h + h },
            };
            let b2 = Boundary {
                min: Vector2 { x: minx + h, y: miny },
                max: Vector2 { x: minx + h + h, y: miny + h },
            };
            let b3 = Boundary {
                min: Vector2 { x: minx + h, y: miny + h },
                max: Vector2 { x: minx + h + h, y: miny + h + h },
            };
            proof {
                assert(is_quadrant(old(self).boundary, b0, 0));
                assert(is_quadrant(old(self).boundary, b1, 1));
                assert(is_quadrant(old(self).boundary, b2, 2));
                assert(is_quadrant(old(self).boundary, b3, 3));
                lemma_quadrant_facts(old(self).boundary, b0, 0);
                lemma_quadrant_facts(old(self).boundary, b1, 1);
                lemma_quadrant_facts(old(self).boundary, b2, 2);
                lemma_quadrant_facts(old(self).boundary, b3, 3);
            }
            let mut q = Box::new(
                Quad { q0: Node::new(b0), q1: Node::new(b1), q2: Node::new(b2), q3: Node::new(b3) },
            );
            proof {
                broadcast use vstd::seq_lib::group_to_multiset_ensures;
                broadcast use vstd::multiset::group_multiset_axioms;

                assert(q.qbodies() =~= Seq::<BoidView>::empty());
                assert(old(self).bodies() == seq![existing@]);
                assert(old(self).bodies()[0] == existing@);
                assert(seq![existing@].drop_last() =~= Seq::<BoidView>::empty());
                assert(agg_mass(old(self).bodies()) == existing@.mass);
                assert(q.qbodies().to_multiset() =~= Multiset::<BoidView>::empty());
            }
            q.insert(existing, Ghost(self.boundary));
            proof {
                lemma_singleton_multiset(q.qbodies(), existing@);
                assert(q.qbodies()[0] == existing@);
            }
            q.insert(boid, Ghost(self.boundary));
            self.children = Some(q);
            self.update_com(&boid);
            proof {
                broadcast use vstd::seq_lib::group_to_multiset_ensures;
                broadcast use vstd::multiset::group_multiset_axioms;

                self.children.unwrap().lemma_wf_implies(self.boundary);
                assert(self.bodies() == self.children.unwrap().qbodies());
                assert(Seq::<BoidView>::empty().push(existing@) =~= seq![existing@]);
                assert(old(self).bodies().to_multiset() =~= Multiset::<BoidView>::empty().insert(
                    existing@,
                ));
            }
            Ok(())
        } else {
            proof {
                assert(old(self).bodies() =~= Seq::<BoidView>::empty());
            }
            self.update_com(&boid);
            self.body = Some(boid);
            proof {
                broadcast use vstd::seq_lib::group_to_multiset_ensures;
                broadcast use vstd::multiset::group_multiset_axioms;

                assert(self.bodies() == seq![boid@]);
                assert(seq![boid@].drop_last() =~= Seq::<BoidView>::empty());
                assert(agg_mass(self.bodies()) == boid@.mass);
                assert(agg_mx(self.bodies()) == boid@.mass * boid@.position.x);
                assert(agg_my(self.bodies()) == boid@.mass * boid@.position.y);
                assert(Seq::<BoidView>::empty().push(boid@) =~= seq![boid@]);
                assert(old(self).bodies().to_multiset() =~= Multiset::<BoidView>::empty());
                assert(self.bodies().to_multiset() =~= old(self).bodies().to_multiset().insert(
                    boid@,
                ));
            }
            Ok(())
        }
    }
}

/// Exact integer form of the gravitational force of a point mass `sm` at
/// `(spx, spy)` on a body of mass `tm` at `(tpx, tpy)`: magnitude
/// `g * sm * tm / r^2` directed from the body toward the point mass,
/// componentwise `f = g * sm * tm * d / (r^2 * r)` with `r` the floor square
/// root of the squared distance; zero when the two points coincide.
pub open spec fn pair_force(
    g: int,
    tm: int,
    tpx: int,
    tpy: int,
    sm: int,
    spx: int,
    spy: int,
) -> (int, int) {
    let dx = spx - tpx;
    let dy = spy - tpy;
    let r2 = dx * dx + dy * dy;
    if r2 == 0 {
        (0, 0)
    } else {
        let r = sqrt_floor(r2 as nat) as int;
        (tdiv(g * sm * tm * dx, r2 * r), tdiv(g * sm * tm * dy, r2 * r))
    }
}

/// A pairwise force never exceeds `g * sm * tm` in either component.
pub proof fn lemma_pair_force_bound(
    g: int,
    tm: int,
    tpx: int,
    tpy: int,
    sm: int,
    spx: int,
    spy: int,
)
    requires
        0 <= g,
        0 <= tm,
        0 <= sm,
    ensures
        -(g * sm * tm) <= pair_force(g, tm, tpx, tpy, sm, spx, spy).0 <= g * sm * tm,
        -(g * sm * tm) <= pair_force(g, tm, tpx, tpy, sm, spx, spy).1 <= g * sm * tm,
{
    let dx = spx - tpx;
    let dy = spy - tpy;
    let r2 = dx * dx + dy * dy;
    let c = g * sm * tm;
    assert(c >= 0) by (nonlinear_arith)
        requires 0 <= g, 0 <= sm, 0 <= tm, c == g * sm * tm,
    ;
    if r2 == 0 {
    } else {
        assert(r2 >= 1) by (nonlinear_arith)
            requires r2 == dx * dx + dy * dy, r2 != 0,
        ;
        crate::math::lemma_sqrt_floor_bounds(r2 as nat);
        let r = sqrt_floor(r2 as nat) as int;
        if r == 0 {
            assert((0nat + 1) * (0nat + 1) == 1nat) by (nonlinear_arith);
            assert(false);
        }
        let den = r2 * r;
        assert(r2 <= den) by (nonlinear_arith)
            requires r >= 1, r2 >= 1, den == r2 * r,
        ;
        assert(-r2 <= dx <= r2 && -r2 <= dy <= r2) by (nonlinear_arith)
            requires r2 == dx * dx + dy * dy,
        ;
        assert(-(c * den) <= c * dx <= c * den) by (nonlinear_arith)
            requires c >= 0, -r2 <= dx <= r2, r2 <= den,
        ;
        assert(-(c * den) <= c * dy <= c * den) by (nonlinear_arith)
            requires c >= 0, -r2 <= dy <= r2, r2 <= den,
        ;
        assert(den > 0) by (nonlinear_arith)
            requires r2 >= 1, r >= 1, den == r2 * r,
        ;
        crate::math::lemma_tdiv_bound(c * dx, den, c);
        crate::math::lemma_tdiv_bound(c * dy, den, c);
    }
}

impl Node {
    /// The node is in the empty state.
    spec fn is_empty_node(self) -> bool {
        self.body is None && self.children is None
    }

    /// Centre of mass, x component: the moment over the mass, truncated
    /// toward zero; an empty node reports its boundary's centre.
    spec fn com_x(self) -> int {
        if self.mass == 0 {
            self.boundary.min.x + self.boundary.side() / 2
        } else {
            tdiv(self.moment_x as int, self.mass as int)
        }
    }

    /// Centre of mass, y component.
    spec fn com_y(self) -> int {
        if self.mass == 0 {
            self.boundary.min.y + self.boundary.side() / 2
        } else {
            tdiv(self.moment_y as int, self.mass as int)
        }
    }

    /// The Barnes-Hut force this subtree exerts on a body of mass `tm` at
    /// `(tpx, tpy)`, with accuracy parameter `theta = num / den`. An empty
    /// node exerts nothing. Otherwise, when the far-field criterion
    /// `side / r < theta` holds (`r` the distance to the centre of mass),
    /// the subtree acts as one point mass at its centre of mass; else a
    /// single body acts exactly and a subdivided node sums its quadrants.
    spec fn force_on(self, tpx: int, tpy: int, tm: int, num: int, den: int) -> (int, int)
        decreases self,
    {
        if self.is_empty_node() {
            (0, 0)
        } else {
            let cx = self.com_x();
            let cy = self.com_y();
            let dx = cx - tpx;
            let dy = cy - tpy;
            let r = sqrt_floor((dx * dx + dy * dy) as nat) as int;
            if r > 0 && self.boundary.side() * den < num * r {
                pair_force(GRAVITY as int, tm, tpx, tpy, self.mass as int, cx, cy)
            } else {
                match self.children {
                    Some(q) => {
                        let f0 = q.q0.force_on(tpx, tpy, tm, num, den);
                        let f1 = q.q1.force_on(tpx, tpy, tm, num, den);
                        let f2 = q.q2.force_on(tpx, tpy, tm, num, den);
                        let f3 = q.q3.force_on(tpx, tpy, tm, num, den);
                        (f0.0 + f1.0 + f2.0 + f3.0, f0.1 + f1.1 + f2.1 + f3.1)
                    },
                    None => match self.body {
                        Some(b) => pair_force(
                            GRAVITY as int,
                            tm,
                            tpx,
                            tpy,
                            self.mass as int,
                            b@.position.x as int,
                            b@.position.y as int,
                        ),
                        None => (0, 0),
                    },
                }
            }
        }
    }

    /// The force of a subtree is bounded by `GRAVITY * mass * tm`.
    proof fn lemma_force_bound(self, tpx: int, tpy: int, tm: int, num: int, den: int)
        requires
            self.wf(),
            0 <= tm,
        ensures
            -(GRAVITY * self.mass * tm) <= self.force_on(tpx, tpy, tm, num, den).0 <= GRAVITY
                * self.mass * tm,
            -(GRAVITY * self.mass * tm) <= self.force_on(tpx, tpy, tm, num, den).1 <= GRAVITY
                * self.mass * tm,
        decreases self,
    {
        let f = self.force_on(tpx, tpy, tm, num, den);
        let bound = GRAVITY * self.mass * tm;
        assert(bound >= 0) by (nonlinear_arith)
            requires self.mass >= 0, tm >= 0, GRAVITY as int > 0, bound == GRAVITY * self.mass * tm,
        ;
        if self.is_empty_node() {
        } else {
            let cx = self.com_x();
            let cy = self.com_y();
            let dx = cx - tpx;
            let dy = cy - tpy;
            let r = sqrt_floor((dx * dx + dy * dy) as nat) as int;
            if r > 0 && self.boundary.side() * den < num * r {
                lemma_pair_force_bound(GRAVITY as int, tm, tpx, tpy, self.mass as int, cx, cy);
            } else {
                match self.children {
                    Some(q) => {
                        q.q0.lemma_force_bound(tpx, tpy, tm, num, den);
                        q.q1.lemma_force_bound(tpx, tpy, tm, num, den);
                        q.q2.lemma_force_bound(tpx, tpy, tm, num, den);
                        q.q3.lemma_force_bound(tpx, tpy, tm, num, den);
                        q.lemma_wf_implies(self.boundary);
                        assert(self.bodies() == q.qbodies());
                        assert(self.mass == q.q0.mass + q.q1.mass + q.q2.mass + q.q3.mass);
                        assert(GRAVITY * (q.q0.mass + q.q1.mass + q.q2.mass + q.q3.mass) * tm
                            == GRAVITY * q.q0.mass * tm + GRAVITY * q.q1.mass * tm + GRAVITY
                            * q.q2.mass * tm + GRAVITY * q.q3.mass * tm) by (nonlinear_arith);
                    },
                    None => {
                        if self.body is Some {
                            let b = self.body->0;
                            lemma_pair_force_bound(
                                GRAVITY as int,
                                tm,
                                tpx,
                                tpy,
                                self.mass as int,
                                b@.position.x as int,
                                b@.position.y as int,
                            );
                        }
                    },
                }
            }
        }
    }

    /// The boundaries of every undivided node of the subtree, in tree order.
    spec fn leaves(self) -> Seq<Boundary>
        decreases self,
    {
        match self.children {
            Some(q) => q.q0.leaves() + q.q1.leaves() + q.q2.leaves() + q.q3.leaves(),
            None => seq![self.boundary],
        }
    }

    /// Centre of mass of the subtree; the boundary's centre when empty.
    fn center_of_mass(&self) -> (c: Vector2)
        requires
            self.wf(),
        ensures
            c.x as int == self.com_x(),
            c.y as int == self.com_y(),
            -WORLD_LIMIT <= c.x <= WORLD_LIMIT,
            -WORLD_LIMIT <= c.y <= WORLD_LIMIT,
    {
        proof {
            self.lemma_moment_bounds();
            crate::math::lemma_pow2_pos(self.boundary.side());
        }
        if self.mass == 0 {
            let c = self.boundary.center();
            proof {
                broadcast use vstd::arithmetic::div_mod::lemma_div_nonincreasing;
                broadcast use vstd::arithmetic::div_mod::lemma_div_pos_is_pos;

                assert(0 <= self.boundary.side() / 2 <= self.boundary.side());
            }
            c
        } else {
            proof {
                vstd::arithmetic::mul::lemma_mul_is_commutative(self.mass as int, WORLD_LIMIT as int);
                crate::math::lemma_tdiv_bound(
                    self.moment_x as int,
                    self.mass as int,
                    WORLD_LIMIT as int,
                );
                crate::math::lemma_tdiv_bound(
                    self.moment_y as int,
                    self.mass as int,
                    WORLD_LIMIT as int,
                );
            }
            let cx = crate::math::tdiv_i128(self.moment_x, self.mass as i128);
            let cy = crate::math::tdiv_i128(self.moment_y, self.mass as i128);
            Vector2 { x: cx as i64, y: cy as i64 }
        }
    }

    /// Evaluate the approximate force on `boid`, with `theta` given as the
    /// fraction `theta_num / theta_den`.
    fn calculate_force(&self, boid: &Boid, theta_num: i64, theta_den: i64) -> (f: Vector2)
        requires
            self.wf(),
            0 <= boid@.mass <= MASS_LIMIT,
            -WORLD_LIMIT <= boid@.position.x <= WORLD_LIMIT,
            -WORLD_LIMIT <= boid@.position.y <= WORLD_LIMIT,
            0 <= theta_num <= THETA_LIMIT,
            1 <= theta_den <= THETA_LIMIT,
        ensures
            f.x as int == self.force_on(
                boid@.position.x as int,
                boid@.position.y as int,
                boid@.mass,
                theta_num as int,
                theta_den as int,
            ).0,
            f.y as int == self.force_on(
                boid@.position.x as int,
                boid@.position.y as int,
                boid@.mass,
                theta_num as int,
                theta_den as int,
            ).1,
        decreases self,
    {
        let ghost tpx = boid@.position.x as int;
        let ghost tpy = boid@.position.y as int;
        let ghost tm = boid@.mass;
        if self.body.is_none() && self.children.is_none() {
            return Vector2 { x: 0, y: 0 };
        }
        let p = boid.position();
        let m = boid.mass();
        let com = self.center_of_mass();
        let dx = com.x as i128 - p.x as i128;
        let dy = com.y as i128 - p.y as i128;
        proof {
            assert(0 <= dx * dx <= 21267647932558653966460912964485513216i128)
                by (nonlinear_arith)
                requires -4611686018427387904i128 <= dx <= 4611686018427387904i128,
            ;
            assert(0 <= dy * dy <= 21267647932558653966460912964485513216i128)
                by (nonlinear_arith)
                requires -4611686018427387904i128 <= dy <= 4611686018427387904i128,
            ;
        }
        let r2 = dx * dx + dy * dy;
        let r = crate::math::isqrt_u128(r2 as u128);
        let s = self.boundary.max.x - self.boundary.min.x;
        proof {
            assert(0 <= (s as i128) * (theta_den as i128)
                <= 4835703278458516698824704i128) by (nonlinear_arith)
                requires 0 <= s as i128 <= 4611686018427387904i128, 1 <= theta_den as i128 <= 1048576i128,
            ;
            assert(0 <= (theta_num as i128) * (r as i128)
                <= 19342813113834066795298816i128) by (nonlinear_arith)
                requires
                    0 <= theta_num as i128 <= 1048576i128,
                    0 <= r as i128 <= 18446744073709551615i128,
            ;
        }
        let far = r > 0 && (s as i128) * (theta_den as i128) < (theta_num as i128) * (r as i128);
        if far {
            pair_force_exec(m, p, self.mass, com)
        } else if self.children.is_some() {
            let q = self.children.as_ref().unwrap();
            let f0 = q.q0.calculate_force(boid, theta_num, theta_den);
            let f1 = q.q1.calculate_force(boid, theta_num, theta_den);
            let f2 = q.q2.calculate_force(boid, theta_num, theta_den);
            let f3 = q.q3.calculate_force(boid, theta_num, theta_den);
            proof {
                assert(q.q0.wf() && q.q1.wf() && q.q2.wf() && q.q3.wf());
                q.q0.lemma_force_bound(tpx, tpy, tm, theta_num as int, theta_den as int);
                q.q1.lemma_force_bound(tpx, tpy, tm, theta_num as int, theta_den as int);
                q.q2.lemma_force_bound(tpx, tpy, tm, theta_num as int, theta_den as int);
                q.q3.lemma_force_bound(tpx, tpy, tm, theta_num as int, theta_den as int);
                assert(GRAVITY * q.q0.mass * tm <= GRAVITY * MASS_LIMIT * MASS_LIMIT)
                    by (nonlinear_arith)
                    requires 0 <= q.q0.mass <= MASS_LIMIT, 0 <= tm <= MASS_LIMIT, 0 < GRAVITY,
                ;
                assert(GRAVITY * q.q1.mass * tm <= GRAVITY * MASS_LIMIT * MASS_LIMIT)
                    by (nonlinear_arith)
                    requires 0 <= q.q1.mass <= MASS_LIMIT, 0 <= tm <= MASS_LIMIT, 0 < GRAVITY,
                ;
                assert(GRAVITY * q.q2.mass * tm <= GRAVITY * MASS_LIMIT * MASS_LIMIT)
                    by (nonlinear_arith)
                    requires 0 <= q.q2.mass <= MASS_LIMIT, 0 <= tm <= MASS_LIMIT, 0 < GRAVITY,
                ;
                assert(GRAVITY * q.q3.mass * tm <= GRAVITY * MASS_LIMIT * MASS_LIMIT)
                    by (nonlinear_arith)
                    requires 0 <= q.q3.mass <= MASS_LIMIT, 0 <= tm <= MASS_LIMIT, 0 < GRAVITY,
                ;
                assert(4 * (GRAVITY * MASS_LIMIT * MASS_LIMIT) < i64::MAX as int)
                    by (nonlinear_arith);
            }
            Vector2 { x: f0.x + f1.x + f2.x + f3.x, y: f0.y + f1.y + f2.y + f3.y }
        } else {
            let b2 = self.body.as_ref().unwrap();
            pair_force_exec(m, p, self.mass, b2.position())
        }
    }

    /// Collect the boundary of every undivided node.
    fn boundaries(&self) -> (v: Vec<Boundary>)
        ensures
            v@ == self.leaves(),
        decreases self,
    {
        match &self.children {
            Some(q) => {
                let mut v = q.q0.boundaries();
                let mut v1 = q.q1.boundaries();
                let mut v2 = q.q2.boundaries();
                let mut v3 = q.q3.boundaries();
                v.append(&mut v1);
                v.append(&mut v2);
                v.append(&mut v3);
                v
            },
            None => {
                let mut v = Vec::new();
                v.push(self.boundary);
                proof {
                    assert(v@ =~= seq![self.boundary]);
                }
                v
            },
        }
    }
}

/// Exact pairwise force between a point mass and a body, in execution form.
fn pair_force_exec(tm: i64, tp: Vector2, sm: i64, sp: Vector2) -> (f: Vector2)
    requires
        0 <= tm <= MASS_LIMIT,
        0 <= sm <= MASS_LIMIT,
        -WORLD_LIMIT <= tp.x <= WORLD_LIMIT,
        -WORLD_LIMIT <= tp.y <= WORLD_LIMIT,
        -WORLD_LIMIT <= sp.x <= WORLD_LIMIT,
        -WORLD_LIMIT <= sp.y <= WORLD_LIMIT,
    ensures
        f.x as int == pair_force(
            GRAVITY as int,
            tm as int,
            tp.x as int,
            tp.y as int,
            sm as int,
            sp.x as int,
            sp.y as int,
        ).0,
        f.y as int == pair_force(
            GRAVITY as int,
            tm as int,
            tp.x as int,
            tp.y as int,
            sm as int,
            sp.x as int,
            sp.y as int,
        ).1,
{
    let dx = sp.x as i128 - tp.x as i128;
    let dy = sp.y as i128 - tp.y as i128;
    proof {
        assert(0 <= dx * dx <= 21267647932558653966460912964485513216i128) by (nonlinear_arith)
            requires -4611686018427387904i128 <= dx <= 4611686018427387904i128,
        ;
        assert(0 <= dy * dy <= 21267647932558653966460912964485513216i128) by (nonlinear_arith)
            requires -4611686018427387904i128 <= dy <= 4611686018427387904i128,
        ;
    }
    let r2 = dx * dx + dy * dy;
    if r2 == 0 {
        return Vector2 { x: 0, y: 0 };
    }
    let r = crate::math::isqrt_u128(r2 as u128);
    proof {
        crate::math::lemma_sqrt_floor_bounds(r2 as nat);
        if r == 0 {
            assert((0nat + 1) * (0nat + 1) == 1nat) by (nonlinear_arith);
            assert(false);
        }
        assert(0 <= (GRAVITY as i128) * (sm as i128) <= 1048576000000i128)
            by (nonlinear_arith)
            requires 0 <= sm as i128 <= 1048576i128,
        ;
        assert(0 <= (GRAVITY as i128) * (sm as i128) * (tm as i128)
            <= 1099511627776000000i128) by (nonlinear_arith)
            requires
                0 <= (GRAVITY as i128) * (sm as i128) <= 1048576000000i128,
                0 <= tm as i128 <= 1048576i128,
        ;
    }
    let c = (GRAVITY as i128) * (sm as i128) * (tm as i128);
    proof {
        assert(-5070602400912917605986812821504000000i128 <= c * dx
            <= 5070602400912917605986812821504000000i128) by (nonlinear_arith)
            requires
                0 <= c <= 1099511627776000000i128,
                -4611686018427387904i128 <= dx <= 4611686018427387904i128,
        ;
        assert(-5070602400912917605986812821504000000i128 <= c * dy
            <= 5070602400912917605986812821504000000i128) by (nonlinear_arith)
            requires
                0 <= c <= 1099511627776000000i128,
                -4611686018427387904i128 <= dy <= 4611686018427387904i128,
        ;
        assert(-(c * r2) <= c * dx <= c * r2 && -(c * r2) <= c * dy <= c * r2)
            by (nonlinear_arith)
            requires
                0 <= c,
                r2 == dx * dx + dy * dy,
                r2 >= 1,
        ;
    }
    let numx = c * dx;
    let numy = c * dy;
    let qx1 = crate::math::tdiv_i128(numx, r2);
    let qx = crate::math::tdiv_i128(qx1, r as i128);
    let qy1 = crate::math::tdiv_i128(numy, r2);
    let qy = crate::math::tdiv_i128(qy1, r as i128);
    proof {
        crate::math::lemma_tdiv_bound(numx as int, r2 as int, c as int);
        crate::math::lemma_tdiv_bound(numy as int, r2 as int, c as int);
        assert(-(c * (r as i128)) <= qx1 <= c * (r as i128)) by (nonlinear_arith)
            requires -c <= qx1 <= c, r as i128 >= 1, c >= 0,
        ;
        assert(-(c * (r as i128)) <= qy1 <= c * (r as i128)) by (nonlinear_arith)
            requires -c <= qy1 <= c, r as i128 >= 1, c >= 0,
        ;
        crate::math::lemma_tdiv_bound(qx1 as int, r as int, c as int);
        crate::math::lemma_tdiv_bound(qy1 as int, r as int, c as int);
        crate::math::lemma_tdiv_chain(numx as int, r2 as int, r as int);
        crate::math::lemma_tdiv_chain(numy as int, r2 as int, r as int);
        lemma_pair_force_bound(
            GRAVITY as int,
            tm as int,
            tp.x as int,
            tp.y as int,
            sm as int,
            sp.x as int,
            sp.y as int,
        );
    }
    Vector2 { x: qx as i64, y: qy as i64 }
}

/// A sequence whose multiset is a singleton is that one-element sequence.
proof fn lemma_singleton_multiset(s: Seq<BoidView>, b: BoidView)
    requires
        s.to_multiset() == Multiset::<BoidView>::empty().insert(b),
    ensures
        s == seq![b],
{
    broadcast use vstd::multiset::group_multiset_axioms;
    broadcast use vstd::seq_lib::group_to_multiset_ensures;

    assert(s.to_multiset().len() == 1);
    assert(s.len() == 1);
    assert(s.to_multiset().count(b) == 1);
    assert(s.contains(b));
    assert(s[0] == b);
    assert(s =~= seq![b]);
}


/// Removing one element removes its contribution from the aggregates.
proof fn lemma_agg_remove(s: Seq<BoidView>, i: int)
    requires
        0 <= i < s.len(),
    ensures
        agg_mass(s.remove(i)) == agg_mass(s) - s[i].mass,
        agg_mx(s.remove(i)) == agg_mx(s) - s[i].mass * s[i].position.x,
        agg_my(s.remove(i)) == agg_my(s) - s[i].mass * s[i].position.y,
    decreases s.len(),
{
    if i == s.len() - 1 {
        assert(s.remove(i) =~= s.drop_last());
    } else {
        lemma_agg_remove(s.drop_last(), i);
        assert(s.remove(i).drop_last() =~= s.drop_last().remove(i));
        assert(s.remove(i).last() == s.last());
    }
}

/// The aggregates depend only on the multiset of bodies, not their order.
pub proof fn lemma_agg_permutation(a: Seq<BoidView>, b: Seq<BoidView>)
    requires
        a.to_multiset() == b.to_multiset(),
    ensures
        agg_mass(a) == agg_mass(b),
        agg_mx(a) == agg_mx(b),
        agg_my(a) == agg_my(b),
    decreases a.len(),
{
    broadcast use vstd::seq_lib::group_to_multiset_ensures;
    broadcast use vstd::multiset::group_multiset_axioms;

    if a.len() == 0 {
        assert(a.to_multiset().len() == a.len());
        assert(b.to_multiset().len() == b.len());
        assert(b.len() == 0);
    } else {
        let x = a.last();
        assert(a.contains(x));
        assert(b.to_multiset().count(x) > 0);
        assert(b.contains(x));
        let j = choose|j: int| 0 <= j < b.len() && b[j] == x;
        let i = a.len() - 1;
        assert(a.remove(i) =~= a.drop_last());
        assert(a.remove(i).to_multiset() =~= a.to_multiset().remove(x));
        assert(b.remove(j).to_multiset() =~= b.to_multiset().remove(x));
        lemma_agg_remove(b, j);
        lemma_agg_permutation(a.drop_last(), b.remove(j));
    }
}

/// Every element of `a` occurs somewhere in `b` when their multisets agree.
proof fn lemma_multiset_elem(a: Seq<BoidView>, b: Seq<BoidView>)
    requires
        a.to_multiset() == b.to_multiset(),
    ensures
        forall|i: int| 0 <= i < a.len() ==> b.contains(#[trigger] a[i]),
{
    broadcast use vstd::seq_lib::group_to_multiset_ensures;
    broadcast use vstd::multiset::group_multiset_axioms;

    assert forall|i: int| 0 <= i < a.len() implies b.contains(#[trigger] a[i]) by {
        assert(a.contains(a[i]));
        assert(b.to_multiset().count(a[i]) > 0);
    }
}

/// The Barnes-Hut tree: the requested region, a root node over a padded
/// power-of-two region strictly exceeding it, and the flat list of the
/// bodies that were successfully inserted, in insertion order.
///
/// Admission is decided against the requested region, inclusive of its
/// edges; the nodes place bodies by the half-open cell reading over the
/// padded region, which covers every admitted position.
pub struct Quadtree {
    boundary: Boundary,
    head: Node,
    boids: Vec<Boid>,
}

/// The square, power-of-two region covering `[min, max]` inclusively: the
/// smallest such square anchored at `min` whose side strictly exceeds both
/// extents.
pub fn enclosing_boundary(bmin: Vector2, bmax: Vector2) -> (b: Boundary)
    requires
        -BOX_LIMIT <= bmin.x,
        -BOX_LIMIT <= bmin.y,
        bmax.x <= BOX_LIMIT,
        bmax.y <= BOX_LIMIT,
        bmin.x <= bmax.x,
        bmin.y <= bmax.y,
    ensures
        b.wf(),
        b.min == bmin,
        b.max.x > bmax.x,
        b.max.y > bmax.y,
        b.side() == 1 || b.side() / 2 <= bmax.x - bmin.x || b.side() / 2 <= bmax.y - bmin.y,
{
    let ex = bmax.x - bmin.x;
    let ey = bmax.y - bmin.y;
    let target = if ex > ey {
        ex + 1
    } else {
        ey + 1
    };
    let mut side: i64 = 1;
    while side < target
        invariant
            crate::math::is_pow2(side as int),
            1 <= side <= 1152921504606846976i64,
            target <= 576460752303423489i64,
            side == 1 || side / 2 < target,
        decreases 1152921504606846976i64 - side,
    {
        proof {
            assert(side * 2 == 2 * (side as int)) by (nonlinear_arith);
            assert((2 * (side as int)) % 2 == 0 && (2 * (side as int)) / 2 == side as int)
                by (nonlinear_arith);
            assert(crate::math::is_pow2(2 * (side as int)));
        }
        side = side * 2;
    }
    Boundary { min: bmin, max: Vector2 { x: bmin.x + side, y: bmin.y + side } }
}

impl Quadtree {
    /// Views of the successfully inserted bodies, in insertion order.
    pub closed spec fn body_views(self) -> Seq<BoidView> {
        self.boids@.map_values(|b: Boid| b@)
    }

    /// Views of the bodies as stored in the tree, in tree order.
    pub closed spec fn tree_bodies(self) -> Seq<BoidView> {
        self.head.bodies()
    }

    /// Aggregate mass of the whole tree.
    pub closed spec fn total_mass(self) -> int {
        self.head.mass as int
    }

    /// Aggregate mass moment of the whole tree, x component.
    pub closed spec fn moment_x(self) -> int {
        self.head.moment_x as int
    }

    /// Aggregate mass moment of the whole tree, y component.
    pub closed spec fn moment_y(self) -> int {
        self.head.moment_y as int
    }

    /// Centre of mass, x component.
    pub closed spec fn com_x(self) -> int {
        self.head.com_x()
    }

    /// Centre of mass, y component.
    pub closed spec fn com_y(self) -> int {
        self.head.com_y()
    }

    /// The region the tree was requested over. Admission into the tree is
    /// inclusive of this region's edges.
    pub closed spec fn boundary_spec(self) -> Boundary {
        self.boundary
    }

    /// The padded power-of-two region the nodes actually subdivide; its
    /// undivided cells cover every admitted position exactly once.
    pub closed spec fn outer_spec(self) -> Boundary {
        self.head.boundary
    }

    /// Boundaries of the undivided nodes, in tree order.
    pub closed spec fn leaves_spec(self) -> Seq<Boundary> {
        self.head.leaves()
    }

    /// The force the tree exerts on a body of mass `tm` at `(tpx, tpy)`.
    pub closed spec fn force_spec(self, tpx: int, tpy: int, tm: int, num: int, den: int) -> (
        int,
        int,
    ) {
        self.head.force_on(tpx, tpy, tm, num, den)
    }

    /// Well-formedness: the root is well-formed, the tree stores exactly the
    /// listed bodies, every listed body has unit-or-larger mass, and no two
    /// listed bodies share a position.
    pub closed spec fn wf(self) -> bool {
        &&& self.head.wf()
        &&& self.boundary.min.x <= self.boundary.max.x
        &&& self.boundary.min.y <= self.boundary.max.y
        &&& self.head.boundary.min == self.boundary.min
        &&& self.boundary.max.x < self.head.boundary.max.x
        &&& self.boundary.max.y < self.head.boundary.max.y
        &&& self.head.bodies().to_multiset() == self.body_views().to_multiset()
        &&& forall|i: int|
            0 <= i < self.body_views().len() ==> (#[trigger] self.body_views()[i]).mass >= 1
        &&& forall|i: int, j: int|
            0 <= i < j < self.body_views().len() ==> (#[trigger] self.body_views()[i]).position
                != (#[trigger] self.body_views()[j]).position
    }

    /// An empty tree over the requested region. The padded region the
    /// nodes subdivide is the smallest power-of-two square anchored at the
    /// requested `min` whose side strictly exceeds both extents.
    pub fn new(boundary: Boundary) -> (t: Self)
        requires
            -BOX_LIMIT <= boundary.min.x,
            -BOX_LIMIT <= boundary.min.y,
            boundary.max.x <= BOX_LIMIT,
            boundary.max.y <= BOX_LIMIT,
            boundary.min.x <= boundary.max.x,
            boundary.min.y <= boundary.max.y,
        ensures
            t.wf(),
            t.boundary_spec() == boundary,
            t.outer_spec().wf(),
            t.outer_spec().min == boundary.min,
            t.outer_spec().max.x > boundary.max.x,
            t.outer_spec().max.y > boundary.max.y,
            t.outer_spec().side() == 1 || t.outer_spec().side() / 2 <= boundary.max.x
                - boundary.min.x || t.outer_spec().side() / 2 <= boundary.max.y - boundary.min.y,
            t.body_views() == Seq::<BoidView>::empty(),
            t.total_mass() == 0,
            t.moment_x() == 0,
            t.moment_y() == 0,
            t.leaves_spec() == seq![t.outer_spec()],
            t.com_x() == t.outer_spec().min.x + t.outer_spec().side() / 2,
            t.com_y() == t.outer_spec().min.y + t.outer_spec().side() / 2,
    {
        let outer = enclosing_boundary(boundary.min, boundary.max);
        let t = Quadtree { boundary, head: Node::new(outer), boids: Vec::new() };
        proof {
            broadcast use vstd::seq_lib::group_to_multiset_ensures;

            assert(t.body_views() =~= Seq::<BoidView>::empty());
            assert(t.head.bodies().to_multiset() =~= t.body_views().to_multiset());
            assert(t.leaves_spec() == seq![outer]);
        }
        t
    }

    /// Insert a body. Succeeds exactly when the body's position lies
    /// within the requested region, inclusive of its edges; on success the
    /// body is also recorded in the flat list and the aggregates absorb
    /// it; on failure the tree is unchanged and the offending region and
    /// position are reported.
    ///
    /// The caller keeps positions distinct: on the integer lattice a
    /// second body at an occupied position could never be separated by
    /// subdivision, so such an insertion is excluded up front (the
    /// simulation loop skips colocated bodies for the tick instead).
    pub fn insert(&mut self, boid: Boid) -> (r: InsertionResult)
        requires
            old(self).wf(),
            1 <= boid@.mass,
            old(self).total_mass() + boid@.mass <= MASS_LIMIT,
            forall|i: int|
                0 <= i < old(self).body_views().len() ==> (
                #[trigger] old(self).body_views()[i]).position != boid@.position,
        ensures
            final(self).wf(),
            final(self).boundary_spec() == old(self).boundary_spec(),
            final(self).outer_spec() == old(self).outer_spec(),
            old(self).boundary_spec().contains_point(boid@.position) ==> {
                &&& r is Ok
                &&& final(self).body_views() == old(self).body_views().push(boid@)
                &&& final(self).total_mass() == old(self).total_mass() + boid@.mass
                &&& final(self).moment_x() == old(self).moment_x() + boid@.mass
                    * boid@.position.x
                &&& final(self).moment_y() == old(self).moment_y() + boid@.mass
                    * boid@.position.y
            },
            !old(self).boundary_spec().contains_point(boid@.position) ==> {
                &&& r == Err::<(), InsertionError>(
                    InsertionError::OutOfBounds {
                        boundary: old(self).boundary_spec(),
                        position: boid@.position,
                    },
                )
                &&& *final(self) == *old(self)
                &&& final(self).body_views() == old(self).body_views()
            },
    {
        if !self.boundary.intersects(&boid) {
            return Err(
                InsertionError::OutOfBounds { boundary: self.boundary, position: boid.position() },
            );
        }
        proof {
            // inclusive admission within the requested region puts the
            // position strictly inside the padded region's half-open cells
            assert(old(self).head.boundary.covers(boid@.position));
            lemma_multiset_elem(old(self).head.bodies(), old(self).body_views());
            assert forall|i: int| 0 <= i < old(self).head.bodies().len() implies (
            #[trigger] old(self).head.bodies()[i]).position != boid@.position by {
                let j = choose|j: int|
                    0 <= j < old(self).body_views().len() && old(self).body_views()[j] == old(
                        self,
                    ).head.bodies()[i];
            }
        }
        let r = self.head.insert(boid);
        if r.is_err() {
            proof {
                assert(false);
            }
            return r;
        }
        self.boids.push(boid);
        proof {
            broadcast use vstd::seq_lib::group_to_multiset_ensures;

            assert(self.body_views() =~= old(self).body_views().push(boid@));
            assert(self.head.bodies().to_multiset() =~= self.body_views().to_multiset());
            assert forall|i: int, j: int|
                0 <= i < j < self.body_views().len() implies (
            #[trigger] self.body_views()[i]).position != (
            #[trigger] self.body_views()[j]).position by {
                if j < old(self).body_views().len() {
                } else {
                    assert(self.body_views()[j] == boid@);
                    assert(self.body_views()[i] == old(self).body_views()[i]);
                }
            }
        }
        Ok(())
    }

    /// Does some recorded body sit exactly at `p`?
    pub fn has_body_at(&self, p: Vector2) -> (r: bool)
        ensures
            r == exists|i: int|
                0 <= i < self.body_views().len() && (#[trigger] self.body_views()[i]).position
                    == p,
    {
        let n = self.boids.len();
        let mut k: usize = 0;
        while k < n
            invariant
                0 <= k <= n,
                n == self.boids.len(),
                forall|i: int|
                    0 <= i < k ==> (#[trigger] self.body_views()[i]).position != p,
            decreases n - k,
        {
            let bp = self.boids[k].position();
            if bp.x == p.x && bp.y == p.y {
                proof {
                    assert(self.body_views()[k as int].position == p);
                }
                return true;
            }
            k = k + 1;
        }
        false
    }

    /// Snapshots of the recorded bodies, in insertion order.
    pub fn bodies(&self) -> (v: Vec<Body>)
        ensures
            v@.len() == self.body_views().len(),
            forall|i: int|
                0 <= i < v@.len() ==> (#[trigger] v@[i]).position == self.body_views()[i].position
                    && v@[i].velocity == self.body_views()[i].velocity && v@[i].mass as int
                    == self.body_views()[i].mass,
    {
        let n = self.boids.len();
        let mut v: Vec<Body> = Vec::new();
        let mut k: usize = 0;
        while k < n
            invariant
                0 <= k <= n,
                n == self.boids.len(),
                v@.len() == k,
                forall|i: int|
                    0 <= i < k ==> (#[trigger] v@[i]).position == self.body_views()[i].position
                        && v@[i].velocity == self.body_views()[i].velocity && v@[i].mass as int
                        == self.body_views()[i].mass,
            decreases n - k,
        {
            let b = &self.boids[k];
            v.push(Body { position: b.position(), velocity: b.velocity(), mass: b.mass() });
            k = k + 1;
        }
        v
    }

    /// Approximate force on `boid`, with `theta = theta_num / theta_den`.
    pub fn calculate_force(&self, boid: &Boid, theta_num: i64, theta_den: i64) -> (f: Vector2)
        requires
            self.wf(),
            0 <= boid@.mass <= MASS_LIMIT,
            -WORLD_LIMIT <= boid@.position.x <= WORLD_LIMIT,
            -WORLD_LIMIT <= boid@.position.y <= WORLD_LIMIT,
            0 <= theta_num <= THETA_LIMIT,
            1 <= theta_den <= THETA_LIMIT,
        ensures
            f.x as int == self.force_spec(
                boid@.position.x as int,
                boid@.position.y as int,
                boid@.mass,
                theta_num as int,
                theta_den as int,
            ).0,
            f.y as int == self.force_spec(
                boid@.position.x as int,
                boid@.position.y as int,
                boid@.mass,
                theta_num as int,
                theta_den as int,
            ).1,
            -(GRAVITY * self.total_mass() * boid@.mass) <= f.x as int <= GRAVITY
                * self.total_mass() * boid@.mass,
            -(GRAVITY * self.total_mass() * boid@.mass) <= f.y as int <= GRAVITY
                * self.total_mass() * boid@.mass,
    {
        proof {
            self.head.lemma_force_bound(
                boid@.position.x as int,
                boid@.position.y as int,
                boid@.mass,
                theta_num as int,
                theta_den as int,
            );
        }
        self.head.calculate_force(boid, theta_num, theta_den)
    }

    /// Boundaries of every undivided node, for diagnostics.
    pub fn boundaries(&self) -> (v: Vec<Boundary>)
        ensures
            v@ == self.leaves_spec(),
    {
        self.head.boundaries()
    }

    /// The requested region.
    pub fn boundary(&self) -> (b: Boundary)
        ensures
            b == self.boundary_spec(),
    {
        self.boundary
    }

    /// The padded region the nodes actually subdivide.
    pub fn outer_bounds(&self) -> (b: Boundary)
        ensures
            b == self.outer_spec(),
    {
        self.head.boundary
    }

    /// Centre of mass of the whole tree; the boundary's centre when empty.
    pub fn center_of_mass(&self) -> (c: Vector2)
        requires
            self.wf(),
        ensures
            c.x as int == self.com_x(),
            c.y as int == self.com_y(),
    {
        self.head.center_of_mass()
    }

    /// The tree's aggregate mass.
    pub fn mass(&self) -> (m: i64)
        ensures
            m as int == self.total_mass(),
    {
        self.head.mass
    }
}

/// After any sequence of insertions, the tree's aggregate mass is exactly
/// the sum of the masses of the inserted bodies.
pub proof fn law_mass_is_sum(t: Quadtree)
    requires
        t.wf(),
    ensures
        t.total_mass() == agg_mass(t.body_views()),
{
    lemma_agg_permutation(t.tree_bodies(), t.body_views());
}

/// The tree's aggregate moment is exactly the mass-weighted sum of the
/// inserted bodies' positions.
pub proof fn law_moment_is_weighted_sum(t: Quadtree)
    requires
        t.wf(),
    ensures
        t.moment_x() == agg_mx(t.body_views()),
        t.moment_y() == agg_my(t.body_views()),
{
    lemma_agg_permutation(t.tree_bodies(), t.body_views());
}

/// The centre of mass of a non-empty tree is the mass-weighted average of
/// the inserted bodies' positions, `(sum m_i * p_i) / (sum m_i)`.
pub proof fn law_center_of_mass(t: Quadtree)
    requires
        t.wf(),
        t.total_mass() > 0,
    ensures
        t.com_x() == tdiv(agg_mx(t.body_views()), agg_mass(t.body_views())),
        t.com_y() == tdiv(agg_my(t.body_views()), agg_mass(t.body_views())),
{
    law_mass_is_sum(t);
    law_moment_is_weighted_sum(t);
}

/// Two bodies of masses `m1`, `m2` at `p1`, `p2` yield the centre of mass
/// `(m1 * p1 + m2 * p2) / (m1 + m2)`.
pub proof fn law_two_body_center_of_mass(t: Quadtree, b1: BoidView, b2: BoidView)
    requires
        t.wf(),
        t.body_views() == seq![b1, b2],
    ensures
        t.com_x() == tdiv(b1.mass * b1.position.x + b2.mass * b2.position.x, b1.mass + b2.mass),
        t.com_y() == tdiv(b1.mass * b1.position.y + b2.mass * b2.position.y, b1.mass + b2.mass),
{
    assert(seq![b1, b2].drop_last() =~= seq![b1]);
    assert(seq![b1].drop_last() =~= Seq::<BoidView>::empty());
    assert(agg_mass(Seq::<BoidView>::empty()) == 0);
    assert(agg_mass(seq![b1]) == b1.mass);
    assert(agg_mass(seq![b1, b2]) == b1.mass + b2.mass);
    assert(agg_mx(Seq::<BoidView>::empty()) == 0);
    assert(agg_mx(seq![b1]) == b1.mass * b1.position.x);
    assert(agg_mx(seq![b1, b2]) == b1.mass * b1.position.x + b2.mass * b2.position.x);
    assert(agg_my(Seq::<BoidView>::empty()) == 0);
    assert(agg_my(seq![b1]) == b1.mass * b1.position.y);
    assert(agg_my(seq![b1, b2]) == b1.mass * b1.position.y + b2.mass * b2.position.y);
    assert(t.body_views()[0].mass >= 1 && t.body_views()[1].mass >= 1);
    law_mass_is_sum(t);
    law_center_of_mass(t);
}

/// Rebuilding a tree from an unchanged body list over the same region gives
/// identical aggregate mass, moment and centre of mass.
pub proof fn law_rebuild_identical(t1: Quadtree, t2: Quadtree)
    requires
        t1.wf(),
        t2.wf(),
        t1.body_views() == t2.body_views(),
        t1.boundary_spec() == t2.boundary_spec(),
        t1.outer_spec() == t2.outer_spec(),
    ensures
        t1.total_mass() == t2.total_mass(),
        t1.moment_x() == t2.moment_x(),
        t1.moment_y() == t2.moment_y(),
        t1.com_x() == t2.com_x(),
        t1.com_y() == t2.com_y(),
{
    law_mass_is_sum(t1);
    law_mass_is_sum(t2);
    law_moment_is_weighted_sum(t1);
    law_moment_is_weighted_sum(t2);
}


/// Exact brute-force sum of the pairwise forces from each listed body on a
/// body of mass `tm` at `(tpx, tpy)`.
pub open spec fn brute_force(bodies: Seq<BoidView>, tpx: int, tpy: int, tm: int) -> (int, int)
    decreases bodies.len(),
{
    if bodies.len() == 0 {
        (0, 0)
    } else {
        let f = brute_force(bodies.drop_last(), tpx, tpy, tm);
        let b = bodies.last();
        let g = pair_force(
            GRAVITY as int,
            tm,
            tpx,
            tpy,
            b.mass,
            b.position.x as int,
            b.position.y as int,
        );
        (f.0 + g.0, f.1 + g.1)
    }
}

/// The brute-force sum distributes over concatenation.
proof fn lemma_brute_concat(a: Seq<BoidView>, b: Seq<BoidView>, tpx: int, tpy: int, tm: int)
    ensures
        brute_force(a + b, tpx, tpy, tm).0 == brute_force(a, tpx, tpy, tm).0 + brute_force(
            b,
            tpx,
            tpy,
            tm,
        ).0,
        brute_force(a + b, tpx, tpy, tm).1 == brute_force(a, tpx, tpy, tm).1 + brute_force(
            b,
            tpx,
            tpy,
            tm,
        ).1,
    decreases b.len(),
{
    if b.len() == 0 {
        assert(a + b =~= a);
    } else {
        lemma_brute_concat(a, b.drop_last(), tpx, tpy, tm);
        assert((a + b).drop_last() =~= a + b.drop_last());
        assert((a + b).last() == b.last());
    }
}

/// Removing one body removes its pairwise contribution from the sum.
proof fn lemma_brute_remove(s: Seq<BoidView>, i: int, tpx: int, tpy: int, tm: int)
    requires
        0 <= i < s.len(),
    ensures
        brute_force(s.remove(i), tpx, tpy, tm).0 == brute_force(s, tpx, tpy, tm).0 - pair_force(
            GRAVITY as int,
            tm,
            tpx,
            tpy,
            s[i].mass,
            s[i].position.x as int,
            s[i].position.y as int,
        ).0,
        brute_force(s.remove(i), tpx, tpy, tm).1 == brute_force(s, tpx, tpy, tm).1 - pair_force(
            GRAVITY as int,
            tm,
            tpx,
            tpy,
            s[i].mass,
            s[i].position.x as int,
            s[i].position.y as int,
        ).1,
    decreases s.len(),
{
    if i == s.len() - 1 {
        assert(s.remove(i) =~= s.drop_last());
    } else {
        lemma_brute_remove(s.drop_last(), i, tpx, tpy, tm);
        assert(s.remove(i).drop_last() =~= s.drop_last().remove(i));
        assert(s.remove(i).last() == s.last());
    }
}

/// The brute-force sum depends only on the multiset of bodies.
pub proof fn lemma_brute_permutation(
    a: Seq<BoidView>,
    b: Seq<BoidView>,
    tpx: int,
    tpy: int,
    tm: int,
)
    requires
        a.to_multiset() == b.to_multiset(),
    ensures
        brute_force(a, tpx, tpy, tm) == brute_force(b, tpx, tpy, tm),
    decreases a.len(),
{
    broadcast use vstd::seq_lib::group_to_multiset_ensures;
    broadcast use vstd::multiset::group_multiset_axioms;

    if a.len() == 0 {
        assert(a.to_multiset().len() == a.len());
        assert(b.to_multiset().len() == b.len());
        assert(b.len() == 0);
    } else {
        let x = a.last();
        assert(a.contains(x));
        assert(b.to_multiset().count(x) > 0);
        assert(b.contains(x));
        let j = choose|j: int| 0 <= j < b.len() && b[j] == x;
        let i = a.len() - 1;
        assert(a.remove(i) =~= a.drop_last());
        assert(a.remove(i).to_multiset() =~= a.to_multiset().remove(x));
        assert(b.remove(j).to_multiset() =~= b.to_multiset().remove(x));
        lemma_brute_remove(b, j, tpx, tpy, tm);
        lemma_brute_permutation(a.drop_last(), b.remove(j), tpx, tpy, tm);
    }
}

/// When every body sits at the same point, the moments are `mass * point`.
proof fn lemma_colocated_moment(s: Seq<BoidView>, pt: Vector2)
    requires
        forall|i: int| 0 <= i < s.len() ==> (#[trigger] s[i]).position == pt,
    ensures
        agg_mx(s) == agg_mass(s) * pt.x,
        agg_my(s) == agg_mass(s) * pt.y,
    decreases s.len(),
{
    if s.len() == 0 {
        assert(agg_mass(s) * pt.x == 0) by (nonlinear_arith)
            requires agg_mass(s) == 0,
        ;
        assert(agg_mass(s) * pt.y == 0) by (nonlinear_arith)
            requires agg_mass(s) == 0,
        ;
    } else {
        lemma_colocated_moment(s.drop_last(), pt);
        assert(s.last().position == pt);
        assert((agg_mass(s.drop_last()) + s.last().mass) * pt.x == agg_mass(s.drop_last()) * pt.x
            + s.last().mass * pt.x) by (nonlinear_arith);
        assert((agg_mass(s.drop_last()) + s.last().mass) * pt.y == agg_mass(s.drop_last()) * pt.y
            + s.last().mass * pt.y) by (nonlinear_arith);
    }
}

impl Node {
    /// With `theta = 0` the far-field criterion never holds, so the force
    /// is exactly the brute-force sum of pairwise forces over the subtree.
    proof fn lemma_theta_zero(self, tpx: int, tpy: int, tm: int, den: int)
        requires
            self.wf(),
            den >= 1,
        ensures
            self.force_on(tpx, tpy, tm, 0, den) == brute_force(self.bodies(), tpx, tpy, tm),
        decreases self,
    {
        if self.is_empty_node() {
            assert(self.bodies() =~= Seq::<BoidView>::empty());
        } else {
            let cx = self.com_x();
            let cy = self.com_y();
            let dx = cx - tpx;
            let dy = cy - tpy;
            let r = sqrt_floor((dx * dx + dy * dy) as nat) as int;
            crate::math::lemma_pow2_pos(self.boundary.side());
            assert(self.boundary.side() * den >= 1) by (nonlinear_arith)
                requires self.boundary.side() >= 1, den >= 1,
            ;
            assert(0 * r == 0) by (nonlinear_arith);
            assert(!(r > 0 && self.boundary.side() * den < 0 * r));
            match self.children {
                Some(q) => {
                    q.q0.lemma_theta_zero(tpx, tpy, tm, den);
                    q.q1.lemma_theta_zero(tpx, tpy, tm, den);
                    q.q2.lemma_theta_zero(tpx, tpy, tm, den);
                    q.q3.lemma_theta_zero(tpx, tpy, tm, den);
                    lemma_brute_concat(q.q0.bodies(), q.q1.bodies(), tpx, tpy, tm);
                    lemma_brute_concat(q.q0.bodies() + q.q1.bodies(), q.q2.bodies(), tpx, tpy, tm);
                    lemma_brute_concat(
                        q.q0.bodies() + q.q1.bodies() + q.q2.bodies(),
                        q.q3.bodies(),
                        tpx,
                        tpy,
                        tm,
                    );
                },
                None => {
                    let b = self.body->0;
                    assert(self.bodies() == seq![b@]);
                    assert(seq![b@].drop_last() =~= Seq::<BoidView>::empty());
                    assert(agg_mass(Seq::<BoidView>::empty()) == 0);
                    assert(brute_force(Seq::<BoidView>::empty(), tpx, tpy, tm) == (0int, 0int));
                    assert(agg_mass(self.bodies()) == b@.mass);
                    assert(self.mass as int == b@.mass);
                },
            }
        }
    }

    /// A subtree whose bodies all sit exactly at `pt` exerts no force on a
    /// body at `pt`: the self-interaction guard yields zero at every path.
    proof fn lemma_colocated_zero_force(self, pt: Vector2, tm: int, num: int, den: int)
        requires
            self.wf(),
            forall|i: int| 0 <= i < self.bodies().len() ==> (#[trigger] self.bodies()[i]).position
                == pt,
        ensures
            self.force_on(pt.x as int, pt.y as int, tm, num, den) == (0int, 0int),
        decreases self,
    {
        let tpx = pt.x as int;
        let tpy = pt.y as int;
        if self.is_empty_node() {
        } else {
            let cx = self.com_x();
            let cy = self.com_y();
            let dx = cx - tpx;
            let dy = cy - tpy;
            let r = sqrt_floor((dx * dx + dy * dy) as nat) as int;
            if self.mass == 0 {
                // the far-field branch may trigger around the region's
                // centre, but with aggregate mass zero the force vanishes
                if r > 0 && self.boundary.side() * den < num * r {
                    let r2 = dx * dx + dy * dy;
                    assert(r2 >= 0) by (nonlinear_arith)
                        requires r2 == dx * dx + dy * dy,
                    ;
                    if r2 != 0 {
                        let rr = sqrt_floor(r2 as nat) as int;
                        crate::math::lemma_sqrt_floor_bounds(r2 as nat);
                        if rr == 0 {
                            assert((0nat + 1) * (0nat + 1) == 1nat) by (nonlinear_arith);
                            assert(false);
                        }
                        let c = GRAVITY as int * (self.mass as int) * tm;
                        assert(c == 0 && c * dx == 0 && c * dy == 0) by (nonlinear_arith)
                            requires self.mass as int == 0, c == GRAVITY as int * (
                            self.mass as int) * tm,
                        ;
                        assert(r2 * rr >= 1) by (nonlinear_arith)
                            requires r2 >= 1, rr >= 1,
                        ;
                        vstd::arithmetic::div_mod::lemma_div_basics_1(r2 * rr);
                        assert(tdiv(0, r2 * rr) == 0);
                    }
                }
            } else {
                lemma_colocated_moment(self.bodies(), pt);
                assert(self.moment_x as int == self.mass as int * pt.x);
                assert(self.moment_y as int == self.mass as int * pt.y);
                crate::math::lemma_tdiv_mul_exact(self.mass as int, pt.x as int);
                crate::math::lemma_tdiv_mul_exact(self.mass as int, pt.y as int);
                assert(cx == tpx && cy == tpy);
                assert(dx == 0 && dy == 0);
                assert(dx * dx + dy * dy == 0) by (nonlinear_arith)
                    requires dx == 0, dy == 0,
                ;
                assert(r == 0);
            }
            match self.children {
                Some(q) => {
                    q.lemma_qbodies_index();
                    assert(self.bodies() == q.qbodies());
                    let l0 = q.q0.bodies().len() as int;
                    let l1 = q.q1.bodies().len() as int;
                    let l2 = q.q2.bodies().len() as int;
                    assert forall|i: int| 0 <= i < q.q0.bodies().len() implies (
                    #[trigger] q.q0.bodies()[i]).position == pt by {
                        assert(q.qbodies()[i] == q.q0.bodies()[i]);
                    }
                    assert forall|i: int| 0 <= i < q.q1.bodies().len() implies (
                    #[trigger] q.q1.bodies()[i]).position == pt by {
                        assert(q.qbodies()[l0 + i] == q.q1.bodies()[i]);
                    }
                    assert forall|i: int| 0 <= i < q.q2.bodies().len() implies (
                    #[trigger] q.q2.bodies()[i]).position == pt by {
                        assert(q.qbodies()[l0 + l1 + i] == q.q2.bodies()[i]);
                    }
                    assert forall|i: int| 0 <= i < q.q3.bodies().len() implies (
                    #[trigger] q.q3.bodies()[i]).position == pt by {
                        assert(q.qbodies()[l0 + l1 + l2 + i] == q.q3.bodies()[i]);
                    }
                    q.q0.lemma_colocated_zero_force(pt, tm, num, den);
                    q.q1.lemma_colocated_zero_force(pt, tm, num, den);
                    q.q2.lemma_colocated_zero_force(pt, tm, num, den);
                    q.q3.lemma_colocated_zero_force(pt, tm, num, den);
                },
                None => {
                    if self.body is Some {
                        let b = self.body->0;
                        assert(self.bodies() == seq![b@]);
                        if self.mass == 0 {
                            assert(seq![b@].drop_last() =~= Seq::<BoidView>::empty());
                            assert(agg_mass(Seq::<BoidView>::empty()) == 0);
                            assert(agg_mass(self.bodies()) == b@.mass);
                            assert(self.bodies()[0].mass >= 1);
                            assert(false);
                        }
                        assert(self.bodies()[0] == b@);
                        assert(b@.position == pt);
                        let bdx = b@.position.x as int - tpx;
                        let bdy = b@.position.y as int - tpy;
                        assert(bdx == 0 && bdy == 0);
                        assert(bdx * bdx + bdy * bdy == 0) by (nonlinear_arith)
                            requires bdx == 0, bdy == 0,
                        ;
                    }
                },
            }
        }
    }
}

/// With `theta = 0` the tree's force on any body is exactly the brute-force
/// sum of the pairwise forces from every inserted body.
pub proof fn law_theta_zero_brute_force(t: Quadtree, tpx: int, tpy: int, tm: int, den: int)
    requires
        t.wf(),
        den >= 1,
    ensures
        t.force_spec(tpx, tpy, tm, 0, den) == brute_force(t.body_views(), tpx, tpy, tm),
{
    t.head.lemma_theta_zero(tpx, tpy, tm, den);
    lemma_brute_permutation(t.head.bodies(), t.body_views(), tpx, tpy, tm);
}

/// A body alone in an otherwise empty tree feels no net force: the
/// zero-distance guard cancels the self-interaction exactly.
pub proof fn law_lone_body_zero_force(t: Quadtree, b: BoidView, tm: int, num: int, den: int)
    requires
        t.wf(),
        t.body_views() == seq![b],
    ensures
        t.force_spec(b.position.x as int, b.position.y as int, tm, num, den) == (0int, 0int),
{
    broadcast use vstd::seq_lib::group_to_multiset_ensures;
    broadcast use vstd::multiset::group_multiset_axioms;

    assert(Seq::<BoidView>::empty().push(b) =~= seq![b]);
    assert(t.body_views().to_multiset() =~= Multiset::<BoidView>::empty().insert(b));
    lemma_singleton_multiset(t.head.bodies(), b);
    assert(forall|i: int| 0 <= i < t.head.bodies().len() ==> (
    #[trigger] t.head.bodies()[i]).position == b.position);
    t.head.lemma_colocated_zero_force(b.position, tm, num, den);
}


impl Quad {
    /// All leaf boundaries of the four quadrants, in quadrant order.
    spec fn qleaves(self) -> Seq<Boundary> {
        self.q0.leaves() + self.q1.leaves() + self.q2.leaves() + self.q3.leaves()
    }

    /// How the concatenated leaf sequence indexes into the quadrants.
    proof fn lemma_qleaves_index(self)
        ensures
            self.qleaves().len() == self.q0.leaves().len() + self.q1.leaves().len()
                + self.q2.leaves().len() + self.q3.leaves().len(),
            forall|i: int|
                0 <= i < self.q0.leaves().len() ==> self.qleaves()[i] == #[trigger] self.q0.leaves()[i],
            forall|i: int|
                0 <= i < self.q1.leaves().len() ==> self.qleaves()[self.q0.leaves().len() + i]
                    == #[trigger] self.q1.leaves()[i],
            forall|i: int|
                0 <= i < self.q2.leaves().len() ==> self.qleaves()[self.q0.leaves().len()
                    + self.q1.leaves().len() + i] == #[trigger] self.q2.leaves()[i],
            forall|i: int|
                0 <= i < self.q3.leaves().len() ==> self.qleaves()[self.q0.leaves().len()
                    + self.q1.leaves().len() + self.q2.leaves().len() + i]
                    == #[trigger] self.q3.leaves()[i],
    {
    }
}

impl Node {
    /// The undivided nodes' boundaries partition the node's region: a point
    /// lies in the region exactly when it lies in some collected leaf, and
    /// in at most one of them.
    proof fn lemma_leaves_partition(self, pt: Vector2)
        requires
            self.wf(),
        ensures
            self.boundary.covers(pt) <==> (exists|i: int|
                0 <= i < self.leaves().len() && (#[trigger] self.leaves()[i]).covers(pt)),
            forall|i: int, j: int|
                0 <= i < self.leaves().len() && 0 <= j < self.leaves().len() && i != j && (
                #[trigger] self.leaves()[i]).covers(pt) ==> !(
                #[trigger] self.leaves()[j]).covers(pt),
        decreases self,
    {
        match self.children {
            None => {
                assert(self.leaves() == seq![self.boundary]);
                if self.boundary.covers(pt) {
                    assert((self.leaves()[0]).covers(pt));
                }
            },
            Some(q) => {
                q.q0.lemma_leaves_partition(pt);
                q.q1.lemma_leaves_partition(pt);
                q.q2.lemma_leaves_partition(pt);
                q.q3.lemma_leaves_partition(pt);
                lemma_quadrant_partition(
                    self.boundary,
                    q.q0.boundary,
                    q.q1.boundary,
                    q.q2.boundary,
                    q.q3.boundary,
                    pt,
                );
                q.lemma_qleaves_index();
                assert(self.leaves() == q.qleaves());
                let l0 = q.q0.leaves().len() as int;
                let l1 = q.q1.leaves().len() as int;
                let l2 = q.q2.leaves().len() as int;
                let l3 = q.q3.leaves().len() as int;
                // each global leaf index belongs to one quadrant, whose
                // boundary must then contain the point
                assert forall|i: int|
                    0 <= i < self.leaves().len() && (
                #[trigger] self.leaves()[i]).covers(pt) implies (
                    (i < l0 && q.q0.boundary.covers(pt)) || (l0 <= i < l0 + l1
                        && q.q1.boundary.covers(pt)) || (l0 + l1 <= i < l0 + l1 + l2
                        && q.q2.boundary.covers(pt)) || (l0 + l1 + l2 <= i
                        && q.q3.boundary.covers(pt))) by {
                    if i < l0 {
                        assert(self.leaves()[i] == q.q0.leaves()[i]);
                        assert((q.q0.leaves()[i]).covers(pt));
                    } else if i < l0 + l1 {
                        assert(self.leaves()[l0 + (i - l0)] == q.q1.leaves()[i - l0]);
                        assert((q.q1.leaves()[i - l0]).covers(pt));
                    } else if i < l0 + l1 + l2 {
                        assert(self.leaves()[l0 + l1 + (i - l0 - l1)] == q.q2.leaves()[i - l0
                            - l1]);
                        assert((q.q2.leaves()[i - l0 - l1]).covers(pt));
                    } else {
                        assert(self.leaves()[l0 + l1 + l2 + (i - l0 - l1 - l2)]
                            == q.q3.leaves()[i - l0 - l1 - l2]);
                        assert((q.q3.leaves()[i - l0 - l1 - l2]).covers(pt));
                    }
                }
                if self.boundary.covers(pt) {
                    if q.q0.boundary.covers(pt) {
                        let k = choose|k: int|
                            0 <= k < q.q0.leaves().len() && (
                            #[trigger] q.q0.leaves()[k]).covers(pt);
                        assert((self.leaves()[k]).covers(pt));
                    } else if q.q1.boundary.covers(pt) {
                        let k = choose|k: int|
                            0 <= k < q.q1.leaves().len() && (
                            #[trigger] q.q1.leaves()[k]).covers(pt);
                        assert((self.leaves()[l0 + k]).covers(pt));
                    } else if q.q2.boundary.covers(pt) {
                        let k = choose|k: int|
                            0 <= k < q.q2.leaves().len() && (
                            #[trigger] q.q2.leaves()[k]).covers(pt);
                        assert((self.leaves()[l0 + l1 + k]).covers(pt));
                    } else {
                        let k = choose|k: int|
                            0 <= k < q.q3.leaves().len() && (
                            #[trigger] q.q3.leaves()[k]).covers(pt);
                        assert((self.leaves()[l0 + l1 + l2 + k]).covers(pt));
                    }
                }
            },
        }
    }
}

/// The boundaries a tree reports partition its padded outer region
/// exactly, read as half-open cells: every point of the region lies in
/// exactly one reported cell, and no reported cell reaches outside the
/// region.
pub proof fn law_boundaries_partition(t: Quadtree, pt: Vector2)
    requires
        t.wf(),
    ensures
        t.outer_spec().covers(pt) <==> (exists|i: int|
            0 <= i < t.leaves_spec().len() && (#[trigger] t.leaves_spec()[i]).covers(pt)),
        forall|i: int, j: int|
            0 <= i < t.leaves_spec().len() && 0 <= j < t.leaves_spec().len() && i != j && (
            #[trigger] t.leaves_spec()[i]).covers(pt) ==> !(
            #[trigger] t.leaves_spec()[j]).covers(pt),
{
    t.head.lemma_leaves_partition(pt);
    assert(t.leaves_spec() == t.head.leaves());
    if t.outer_spec().covers(pt) {
        let k = choose|k: int|
            0 <= k < t.head.leaves().len() && (#[trigger] t.head.leaves()[k]).covers(pt);
        assert((t.leaves_spec()[k]).covers(pt));
    }
    if exists|i: int|
        0 <= i < t.leaves_spec().len() && (#[trigger] t.leaves_spec()[i]).covers(pt) {
        let k = choose|k: int|
            0 <= k < t.leaves_spec().len() && (#[trigger] t.leaves_spec()[k]).covers(pt);
        assert((t.head.leaves()[k]).covers(pt));
    }
}


/// With unit-or-larger masses the aggregate mass dominates the count.
pub proof fn lemma_agg_mass_ge_len(s: Seq<BoidView>)
    requires
        forall|i: int| 0 <= i < s.len() ==> (#[trigger] s[i]).mass >= 1,
    ensures
        agg_mass(s) >= s.len(),
    decreases s.len(),
{
    if s.len() > 0 {
        lemma_agg_mass_ge_len(s.drop_last());
    }
}

/// Extending a prefix by one element adds that element's mass.
pub proof fn lemma_agg_take_step(s: Seq<BoidView>, k: int)
    requires
        0 <= k < s.len(),
    ensures
        agg_mass(s.take(k + 1)) == agg_mass(s.take(k)) + s[k].mass,
{
    assert(s.take(k + 1).drop_last() =~= s.take(k));
    assert(s.take(k + 1).last() == s[k]);
}

/// With unit-or-larger masses, a prefix weighs no more than the whole.
pub proof fn lemma_agg_take_le(s: Seq<BoidView>, k: int)
    requires
        0 <= k <= s.len(),
        forall|i: int| 0 <= i < s.len() ==> (#[trigger] s[i]).mass >= 1,
    ensures
        agg_mass(s.take(k)) <= agg_mass(s),
    decreases s.len(),
{
    if k == s.len() {
        assert(s.take(k) =~= s);
    } else {
        assert(s.take(k) =~= s.drop_last().take(k));
        lemma_agg_take_le(s.drop_last(), k);
    }
}

/// With unit-or-larger masses, one element weighs no more than the whole.
pub proof fn lemma_agg_elem_le(s: Seq<BoidView>, i: int)
    requires
        0 <= i < s.len(),
        forall|j: int| 0 <= j < s.len() ==> (#[trigger] s[j]).mass >= 1,
    ensures
        s[i].mass <= agg_mass(s),
{
    lemma_agg_remove(s, i);
    assert forall|j: int| 0 <= j < s.remove(i).len() implies (#[trigger] s.remove(i)[j]).mass
        >= 1 by {
        if j < i {
            assert(s.remove(i)[j] == s[j]);
        } else {
            assert(s.remove(i)[j] == s[j + 1]);
        }
    }
    lemma_agg_mass_ge_len(s.remove(i));
}


/// Sequences with the same masses position by position weigh the same.
pub proof fn lemma_agg_mass_pointwise(a: Seq<BoidView>, b: Seq<BoidView>)
    requires
        a.len() == b.len(),
        forall|i: int| 0 <= i < a.len() ==> (#[trigger] a[i]).mass == b[i].mass,
    ensures
        agg_mass(a) == agg_mass(b),
    decreases a.len(),
{
    if a.len() > 0 {
        lemma_agg_mass_pointwise(a.drop_last(), b.drop_last());
        assert(a.last().mass == b.last().mass) by {
            assert(a[a.len() - 1].mass == b[a.len() - 1].mass);
        }
    }
}


/// A well-formed tree's aggregate mass is within the mass budget.
pub proof fn lemma_wf_mass_bounds(t: Quadtree)
    requires
        t.wf(),
    ensures
        0 <= t.total_mass() <= MASS_LIMIT,
{
}


/// Pairwise gravitational forces are equal and opposite: the force a body
/// at `p2` of mass `m2` exerts on a body at `p1` of mass `m1` is the exact
/// negation of the force the first exerts on the second.
pub proof fn law_pair_force_antisymmetric(
    g: int,
    m1: int,
    p1x: int,
    p1y: int,
    m2: int,
    p2x: int,
    p2y: int,
)
    ensures
        pair_force(g, m1, p1x, p1y, m2, p2x, p2y).0 == -pair_force(g, m2, p2x, p2y, m1, p1x, p1y).0,
        pair_force(g, m1, p1x, p1y, m2, p2x, p2y).1 == -pair_force(g, m2, p2x, p2y, m1, p1x, p1y).1,
{
    let dx = p2x - p1x;
    let dy = p2y - p1y;
    assert(dx * dx == (p1x - p2x) * (p1x - p2x) && dy * dy == (p1y - p2y) * (p1y - p2y))
        by (nonlinear_arith)
        requires dx == p2x - p1x, dy == p2y - p1y,
    ;
    let r2 = dx * dx + dy * dy;
    if r2 != 0 {
        assert(r2 >= 1) by (nonlinear_arith)
            requires r2 == dx * dx + dy * dy, r2 != 0,
        ;
        crate::math::lemma_sqrt_floor_bounds(r2 as nat);
        let r = sqrt_floor(r2 as nat) as int;
        if r == 0 {
            assert((0nat + 1) * (0nat + 1) == 1nat) by (nonlinear_arith);
            assert(false);
        }
        assert(r2 * r > 0) by (nonlinear_arith)
            requires r2 >= 1, r >= 1,
        ;
        let c1 = g * m2 * m1;
        let c2 = g * m1 * m2;
        assert(c1 == c2) by (nonlinear_arith)
            requires c1 == g * m2 * m1, c2 == g * m1 * m2,
        ;
        assert(c2 * (p1x - p2x) == -(c1 * dx) && c2 * (p1y - p2y) == -(c1 * dy))
            by (nonlinear_arith)
            requires c1 == c2, dx == p2x - p1x, dy == p2y - p1y,
        ;
        crate::math::lemma_tdiv_neg(c1 * dx, r2 * r);
        crate::math::lemma_tdiv_neg(c1 * dy, r2 * r);
    }
}

} // verus!
