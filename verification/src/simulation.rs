//! The fixed-timestep stepping core.
//!
//! A `Simulation` owns the body registry, the shared adaptive bounding box
//! and the last published tree diagnostic snapshot. Each call to `tick`
//! performs one step: size a fresh quadtree to the bounding box, insert
//! every body whose position the box contains, inclusive of its edges
//! (skipping, for this tick only, bodies outside the box and bodies
//! colocated with an already inserted one), publish the snapshot,
//! integrate every body with
//! semi-implicit Euler, and replace the bounding box with the exact extents
//! of the updated positions. The caller drives the cadence; the library
//! performs the step.

use vstd::prelude::*;

use crate::BOX_LIMIT;
use crate::DT_LIMIT;
use crate::GRAVITY;
use crate::MASS_LIMIT;
use crate::POS_LIMIT;
use crate::THETA_LIMIT;
use crate::VEL_LIMIT;
use crate::boid::Boid;
use crate::boid::BoidView;
use crate::boundary::Boundary;
use crate::math::tdiv;
use crate::quadtree::Quadtree;
use crate::quadtree::agg_mass;
use crate::signals::Body;
use crate::signals::TreeState;
use crate::vector::Vector2;
use vstd::pervasive::VecAdditionalExecFns;

verus! {

/// Magnitude bound on every velocity component after one tick.
pub const STEP_VEL_BOUND: i64 = 270_000_000_000_000;

/// Magnitude bound on every position component after one tick.
pub const STEP_POS_BOUND: i64 = 70_000_000_000_000_000;

/// Views of a body list, element by element.
pub open spec fn views_of(bs: Seq<Boid>) -> Seq<BoidView> {
    bs.map_values(|b: Boid| b@)
}

/// The subsequence of bodies a tick actually inserts into its tree: those
/// whose position lies within the region, inclusive of its edges, keeping
/// only the first of any group sharing one position.
pub open spec fn inserted_filter(views: Seq<BoidView>, b: Boundary) -> Seq<BoidView>
    decreases views.len(),
{
    if views.len() == 0 {
        Seq::empty()
    } else {
        let pre = inserted_filter(views.drop_last(), b);
        let last = views.last();
        if b.contains_point(last.position) && (forall|j: int|
            0 <= j < views.len() - 1 ==> (#[trigger] views[j]).position != last.position) {
            pre.push(last)
        } else {
            pre
        }
    }
}

/// Least x coordinate among the bodies' positions.
pub open spec fn min_x(s: Seq<BoidView>) -> int
    recommends
        s.len() > 0,
    decreases s.len(),
{
    if s.len() <= 1 {
        s[0].position.x as int
    } else {
        vstd::math::min(min_x(s.drop_last()), s.last().position.x as int)
    }
}

/// Least y coordinate among the bodies' positions.
pub open spec fn min_y(s: Seq<BoidView>) -> int
    recommends
        s.len() > 0,
    decreases s.len(),
{
    if s.len() <= 1 {
        s[0].position.y as int
    } else {
        vstd::math::min(min_y(s.drop_last()), s.last().position.y as int)
    }
}

/// Greatest x coordinate among the bodies' positions.
pub open spec fn max_x(s: Seq<BoidView>) -> int
    recommends
        s.len() > 0,
    decreases s.len(),
{
    if s.len() <= 1 {
        s[0].position.x as int
    } else {
        vstd::math::max(max_x(s.drop_last()), s.last().position.x as int)
    }
}

/// Greatest y coordinate among the bodies' positions.
pub open spec fn max_y(s: Seq<BoidView>) -> int
    recommends
        s.len() > 0,
    decreases s.len(),
{
    if s.len() <= 1 {
        s[0].position.y as int
    } else {
        vstd::math::max(max_y(s.drop_last()), s.last().position.y as int)
    }
}

/// The computed extents bound every body's position.
pub proof fn lemma_minmax_bounds(s: Seq<BoidView>)
    requires
        s.len() > 0,
    ensures
        forall|i: int|
            0 <= i < s.len() ==> min_x(s) <= (#[trigger] s[i]).position.x <= max_x(s) && min_y(s)
                <= s[i].position.y <= max_y(s),
    decreases s.len(),
{
    if s.len() > 1 {
        lemma_minmax_bounds(s.drop_last());
        assert forall|i: int|
            0 <= i < s.len() implies min_x(s) <= (#[trigger] s[i]).position.x <= max_x(s) && min_y(
            s,
        ) <= s[i].position.y <= max_y(s) by {
            if i < s.len() - 1 {
                assert(s.drop_last()[i] == s[i]);
            }
        }
    }
}

/// One step of semi-implicit Euler: `post` is `pre` after acquiring the
/// acceleration `f / mass` over `dt`, the new velocity first, then the
/// position moved by the new velocity.
pub open spec fn step_ok(pre: BoidView, post: BoidView, tree: Quadtree, dt: int, num: int, den: int) -> bool {
    let f = tree.force_spec(pre.position.x as int, pre.position.y as int, pre.mass, num, den);
    &&& post.mass == pre.mass
    &&& post.velocity.x == pre.velocity.x + tdiv(f.0, pre.mass) * dt
    &&& post.velocity.y == pre.velocity.y + tdiv(f.1, pre.mass) * dt
    &&& post.position.x == pre.position.x + post.velocity.x * dt
    &&& post.position.y == pre.position.y + post.velocity.y * dt
}

/// A region at least as large as a bounding box retains every body inside
/// that box, edges included: containment is inclusive, so nothing within
/// the exact extents is dropped.
pub proof fn law_bbox_retains(s: Seq<BoidView>, b: Boundary)
    requires
        s.len() > 0,
        b.min.x <= min_x(s),
        b.min.y <= min_y(s),
        b.max.x >= max_x(s),
        b.max.y >= max_y(s),
    ensures
        forall|i: int| 0 <= i < s.len() ==> b.contains_point((#[trigger] s[i]).position),
{
    lemma_minmax_bounds(s);
}

/// Build one tick's tree over the requested region: insert every body the
/// region contains (inclusive of its edges), skipping any body colocated
/// with an already inserted one.
#[verifier::rlimit(100)]
fn build_tick_tree(boids: &Vec<Boid>, boundary: Boundary) -> (tree: Quadtree)
    requires
        -BOX_LIMIT <= boundary.min.x,
        -BOX_LIMIT <= boundary.min.y,
        boundary.max.x <= BOX_LIMIT,
        boundary.max.y <= BOX_LIMIT,
        boundary.min.x <= boundary.max.x,
        boundary.min.y <= boundary.max.y,
        forall|j: int| 0 <= j < boids@.len() ==> (#[trigger] views_of(boids@)[j]).mass >= 1,
        agg_mass(views_of(boids@)) <= MASS_LIMIT,
    ensures
        tree.wf(),
        tree.outer_spec().wf(),
        tree.boundary_spec() == boundary,
        tree.body_views() == inserted_filter(views_of(boids@), boundary),
{
    let ghost vs0 = views_of(boids@);
    let n = boids.len();
    let mut tree = Quadtree::new(boundary);
    proof {
        assert(vs0.take(0) =~= Seq::<BoidView>::empty());
        assert(inserted_filter(vs0.take(0), boundary) =~= Seq::<BoidView>::empty());
    }
    let mut k: usize = 0;
    while k < n
        invariant
            0 <= k <= n,
            n == boids.len(),
            vs0 == views_of(boids@),
            vs0.len() == n,
            forall|j: int| 0 <= j < n ==> (#[trigger] vs0[j]).mass >= 1,
            agg_mass(vs0) <= MASS_LIMIT,
            tree.wf(),
            tree.outer_spec().wf(),
            tree.boundary_spec() == boundary,
            tree.body_views() == inserted_filter(vs0.take(k as int), boundary),
            tree.total_mass() <= agg_mass(vs0.take(k as int)),
            forall|l: int|
                0 <= l < tree.body_views().len() ==> exists|j: int|
                    0 <= j < k && (#[trigger] tree.body_views()[l]).position == vs0[j].position
                        && boundary.contains_point(vs0[j].position),
            forall|j: int|
                0 <= j < k && boundary.contains_point((#[trigger] vs0[j]).position)
                    ==> exists|l: int|
                    0 <= l < tree.body_views().len() && (
                    #[trigger] tree.body_views()[l]).position == vs0[j].position,
        decreases n - k,
    {
        proof {
            crate::quadtree::lemma_agg_take_step(vs0, k as int);
            crate::quadtree::lemma_agg_take_le(vs0, k as int + 1);
            crate::quadtree::law_mass_is_sum(tree);
            assert(vs0.take(k as int + 1).drop_last() =~= vs0.take(k as int));
            assert(vs0.take(k as int + 1).last() == vs0[k as int]);
            assert forall|j: int| 0 <= j < k implies vs0.take(k as int + 1)[j] == (
            #[trigger] vs0[j]) by {}
        }
        let b = boids[k];
        proof {
            assert(vs0[k as int] == boids@[k as int]@);
            assert(b@ == vs0[k as int]);
        }
        let p = b.position();
        let ghost tv0 = tree.body_views();
        if !tree.has_body_at(p) {
            let r = tree.insert(b);
            proof {
                crate::quadtree::law_mass_is_sum(tree);
                if boundary.contains_point(b@.position) {
                    // no earlier body shares this position: the tree
                    // would already hold one there
                    assert forall|j: int| 0 <= j < k implies (
                    #[trigger] vs0[j]).position != b@.position by {
                        if vs0[j].position == b@.position {
                            assert(boundary.contains_point(vs0[j].position));
                        }
                    }
                    assert(tree.body_views() == tv0.push(b@));
                    assert(inserted_filter(vs0.take(k as int + 1), boundary) == tv0.push(b@));
                    assert forall|l: int| 0 <= l < tree.body_views().len() implies exists|
                        j: int,
                    |
                        0 <= j < k + 1 && (#[trigger] tree.body_views()[l]).position
                            == vs0[j].position && boundary.contains_point(
                            vs0[j].position,
                        ) by {
                        if l < tv0.len() {
                            assert(tree.body_views()[l] == tv0[l]);
                            let j = choose|j: int|
                                0 <= j < k && (#[trigger] tv0[l]).position == vs0[j].position
                                    && boundary.contains_point(vs0[j].position);
                            assert(0 <= j < k + 1 && tree.body_views()[l].position
                                == vs0[j].position && boundary.contains_point(
                                vs0[j].position,
                            ));
                        } else {
                            assert(tree.body_views()[l] == b@);
                            assert(tree.body_views()[l].position == vs0[k as int].position);
                        }
                    }
                    assert forall|j: int|
                        0 <= j < k + 1 && boundary.contains_point((
                    #[trigger] vs0[j]).position) implies exists|l: int|
                        0 <= l < tree.body_views().len() && (
                        #[trigger] tree.body_views()[l]).position == vs0[j].position by {
                        if j < k {
                            let l = choose|l: int|
                                0 <= l < tv0.len() && (#[trigger] tv0[l]).position
                                    == vs0[j].position;
                            assert(tree.body_views()[l] == tv0[l]);
                        } else {
                            assert(tree.body_views()[tv0.len() as int] == b@);
                        }
                    }
                } else {
                    assert(tree.body_views() == tv0);
                    assert(inserted_filter(vs0.take(k as int + 1), boundary) == tv0);
                }
            }
        } else {
            proof {
                let l0 = choose|l: int|
                    0 <= l < tv0.len() && (#[trigger] tv0[l]).position == b@.position;
                let j0 = choose|j: int|
                    0 <= j < k && (#[trigger] tv0[l0]).position == vs0[j].position
                        && boundary.contains_point(vs0[j].position);
                assert(vs0[j0].position == b@.position);
                assert(!(forall|jj: int|
                    0 <= jj < k ==> (#[trigger] vs0.take(k as int + 1)[jj]).position
                        != b@.position)) by {
                    assert(vs0.take(k as int + 1)[j0] == vs0[j0]);
                }
                assert(inserted_filter(vs0.take(k as int + 1), boundary) == tv0);
                assert forall|j: int|
                    0 <= j < k + 1 && boundary.contains_point((
                #[trigger] vs0[j]).position) implies exists|l: int|
                    0 <= l < tree.body_views().len() && (
                    #[trigger] tree.body_views()[l]).position == vs0[j].position by {
                    if j == k {
                        assert(tv0[l0].position == vs0[k as int].position);
                    }
                }
            }
        }
        k = k + 1;
    }
    proof {
        assert(vs0.take(n as int) =~= vs0);
    }
    tree
}

/// The simulation context: the body registry, the shared adaptive bounding
/// box, and the last published tree diagnostic snapshot.
pub struct Simulation {
    boids: Vec<Boid>,
    bbox_min: Vector2,
    bbox_max: Vector2,
    tree_state: Option<TreeState>,
}

impl Simulation {
    /// Views of the registered bodies, in registration order.
    pub closed spec fn body_views(self) -> Seq<BoidView> {
        views_of(self.boids@)
    }

    /// The shared bounding box, lower corner.
    pub closed spec fn bbox_min_spec(self) -> Vector2 {
        self.bbox_min
    }

    /// The shared bounding box, upper corner.
    pub closed spec fn bbox_max_spec(self) -> Vector2 {
        self.bbox_max
    }

    /// The last published diagnostic snapshot.
    pub closed spec fn tree_state_spec(self) -> Option<TreeState> {
        self.tree_state
    }

    /// Well-formedness: the bounding box is ordered and within range, and
    /// every registered body has unit-or-larger mass with the aggregate
    /// within the mass budget.
    pub closed spec fn wf(self) -> bool {
        &&& -BOX_LIMIT <= self.bbox_min.x
        &&& -BOX_LIMIT <= self.bbox_min.y
        &&& self.bbox_max.x <= BOX_LIMIT
        &&& self.bbox_max.y <= BOX_LIMIT
        &&& self.bbox_min.x <= self.bbox_max.x
        &&& self.bbox_min.y <= self.bbox_max.y
        &&& forall|i: int|
            0 <= i < self.body_views().len() ==> (#[trigger] self.body_views()[i]).mass >= 1
        &&& agg_mass(self.body_views()) <= MASS_LIMIT
    }

    /// Positions and velocities are within the range a tick accepts.
    pub closed spec fn in_limits(self) -> bool {
        forall|i: int|
            0 <= i < self.body_views().len() ==> -POS_LIMIT <= (
            #[trigger] self.body_views()[i]).position.x <= POS_LIMIT && -POS_LIMIT
                <= self.body_views()[i].position.y <= POS_LIMIT && -VEL_LIMIT
                <= self.body_views()[i].velocity.x <= VEL_LIMIT && -VEL_LIMIT
                <= self.body_views()[i].velocity.y <= VEL_LIMIT
    }

    /// A fresh simulation with an empty registry, the default bounding box
    /// and no published snapshot.
    pub fn new() -> (s: Self)
        ensures
            s.wf(),
            s.in_limits(),
            s.body_views() == Seq::<BoidView>::empty(),
            s.bbox_min_spec() == (Vector2 { x: 0i64, y: 0i64 }),
            s.bbox_max_spec() == (Vector2 { x: 1000i64, y: 1000i64 }),
            s.tree_state_spec() is None,
    {
        let s = Simulation {
            boids: Vec::new(),
            bbox_min: Vector2 { x: 0, y: 0 },
            bbox_max: Vector2 { x: 1000, y: 1000 },
            tree_state: None,
        };
        proof {
            assert(s.body_views() =~= Seq::<BoidView>::empty());
        }
        s
    }

    /// Register one body. The registry is append-only.
    pub fn add_boid(&mut self, b: Boid)
        requires
            old(self).wf(),
            old(self).in_limits(),
            1 <= b@.mass,
            agg_mass(old(self).body_views()) + b@.mass <= MASS_LIMIT,
            -POS_LIMIT <= b@.position.x <= POS_LIMIT,
            -POS_LIMIT <= b@.position.y <= POS_LIMIT,
            -VEL_LIMIT <= b@.velocity.x <= VEL_LIMIT,
            -VEL_LIMIT <= b@.velocity.y <= VEL_LIMIT,
        ensures
            final(self).wf(),
            final(self).in_limits(),
            final(self).body_views() == old(self).body_views().push(b@),
            final(self).bbox_min_spec() == old(self).bbox_min_spec(),
            final(self).bbox_max_spec() == old(self).bbox_max_spec(),
            final(self).tree_state_spec() == old(self).tree_state_spec(),
    {
        self.boids.push(b);
        proof {
            assert(self.body_views() =~= old(self).body_views().push(b@));
            assert(self.body_views().drop_last() =~= old(self).body_views());
        }
    }

    /// Snapshots of the registered bodies, in registration order.
    pub fn bodies(&self) -> (v: Vec<Body>)
        ensures
            v@.len() == self.body_views().len(),
            forall|i: int|
                0 <= i < v@.len() ==> (#[trigger] v@[i]).position == self.body_views()[i].position
                    && v@[i].velocity == self.body_views()[i].velocity && v@[i].mass as int
                    == self.body_views()[i].mass,
    {
        let n = self.boids.len();
        let mut v: Vec<Body> = Vec::new();
        let mut k: usize = 0;
        while k < n
            invariant
                0 <= k <= n,
                n == self.boids.len(),
                v@.len() == k,
                forall|i: int|
                    0 <= i < k ==> (#[trigger] v@[i]).position == self.body_views()[i].position
                        && v@[i].velocity == self.body_views()[i].velocity && v@[i].mass as int
                        == self.body_views()[i].mass,
            decreases n - k,
        {
            let b = &self.boids[k];
            v.push(Body { position: b.position(), velocity: b.velocity(), mass: b.mass() });
            k = k + 1;
        }
        v
    }

    /// The shared bounding box as a `(min, max)` pair.
    pub fn bounding_box(&self) -> (b: (Vector2, Vector2))
        ensures
            b.0 == self.bbox_min_spec(),
            b.1 == self.bbox_max_spec(),
    {
        (self.bbox_min, self.bbox_max)
    }

    /// The last published diagnostic snapshot, if a tick has run.
    pub fn tree_state(&self) -> (t: &Option<TreeState>)
        ensures
            *t == self.tree_state_spec(),
    {
        &self.tree_state
    }

    /// Do the registered bodies currently satisfy the tick's range limits?
    pub fn within_limits(&self) -> (r: bool)
        ensures
            r == self.in_limits(),
    {
        let n = self.boids.len();
        let mut k: usize = 0;
        while k < n
            invariant
                0 <= k <= n,
                n == self.boids.len(),
                forall|i: int|
                    0 <= i < k ==> -POS_LIMIT <= (#[trigger] self.body_views()[i]).position.x
                        <= POS_LIMIT && -POS_LIMIT <= self.body_views()[i].position.y <= POS_LIMIT
                        && -VEL_LIMIT <= self.body_views()[i].velocity.x <= VEL_LIMIT && -VEL_LIMIT
                        <= self.body_views()[i].velocity.y <= VEL_LIMIT,
            decreases n - k,
        {
            let p = self.boids[k].position();
            let vel = self.boids[k].velocity();
            if p.x < -POS_LIMIT || p.x > POS_LIMIT || p.y < -POS_LIMIT || p.y > POS_LIMIT
                || vel.x < -VEL_LIMIT || vel.x > VEL_LIMIT || vel.y < -VEL_LIMIT
                || vel.y > VEL_LIMIT {
                proof {
                    assert(self.body_views()[k as int] == self.boids@[k as int]@);
                    if self.in_limits() {
                        assert(-POS_LIMIT <= self.body_views()[k as int].position.x <= POS_LIMIT
                            && -POS_LIMIT <= self.body_views()[k as int].position.y <= POS_LIMIT
                            && -VEL_LIMIT <= self.body_views()[k as int].velocity.x <= VEL_LIMIT
                            && -VEL_LIMIT <= self.body_views()[k as int].velocity.y <= VEL_LIMIT);
                        assert(false);
                    }
                }
                return false;
            }
            k = k + 1;
        }
        true
    }

    /// One simulation step.
    ///
    /// Builds a fresh tree over the current bounding box, inserts the
    /// coverable bodies, publishes the diagnostic snapshot, integrates
    /// every registered body against the tree with semi-implicit Euler over
    /// `dt`, and replaces the bounding box with the exact extents of the
    /// updated positions (a degenerate box at the origin if the registry is
    /// empty). Returns the tick's tree, so callers can relate the new body
    /// states to the forces that produced them.
    #[verifier::rlimit(100)]
    pub fn tick(&mut self, dt: i64, theta_num: i64, theta_den: i64) -> (tree: Quadtree)
        requires
            old(self).wf(),
            old(self).in_limits(),
            1 <= dt <= DT_LIMIT,
            0 <= theta_num <= THETA_LIMIT,
            1 <= theta_den <= THETA_LIMIT,
        ensures
            final(self).wf(),
            tree.wf(),
            tree.boundary_spec() == (Boundary {
                min: old(self).bbox_min_spec(),
                max: old(self).bbox_max_spec(),
            }),
            tree.body_views() == inserted_filter(old(self).body_views(), tree.boundary_spec()),
            final(self).body_views().len() == old(self).body_views().len(),
            forall|i: int|
                0 <= i < old(self).body_views().len() ==> step_ok(
                    old(self).body_views()[i],
                    #[trigger] final(self).body_views()[i],
                    tree,
                    dt as int,
                    theta_num as int,
                    theta_den as int,
                ),
            forall|i: int|
                0 <= i < final(self).body_views().len() ==> -STEP_POS_BOUND <= (
                #[trigger] final(self).body_views()[i]).position.x <= STEP_POS_BOUND
                    && -STEP_POS_BOUND <= final(self).body_views()[i].position.y <= STEP_POS_BOUND
                    && -STEP_VEL_BOUND <= final(self).body_views()[i].velocity.x <= STEP_VEL_BOUND
                    && -STEP_VEL_BOUND <= final(self).body_views()[i].velocity.y
                    <= STEP_VEL_BOUND,
            old(self).body_views().len() == 0 ==> final(self).bbox_min_spec() == (Vector2 {
                x: 0i64,
                y: 0i64,
            }) && final(self).bbox_max_spec() == (Vector2 { x: 0i64, y: 0i64 }),
            old(self).body_views().len() > 0 ==> final(self).bbox_min_spec().x as int == min_x(
                final(self).body_views(),
            ),
            old(self).body_views().len() > 0 ==> final(self).bbox_min_spec().y as int == min_y(
                final(self).body_views(),
            ),
            old(self).body_views().len() > 0 ==> final(self).bbox_max_spec().x as int == max_x(
                final(self).body_views(),
            ),
            old(self).body_views().len() > 0 ==> final(self).bbox_max_spec().y as int == max_y(
                final(self).body_views(),
            ),
            final(self).tree_state_spec() is Some,
            final(self).tree_state_spec()->0.boundaries@ == tree.leaves_spec(),
            final(self).tree_state_spec()->0.center_of_mass.x as int == tree.com_x(),
            final(self).tree_state_spec()->0.center_of_mass.y as int == tree.com_y(),
            final(self).tree_state_spec()->0.outer_bounds == tree.outer_spec(),
            final(self).tree_state_spec()->0.center.x as int == tree.outer_spec().min.x
                + tree.outer_spec().side() / 2,
            final(self).tree_state_spec()->0.center.y as int == tree.outer_spec().min.y
                + tree.outer_spec().side() / 2,
    {
        let ghost vs0 = self.body_views();
        let n = self.boids.len();

        // step 1 and 2: size a fresh tree to the shared box and fill it
        let boundary = Boundary { min: self.bbox_min, max: self.bbox_max };
        proof {
            assert(views_of(self.boids@) == vs0);
        }
        let tree = build_tick_tree(&self.boids, boundary);

        // step 3: publish the diagnostic snapshot
        let outer = tree.outer_bounds();
        proof {
            crate::math::lemma_pow2_pos(outer.side());
        }
        let ts = TreeState {
            boundaries: tree.boundaries(),
            center_of_mass: tree.center_of_mass(),
            outer_bounds: outer,
            center: outer.center(),
        };
        self.tree_state = Some(ts);

        proof {
            crate::quadtree::lemma_wf_mass_bounds(tree);
            assert forall|j: int| 0 <= j < n implies 1 <= (#[trigger] vs0[j]).mass
                <= MASS_LIMIT by {
                crate::quadtree::lemma_agg_elem_le(vs0, j);
            }
        }

        // step 4 and 5: integrate each body and track the new extents
        let mut mn_x: Option<i64> = None;
        let mut mn_y: Option<i64> = None;
        let mut mx_x: Option<i64> = None;
        let mut mx_y: Option<i64> = None;
        let mut k2: usize = 0;
        while k2 < n
            invariant
                0 <= k2 <= n,
                n == self.boids.len(),
                self.body_views().len() == n,
                vs0.len() == n,
                tree.wf(),
                0 <= tree.total_mass() <= MASS_LIMIT,
                1 <= dt <= DT_LIMIT,
                0 <= theta_num <= THETA_LIMIT,
                1 <= theta_den <= THETA_LIMIT,
                forall|j: int| 0 <= j < n ==> 1 <= (#[trigger] vs0[j]).mass <= MASS_LIMIT,
                forall|j: int|
                    0 <= j < n ==> -POS_LIMIT <= (#[trigger] vs0[j]).position.x <= POS_LIMIT
                        && -POS_LIMIT <= vs0[j].position.y <= POS_LIMIT && -VEL_LIMIT
                        <= vs0[j].velocity.x <= VEL_LIMIT && -VEL_LIMIT <= vs0[j].velocity.y
                        <= VEL_LIMIT,
                forall|j: int| k2 <= j < n ==> #[trigger] self.body_views()[j] == vs0[j],
                forall|j: int|
                    0 <= j < k2 ==> step_ok(
                        vs0[j],
                        #[trigger] self.body_views()[j],
                        tree,
                        dt as int,
                        theta_num as int,
                        theta_den as int,
                    ),
                forall|j: int|
                    0 <= j < k2 ==> -STEP_POS_BOUND <= (
                    #[trigger] self.body_views()[j]).position.x <= STEP_POS_BOUND
                        && -STEP_POS_BOUND <= self.body_views()[j].position.y <= STEP_POS_BOUND
                        && -STEP_VEL_BOUND <= self.body_views()[j].velocity.x <= STEP_VEL_BOUND
                        && -STEP_VEL_BOUND <= self.body_views()[j].velocity.y
                        <= STEP_VEL_BOUND,
                k2 == 0 <==> mn_x is None,
                k2 == 0 <==> mn_y is None,
                k2 == 0 <==> mx_x is None,
                k2 == 0 <==> mx_y is None,
                k2 > 0 ==> mn_x->0 as int == min_x(self.body_views().take(k2 as int)),
                k2 > 0 ==> mn_y->0 as int == min_y(self.body_views().take(k2 as int)),
                k2 > 0 ==> mx_x->0 as int == max_x(self.body_views().take(k2 as int)),
                k2 > 0 ==> mx_y->0 as int == max_y(self.body_views().take(k2 as int)),
                k2 > 0 ==> -STEP_POS_BOUND <= mn_x->0 <= mx_x->0 <= STEP_POS_BOUND,
                k2 > 0 ==> -STEP_POS_BOUND <= mn_y->0 <= mx_y->0 <= STEP_POS_BOUND,
                self.tree_state_spec() is Some,
                self.tree_state_spec()->0.boundaries@ == tree.leaves_spec(),
                self.tree_state_spec()->0.center_of_mass.x as int == tree.com_x(),
                self.tree_state_spec()->0.center_of_mass.y as int == tree.com_y(),
                self.tree_state_spec()->0.outer_bounds == tree.outer_spec(),
                self.tree_state_spec()->0.center.x as int == tree.outer_spec().min.x
                    + tree.outer_spec().side() / 2,
                self.tree_state_spec()->0.center.y as int == tree.outer_spec().min.y
                    + tree.outer_spec().side() / 2,
            decreases n - k2,
        {
            let b = self.boids[k2];
            proof {
                assert(self.body_views()[k2 as int] == self.boids@[k2 as int]@);
                assert(b@ == vs0[k2 as int]);
            }
            let f = tree.calculate_force(&b, theta_num, theta_den);
            let m = b.mass();
            proof {
                let c = GRAVITY * tree.total_mass();
                assert(GRAVITY * tree.total_mass() * b@.mass == c * b@.mass) by (nonlinear_arith)
                    requires c == GRAVITY * tree.total_mass(),
                ;
                assert(0 <= c <= 1048576000000i64) by (nonlinear_arith)
                    requires
                        c == GRAVITY * tree.total_mass(),
                        0 <= tree.total_mass() <= MASS_LIMIT,
                ;
                assert(0 <= c * b@.mass <= 1099511627776000000i64) by (nonlinear_arith)
                    requires 0 <= c <= 1048576000000i64, 1 <= b@.mass <= 1048576i64,
                ;
                crate::math::lemma_tdiv_bound(f.x as int, b@.mass, c);
                crate::math::lemma_tdiv_bound(f.y as int, b@.mass, c);
            }
            let ax = crate::math::tdiv_i64(f.x, m);
            let ay = crate::math::tdiv_i64(f.y, m);
            proof {
                assert(-268435456000000i64 <= ax * dt <= 268435456000000i64) by (nonlinear_arith)
                    requires -1048576000000i64 <= ax <= 1048576000000i64, 1 <= dt <= 256i64,
                ;
                assert(-268435456000000i64 <= ay * dt <= 268435456000000i64) by (nonlinear_arith)
                    requires -1048576000000i64 <= ay <= 1048576000000i64, 1 <= dt <= 256i64,
                ;
            }
            let nvx = b.velocity().x + ax * dt;
            let nvy = b.velocity().y + ay * dt;
            proof {
                assert(-69120000000000000i64 <= nvx * dt <= 69120000000000000i64)
                    by (nonlinear_arith)
                    requires -270000000000000i64 <= nvx <= 270000000000000i64, 1 <= dt <= 256i64,
                ;
                assert(-69120000000000000i64 <= nvy * dt <= 69120000000000000i64)
                    by (nonlinear_arith)
                    requires -270000000000000i64 <= nvy <= 270000000000000i64, 1 <= dt <= 256i64,
                ;
            }
            let npx = b.position().x + nvx * dt;
            let npy = b.position().y + nvy * dt;
            let mut nb = b;
            nb.set_velocity(Vector2 { x: nvx, y: nvy });
            nb.set_position(Vector2 { x: npx, y: npy });
            let ghost pv = self.body_views();
            self.boids.set(k2, nb);
            proof {
                assert(self.body_views() =~= pv.update(k2 as int, nb@));
                assert(self.body_views()[k2 as int] == nb@);
                assert(step_ok(
                    vs0[k2 as int],
                    nb@,
                    tree,
                    dt as int,
                    theta_num as int,
                    theta_den as int,
                ));
            }
            mn_x = match mn_x {
                Some(v) => if npx < v {
                    Some(npx)
                } else {
                    Some(v)
                },
                None => Some(npx),
            };
            mn_y = match mn_y {
                Some(v) => if npy < v {
                    Some(npy)
                } else {
                    Some(v)
                },
                None => Some(npy),
            };
            mx_x = match mx_x {
                Some(v) => if npx > v {
                    Some(npx)
                } else {
                    Some(v)
                },
                None => Some(npx),
            };
            mx_y = match mx_y {
                Some(v) => if npy > v {
                    Some(npy)
                } else {
                    Some(v)
                },
                None => Some(npy),
            };
            proof {
                assert(self.body_views().take(k2 as int + 1).drop_last() =~= self.body_views()
                    .take(k2 as int));
                assert(self.body_views().take(k2 as int + 1).last() == nb@);
                if k2 > 0 {
                    assert(self.body_views().take(k2 as int) =~= pv.take(k2 as int));
                }
            }
            k2 = k2 + 1;
        }

        // replace the shared bounding box with the new exact extents
        match (mn_x, mn_y, mx_x, mx_y) {
            (Some(ax), Some(ay), Some(bx), Some(by)) => {
                self.bbox_min = Vector2 { x: ax, y: ay };
                self.bbox_max = Vector2 { x: bx, y: by };
                proof {
                    assert(self.body_views().take(n as int) =~= self.body_views());
                }
            },
            _ => {
                self.bbox_min = Vector2 { x: 0, y: 0 };
                self.bbox_max = Vector2 { x: 0, y: 0 };
            },
        }
        proof {
            assert forall|j: int| 0 <= j < n implies (#[trigger] self.body_views()[j]).mass
                == vs0[j].mass by {}
            crate::quadtree::lemma_agg_mass_pointwise(self.body_views(), vs0);
        }
        tree
    }
}

} // verus!