//! The tree: one root cell sized to cover a caller-supplied bounding box,
//! incremental insertion, and the two query modes.
//!
//! A tree is built once per simulation tick: construct it over a box that
//! covers the bodies, insert every body, then query it read-only. `force`
//! evaluates the configured pairwise law against every contributor the
//! approximation selects; `point_masses` reports those contributors instead,
//! for a caller that applies its own law.

use vstd::prelude::*;

use crate::arith::div2_floor;
use crate::ident::Id;
use crate::limits::MAX_BODIES;
use crate::limits::MAX_BODY_MASS;
use crate::limits::MAX_COORD;
use crate::limits::MAX_FORCE_CONST;
use crate::limits::MAX_THETA;
use crate::node::Body;
use crate::node::Node;
use crate::node::msum;
use crate::node::wsum;
use crate::query::Contrib;
use crate::query::Force;
use crate::query::PointMass;
use crate::query::force_of_contribs;
use crate::query::force_sum;
use crate::query::lemma_contribs_ok;
use crate::query::points_of_contribs;
use crate::vec3::V3;

verus! {

/// An octree over one group of point bodies, with running mass and
/// center-of-mass aggregates at every cell.
pub struct BarnesHutTree<TId: Id> {
    /// The root cell, a cube covering the bounding box given at creation.
    pub root: Node<TId>,
    /// How many bodies were inserted; used to pre-size query results.
    pub count: usize,
}

impl<TId: Id> BarnesHutTree<TId> {
    /// Well-formed: the root's aggregates are exact and `count` is the
    /// number of bodies inserted.
    pub open spec fn wf(self) -> bool {
        &&& self.root.wf()
        &&& self.count == self.root.bodies().len()
    }

    /// The bodies inserted so far, in traversal order.
    pub open spec fn bodies(self) -> Seq<Body<TId>> {
        self.root.bodies()
    }

    /// The contributors a query selects: the one traversal both query
    /// modes share.
    pub open spec fn query_contribs(self, id: TId, position: V3, tn: int, td: int) -> Seq<
        Contrib,
    > {
        self.root.contribs(id, position, tn, td)
    }

    /// What `force` returns, per axis: the force law summed over the
    /// selected contributors.
    pub open spec fn force_spec(
        self,
        id: TId,
        position: V3,
        kn: int,
        kd: int,
        e: int,
        tn: int,
        td: int,
    ) -> (int, int, int) {
        force_sum(self.query_contribs(id, position, tn, td), position, kn, kd, e)
    }

    /// A fresh, empty tree over the box `[min_bound, max_bound]`: a cube
    /// centered at the box's midpoint whose edge is the box's largest
    /// dimension (an octree needs cubic cells, so a non-cubic box is
    /// covered by a cube).
    pub fn new(min_bound: V3, max_bound: V3) -> (r: Self)
        requires
            min_bound.bounded(MAX_COORD as int),
            max_bound.bounded(MAX_COORD as int),
            min_bound.x <= max_bound.x,
            min_bound.y <= max_bound.y,
            min_bound.z <= max_bound.z,
        ensures
            r.wf(),
            r.bodies() == Seq::<Body<TId>>::empty(),
            r.count == 0,
            r.root.kind is Empty,
            r.root.midpoint.x == (min_bound.x + max_bound.x) / 2,
            r.root.midpoint.y == (min_bound.y + max_bound.y) / 2,
            r.root.midpoint.z == (min_bound.z + max_bound.z) / 2,
            r.root.size == vstd::math::max(
                max_bound.x - min_bound.x,
                vstd::math::max(max_bound.y - min_bound.y, max_bound.z - min_bound.z),
            ),
    {
        let dx = max_bound.x - min_bound.x;
        let dy = max_bound.y - min_bound.y;
        let dz = max_bound.z - min_bound.z;
        let mut size = dx;
        if dy > size {
            size = dy;
        }
        if dz > size {
            size = dz;
        }
        let midpoint = V3 {
            x: div2_floor(min_bound.x + max_bound.x),
            y: div2_floor(min_bound.y + max_bound.y),
            z: div2_floor(min_bound.z + max_bound.z),
        };
        BarnesHutTree { root: Node::new(midpoint, size), count: 0 }
    }

    /// Insert one body. The root keeps its cube; the aggregates gain
    /// exactly this body's mass and weighted position; the body count goes
    /// up by one. A position outside the root cube is tolerated: it lands
    /// in whichever octant each midpoint comparison selects.
    pub fn insert(&mut self, id: TId, position: V3, mass: i64)
        requires
            old(self).wf(),
            position.bounded(MAX_COORD as int),
            -MAX_BODY_MASS <= mass <= MAX_BODY_MASS,
            old(self).count < MAX_BODIES,
        ensures
            final(self).wf(),
            final(self).count == old(self).count + 1,
            final(self).bodies().to_multiset() == old(self).bodies().to_multiset().insert(
                Body { id, pos: position, mass },
            ),
            final(self).root.mass == old(self).root.mass + mass,
            final(self).root.weighted.x == old(self).root.weighted.x + mass * position.x,
            final(self).root.weighted.y == old(self).root.weighted.y + mass * position.y,
            final(self).root.weighted.z == old(self).root.weighted.z + mass * position.z,
            final(self).root.midpoint == old(self).root.midpoint,
            final(self).root.size == old(self).root.size,
    {
        let mid = self.root.midpoint;
        let size = self.root.size;
        let mut taken: Node<TId> = Node::new(mid, size);
        core::mem::swap(&mut self.root, &mut taken);
        let grown = taken.insert(id, position, mass);
        self.root = grown;
        self.count = self.count + 1;
    }

    /// The approximate net force on a hypothetical body `id` at `position`,
    /// under the law `F = (kn/kd) * m * u * (r + 1)^e` with threshold
    /// `theta = tn/td`: exactly the force law summed over the contributors
    /// the traversal selects.
    pub fn force(
        &self,
        id: TId,
        position: V3,
        force_num: i64,
        force_den: i64,
        distance_exp: i32,
        theta_num: i64,
        theta_den: i64,
    ) -> (r: Force)
        requires
            self.wf(),
            position.bounded(MAX_COORD as int),
            -MAX_FORCE_CONST <= force_num <= MAX_FORCE_CONST,
            1 <= force_den <= MAX_FORCE_CONST,
            distance_exp <= 1,
            0 <= theta_num <= MAX_THETA,
            1 <= theta_den <= MAX_THETA,
        ensures
            r.x == self.force_spec(
                id,
                position,
                force_num as int,
                force_den as int,
                distance_exp as int,
                theta_num as int,
                theta_den as int,
            ).0,
            r.y == self.force_spec(
                id,
                position,
                force_num as int,
                force_den as int,
                distance_exp as int,
                theta_num as int,
                theta_den as int,
            ).1,
            r.z == self.force_spec(
                id,
                position,
                force_num as int,
                force_den as int,
                distance_exp as int,
                theta_num as int,
                theta_den as int,
            ).2,
    {
        let mut out: Vec<Contrib> = Vec::with_capacity(self.count);
        self.root.collect_contribs(&id, &position, theta_num, theta_den, &mut out);
        proof {
            lemma_contribs_ok(self.root, id, position, theta_num as int, theta_den as int);
            assert(out@ =~= self.root.contribs(id, position, theta_num as int, theta_den as int));
        }
        force_of_contribs(&out, &position, force_num, force_den, distance_exp)
    }

    /// The contributors the same traversal selects, reported as point
    /// masses instead of folded through a force law, so a caller can apply
    /// an arbitrary law downstream. Each entry carries its contributor's
    /// exact position as the pair `weighted / denom`, so nothing is lost to
    /// rounding: folding the pairwise law over the reported pairs gives
    /// back exactly what `force` returns for the same query (proved by
    /// `crate::laws::lemma_point_masses_reproduce_force`). The list never
    /// holds more entries than bodies were inserted.
    pub fn point_masses(&self, id: TId, position: V3, theta_num: i64, theta_den: i64) -> (r: Vec<
        PointMass,
    >)
        requires
            self.wf(),
            position.bounded(MAX_COORD as int),
            0 <= theta_num <= MAX_THETA,
            1 <= theta_den <= MAX_THETA,
        ensures
            r@.len() == self.query_contribs(id, position, theta_num as int, theta_den as int).len(),
            r@.len() <= self.count,
            forall|j: int|
                0 <= j < r@.len() ==> r@[j] == (#[trigger] self.query_contribs(
                    id,
                    position,
                    theta_num as int,
                    theta_den as int,
                )[j]).as_point_mass(),
    {
        let mut out: Vec<Contrib> = Vec::with_capacity(self.count);
        self.root.collect_contribs(&id, &position, theta_num, theta_den, &mut out);
        proof {
            lemma_contribs_ok(self.root, id, position, theta_num as int, theta_den as int);
            assert(out@ =~= self.root.contribs(id, position, theta_num as int, theta_den as int));
        }
        points_of_contribs(&out, self.count)
    }

    /// The total mass of every body inserted so far (the root aggregate).
    pub fn total_mass(&self) -> (r: i64)
        requires
            self.wf(),
        ensures
            r == msum(self.bodies()),
    {
        self.root.mass
    }

    /// The sum of `mass * position` over every body inserted so far (the
    /// root aggregate); the exact center of mass is this over `total_mass`.
    pub fn weighted_sum(&self) -> (r: V3)
        requires
            self.wf(),
        ensures
            r.x == wsum(self.bodies(), 0),
            r.y == wsum(self.bodies(), 1),
            r.z == wsum(self.bodies(), 2),
    {
        self.root.weighted
    }

    /// How many bodies were inserted.
    pub fn body_count(&self) -> (r: usize)
        ensures
            r == self.count,
    {
        self.count
    }
}

} // verus!
