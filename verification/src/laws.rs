//! The guarantees the tree gives as a whole, stated once, over any
//! well-formed tree: aggregate conservation, self-exclusion, the two
//! extreme regimes of the threshold, and the octant partition.

use vstd::prelude::*;

use crate::ident::Id;
use crate::node::Body;
use crate::node::Node;
use crate::node::NodeKind;
use crate::node::branch_of;
use crate::node::internal_bodies;
use crate::node::lemma_internal_parts;
use crate::node::msum;
use crate::node::wsum;
use crate::query::Contrib;
use crate::query::accepts;
use crate::query::force_sum;
use crate::query::law_term;
use crate::query::leaf_contribs;
use crate::sum::lemma_sum_of_permutation;
use crate::tree::BarnesHutTree;
use crate::vec3::V3;

verus! {

/// Mass conservation: the root's mass is exactly the sum of every inserted
/// body's mass, and it does not depend on the order of insertion — two
/// trees holding the same bodies, however they arrived, agree on it.
pub proof fn lemma_mass_conservation<TId: Id>(t1: BarnesHutTree<TId>, t2: BarnesHutTree<TId>)
    requires
        t1.wf(),
        t2.wf(),
        t1.bodies().to_multiset() == t2.bodies().to_multiset(),
    ensures
        t1.root.mass == msum(t1.bodies()),
        t2.root.mass == msum(t2.bodies()),
        t1.root.mass == t2.root.mass,
{
    lemma_sum_of_permutation(t1.bodies(), t2.bodies(), crate::node::mass_fn::<TId>());
}

/// Center-of-mass correctness: the root's weighted position sum is exactly
/// the sum of `mass * position` over every inserted body, per axis, and
/// does not depend on the order of insertion. The exact center of mass is
/// this sum over the total mass.
pub proof fn lemma_center_of_mass<TId: Id>(t1: BarnesHutTree<TId>, t2: BarnesHutTree<TId>)
    requires
        t1.wf(),
        t2.wf(),
        t1.bodies().to_multiset() == t2.bodies().to_multiset(),
    ensures
        t1.root.weighted.x == wsum(t1.bodies(), 0),
        t1.root.weighted.y == wsum(t1.bodies(), 1),
        t1.root.weighted.z == wsum(t1.bodies(), 2),
        t1.root.weighted == t2.root.weighted,
{
    lemma_sum_of_permutation(t1.bodies(), t2.bodies(), crate::node::weighted_fn::<TId>(0));
    lemma_sum_of_permutation(t1.bodies(), t2.bodies(), crate::node::weighted_fn::<TId>(1));
    lemma_sum_of_permutation(t1.bodies(), t2.bodies(), crate::node::weighted_fn::<TId>(2));
}

/// Self-exclusion at leaf granularity: querying a tree that holds only the
/// queried body itself selects no contributor at all, so the force is zero
/// and the point-mass list empty.
pub proof fn lemma_self_exclusion<TId: Id>(
    t: BarnesHutTree<TId>,
    b: Body<TId>,
    kn: int,
    kd: int,
    e: int,
    tn: int,
    td: int,
)
    requires
        t.wf(),
        t.bodies() == seq![b],
    ensures
        t.query_contribs(b.id, b.pos, tn, td) == Seq::<Contrib>::empty(),
        t.force_spec(b.id, b.pos, kn, kd, e, tn, td) == (0int, 0int, 0int),
{
    match t.root.kind {
        NodeKind::Empty => {
            assert(t.bodies().len() == 0);
        },
        NodeKind::Leaf(bs) => {
            assert(bs@ == seq![b]);
            assert(bs@.drop_last() =~= Seq::<Body<TId>>::empty());
            assert(bs@.last() == b);
            assert(leaf_contribs(Seq::<Body<TId>>::empty(), b.id) =~= Seq::<Contrib>::empty());
            assert(leaf_contribs(bs@.drop_last(), b.id) =~= Seq::<Contrib>::empty());
            assert(leaf_contribs(bs@, b.id) =~= Seq::<Contrib>::empty());
        },
        NodeKind::Internal(cs) => {
            assert(t.bodies().len() >= 2);
        },
    }
}

/// The exact regime: with threshold zero no subtree is ever aggregated, so
/// the traversal reaches every leaf and the contributors are exactly the
/// bodies of the tree, each on its own, minus the queried one — and the
/// force is the full pairwise sum over them.
pub proof fn lemma_exact_regime<TId: Id>(
    t: BarnesHutTree<TId>,
    id: TId,
    p: V3,
    kn: int,
    kd: int,
    e: int,
    td: int,
)
    requires
        t.wf(),
    ensures
        t.query_contribs(id, p, 0, td) == leaf_contribs(t.bodies(), id),
        t.force_spec(id, p, kn, kd, e, 0, td) == force_sum(
            leaf_contribs(t.bodies(), id),
            p,
            kn,
            kd,
            e,
        ),
{
    lemma_exact_regime_node(t.root, id, p, td);
}

pub proof fn lemma_exact_regime_node<TId: Id>(n: Node<TId>, id: TId, p: V3, td: int)
    requires
        n.wf(),
    ensures
        n.contribs(id, p, 0, td) == leaf_contribs(n.bodies(), id),
    decreases n,
{
    match n.kind {
        NodeKind::Empty => {
            assert(leaf_contribs(n.bodies(), id) =~= Seq::<Contrib>::empty());
        },
        NodeKind::Leaf(bs) => {},
        NodeKind::Internal(cs) => {
            let m = n.mass as int;
            let st = (n.size as int) * td;
            assert(st * st * (m * m) >= 0 && 0 * 0 * crate::query::dist2_scaled(
                n.weighted,
                m,
                p,
            ) == 0) by (nonlinear_arith);
            assert(!accepts(n.size as int, n.weighted, m, p, 0, td));
            lemma_exact_regime_node(cs@[0], id, p, td);
            lemma_exact_regime_node(cs@[1], id, p, td);
            lemma_exact_regime_node(cs@[2], id, p, td);
            lemma_exact_regime_node(cs@[3], id, p, td);
            lemma_exact_regime_node(cs@[4], id, p, td);
            lemma_exact_regime_node(cs@[5], id, p, td);
            lemma_exact_regime_node(cs@[6], id, p, td);
            lemma_exact_regime_node(cs@[7], id, p, td);
            lemma_leaf_contribs_concat(cs@[0].bodies(), cs@[1].bodies(), id);
            lemma_leaf_contribs_concat(cs@[0].bodies() + cs@[1].bodies(), cs@[2].bodies(), id);
            lemma_leaf_contribs_concat(
                cs@[0].bodies() + cs@[1].bodies() + cs@[2].bodies(),
                cs@[3].bodies(),
                id,
            );
            lemma_leaf_contribs_concat(
                cs@[0].bodies() + cs@[1].bodies() + cs@[2].bodies() + cs@[3].bodies(),
                cs@[4].bodies(),
                id,
            );
            lemma_leaf_contribs_concat(
                cs@[0].bodies() + cs@[1].bodies() + cs@[2].bodies() + cs@[3].bodies()
                    + cs@[4].bodies(),
                cs@[5].bodies(),
                id,
            );
            lemma_leaf_contribs_concat(
                cs@[0].bodies() + cs@[1].bodies() + cs@[2].bodies() + cs@[3].bodies()
                    + cs@[4].bodies() + cs@[5].bodies(),
                cs@[6].bodies(),
                id,
            );
            lemma_leaf_contribs_concat(
                cs@[0].bodies() + cs@[1].bodies() + cs@[2].bodies() + cs@[3].bodies()
                    + cs@[4].bodies() + cs@[5].bodies() + cs@[6].bodies(),
                cs@[7].bodies(),
                id,
            );
            assert(n.bodies() == internal_bodies(cs@));
        },
    }
}

/// Excluding one identifier distributes over concatenation of body lists.
pub proof fn lemma_leaf_contribs_concat<TId: Id>(s1: Seq<Body<TId>>, s2: Seq<Body<TId>>, qid: TId)
    ensures
        leaf_contribs(s1 + s2, qid) == leaf_contribs(s1, qid) + leaf_contribs(s2, qid),
    decreases s2.len(),
{
    if s2.len() == 0 {
        assert(s1 + s2 =~= s1);
        assert(leaf_contribs(s2, qid) =~= Seq::<Contrib>::empty());
        assert(leaf_contribs(s1, qid) + leaf_contribs(s2, qid) =~= leaf_contribs(s1, qid));
    } else {
        assert((s1 + s2).drop_last() =~= s1 + s2.drop_last());
        assert((s1 + s2).last() == s2.last());
        lemma_leaf_contribs_concat(s1, s2.drop_last(), qid);
        assert(leaf_contribs(s1 + s2, qid) =~= leaf_contribs(s1, qid) + leaf_contribs(s2, qid));
    }
}

/// The degenerate regime: when the threshold accepts the root itself, the
/// whole tree stands in as one aggregate — the traversal yields exactly
/// one contributor, the root's weighted sum and mass, and the force is one
/// evaluation of the law against it, whether or not the queried body is
/// inside. The internal-root hypothesis carries the minimum-cell floor: a
/// root narrower than two units is a merged leaf, never subdivided, and so
/// never aggregated (its bodies resolve exactly instead).
pub proof fn lemma_degenerate_regime<TId: Id>(
    t: BarnesHutTree<TId>,
    id: TId,
    p: V3,
    kn: int,
    kd: int,
    e: int,
    tn: int,
    td: int,
)
    requires
        t.wf(),
        t.root.kind is Internal,
        accepts(t.root.size as int, t.root.weighted, t.root.mass as int, p, tn, td),
    ensures
        t.query_contribs(id, p, tn, td) == seq![
            Contrib::FromAgg { weighted: t.root.weighted, mass: t.root.mass },
        ],
        t.force_spec(id, p, kn, kd, e, tn, td) == law_term(
            Contrib::FromAgg { weighted: t.root.weighted, mass: t.root.mass },
            p,
            kn,
            kd,
            e,
        ),
{
    let c = Contrib::FromAgg { weighted: t.root.weighted, mass: t.root.mass };
    let s = seq![c];
    assert(s.drop_last() =~= Seq::<Contrib>::empty());
    assert(s.last() == c);
    assert(force_sum(Seq::<Contrib>::empty(), p, kn, kd, e) == (0int, 0int, 0int));
    assert(force_sum(s.drop_last(), p, kn, kd, e) == (0int, 0int, 0int));
    assert(force_sum(s, p, kn, kd, e).0 == law_term(c, p, kn, kd, e).0);
    assert(force_sum(s, p, kn, kd, e).1 == law_term(c, p, kn, kd, e).1);
    assert(force_sum(s, p, kn, kd, e).2 == law_term(c, p, kn, kd, e).2);
}

/// Element by element, a list of reported point masses carries the same
/// force terms as the contributor list it came from, so the sums agree.
pub proof fn lemma_pm_sum_matches(
    cs: Seq<Contrib>,
    pms: Seq<crate::query::PointMass>,
    p: V3,
    kn: int,
    kd: int,
    e: int,
)
    requires
        pms.len() == cs.len(),
        forall|j: int| 0 <= j < cs.len() ==> pms[j] == (#[trigger] cs[j]).as_point_mass(),
    ensures
        crate::query::pm_force_sum(pms, p, kn, kd, e) == force_sum(cs, p, kn, kd, e),
    decreases cs.len(),
{
    if cs.len() > 0 {
        assert forall|j: int|
            0 <= j < cs.drop_last().len() implies pms.drop_last()[j] == (#[trigger] cs.drop_last(
        )[j]).as_point_mass() by {
            assert(cs.drop_last()[j] == cs[j]);
            assert(pms.drop_last()[j] == pms[j]);
        }
        lemma_pm_sum_matches(cs.drop_last(), pms.drop_last(), p, kn, kd, e);
        assert(pms.last() == cs.last().as_point_mass());
        crate::query::lemma_pm_term_matches(cs.last(), p, kn, kd, e);
    }
}

/// The two query modes are one traversal with two terminal actions:
/// folding the pairwise law over the exact pairs `point_masses` reports —
/// which is what its contract says the returned list holds — yields
/// exactly what `force` returns for the same query.
pub proof fn lemma_point_masses_reproduce_force<TId: Id>(
    t: BarnesHutTree<TId>,
    id: TId,
    p: V3,
    kn: int,
    kd: int,
    e: int,
    tn: int,
    td: int,
    pms: Seq<crate::query::PointMass>,
)
    requires
        t.wf(),
        pms.len() == t.query_contribs(id, p, tn, td).len(),
        forall|j: int|
            0 <= j < pms.len() ==> pms[j] == (#[trigger] t.query_contribs(
                id,
                p,
                tn,
                td,
            )[j]).as_point_mass(),
    ensures
        crate::query::pm_force_sum(pms, p, kn, kd, e) == t.force_spec(id, p, kn, kd, e, tn, td),
{
    lemma_pm_sum_matches(t.query_contribs(id, p, tn, td), pms, p, kn, kd, e);
}

/// Summing one identifier-free leaf's contributors reproduces its mass.
pub proof fn lemma_leaf_contribs_mass<TId: Id>(bs: Seq<Body<TId>>, qid: TId)
    requires
        forall|j: int| 0 <= j < bs.len() ==> (#[trigger] bs[j]).id != qid,
    ensures
        crate::sum::sum_of(leaf_contribs(bs, qid), crate::query::contrib_mass_fn()) == msum(bs),
    decreases bs.len(),
{
    let f = crate::query::contrib_mass_fn();
    if bs.len() > 0 {
        assert(forall|j: int|
            0 <= j < bs.drop_last().len() ==> (#[trigger] bs.drop_last()[j]).id != qid) by {
            assert(forall|j: int|
                0 <= j < bs.drop_last().len() ==> bs.drop_last()[j] == #[trigger] bs[j]);
        }
        lemma_leaf_contribs_mass(bs.drop_last(), qid);
        assert(bs.last().id != qid);
        let c = Contrib::FromBody { pos: bs.last().pos, mass: bs.last().mass };
        let tail = seq![c];
        assert(tail.drop_last() =~= Seq::<Contrib>::empty());
        assert(tail.last() == c);
        assert(crate::sum::sum_of(Seq::<Contrib>::empty(), f) == 0);
        assert(crate::sum::sum_of(tail.drop_last(), f) == 0);
        assert(crate::sum::sum_of(tail, f) == f(c));
        crate::sum::lemma_sum_of_concat(leaf_contribs(bs.drop_last(), qid), tail, f);
    }
}

/// Aggregation loses no mass: for a query identifier that matches no body
/// in the tree, the masses of the selected contributors — bodies and
/// aggregated subtrees together — sum to exactly the tree's total mass,
/// whatever the threshold.
pub proof fn lemma_traversal_conserves_mass<TId: Id>(
    t: BarnesHutTree<TId>,
    qid: TId,
    p: V3,
    tn: int,
    td: int,
)
    requires
        t.wf(),
        forall|b: Body<TId>| #[trigger] t.bodies().contains(b) ==> b.id != qid,
    ensures
        crate::sum::sum_of(t.query_contribs(qid, p, tn, td), crate::query::contrib_mass_fn())
            == msum(t.bodies()),
        msum(t.bodies()) == t.root.mass,
{
    assert(t.bodies() == t.root.bodies());
    lemma_traversal_conserves_mass_node(t.root, qid, p, tn, td);
}

pub proof fn lemma_traversal_conserves_mass_node<TId: Id>(
    n: Node<TId>,
    qid: TId,
    p: V3,
    tn: int,
    td: int,
)
    requires
        n.wf(),
        forall|b: Body<TId>| #[trigger] n.bodies().contains(b) ==> b.id != qid,
    ensures
        crate::sum::sum_of(n.contribs(qid, p, tn, td), crate::query::contrib_mass_fn()) == msum(
            n.bodies(),
        ),
    decreases n,
{
    broadcast use vstd::seq_lib::group_to_multiset_ensures;
    broadcast use vstd::multiset::group_multiset_axioms;

    let f = crate::query::contrib_mass_fn();
    match n.kind {
        NodeKind::Empty => {},
        NodeKind::Leaf(bs) => {
            assert(forall|j: int| 0 <= j < bs@.len() ==> (#[trigger] bs@[j]).id != qid) by {
                assert(forall|j: int| 0 <= j < bs@.len() ==> n.bodies().contains(#[trigger] bs@[j]));
            }
            lemma_leaf_contribs_mass(bs@, qid);
        },
        NodeKind::Internal(cs) => {
            if accepts(n.size as int, n.weighted, n.mass as int, p, tn, td) {
                let c = Contrib::FromAgg { weighted: n.weighted, mass: n.mass };
                let s = seq![c];
                assert(s.drop_last() =~= Seq::<Contrib>::empty());
                assert(s.last() == c);
                assert(crate::sum::sum_of(Seq::<Contrib>::empty(), f) == 0);
                assert(crate::sum::sum_of(s.drop_last(), f) == 0);
                assert(crate::sum::sum_of(s, f) == f(c));
            } else {
                lemma_internal_parts(cs@);
                assert(n.bodies() == internal_bodies(cs@));
                assert forall|k: int, b: Body<TId>|
                    0 <= k < 8 && #[trigger] cs@[k].bodies().contains(b) implies n.bodies().contains(
                    b,
                ) by {
                    assert(cs@[k].bodies().to_multiset().count(b) > 0);
                    assert(n.bodies().to_multiset().count(b) > 0);
                }
                assert forall|k: int, b: Body<TId>|
                    0 <= k < 8 && #[trigger] cs@[k].bodies().contains(b) implies b.id != qid by {
                    assert(n.bodies().contains(b));
                }
                lemma_traversal_conserves_mass_node(cs@[0], qid, p, tn, td);
                lemma_traversal_conserves_mass_node(cs@[1], qid, p, tn, td);
                lemma_traversal_conserves_mass_node(cs@[2], qid, p, tn, td);
                lemma_traversal_conserves_mass_node(cs@[3], qid, p, tn, td);
                lemma_traversal_conserves_mass_node(cs@[4], qid, p, tn, td);
                lemma_traversal_conserves_mass_node(cs@[5], qid, p, tn, td);
                lemma_traversal_conserves_mass_node(cs@[6], qid, p, tn, td);
                lemma_traversal_conserves_mass_node(cs@[7], qid, p, tn, td);
                let q0 = cs@[0].contribs(qid, p, tn, td);
                let q1 = cs@[1].contribs(qid, p, tn, td);
                let q2 = cs@[2].contribs(qid, p, tn, td);
                let q3 = cs@[3].contribs(qid, p, tn, td);
                let q4 = cs@[4].contribs(qid, p, tn, td);
                let q5 = cs@[5].contribs(qid, p, tn, td);
                let q6 = cs@[6].contribs(qid, p, tn, td);
                let q7 = cs@[7].contribs(qid, p, tn, td);
                crate::sum::lemma_sum_of_concat(q0, q1, f);
                crate::sum::lemma_sum_of_concat(q0 + q1, q2, f);
                crate::sum::lemma_sum_of_concat(q0 + q1 + q2, q3, f);
                crate::sum::lemma_sum_of_concat(q0 + q1 + q2 + q3, q4, f);
                crate::sum::lemma_sum_of_concat(q0 + q1 + q2 + q3 + q4, q5, f);
                crate::sum::lemma_sum_of_concat(q0 + q1 + q2 + q3 + q4 + q5, q6, f);
                crate::sum::lemma_sum_of_concat(q0 + q1 + q2 + q3 + q4 + q5 + q6, q7, f);
            }
        },
    }
}

/// Octant partition: under any internal cell, the subtree's bodies are
/// exactly the eight children's bodies taken together, every body sits in
/// the child its position selects relative to the cell's midpoint, every
/// position selects exactly one of the eight, and each child is the
/// half-edge cube of its octant.
pub proof fn lemma_octant_partition<TId: Id>(n: Node<TId>)
    requires
        n.wf(),
        n.kind is Internal,
    ensures
        forall|i: int|
            0 <= i < 8 ==> crate::node::child_geom_ok(
                n.midpoint,
                n.size as int,
                #[trigger] n.kind->Internal_0@[i],
                i,
            ),
        n.bodies() == internal_bodies(n.kind->Internal_0@),
        n.bodies().len() == n.kind->Internal_0@[0].bodies().len()
            + n.kind->Internal_0@[1].bodies().len() + n.kind->Internal_0@[2].bodies().len()
            + n.kind->Internal_0@[3].bodies().len() + n.kind->Internal_0@[4].bodies().len()
            + n.kind->Internal_0@[5].bodies().len() + n.kind->Internal_0@[6].bodies().len()
            + n.kind->Internal_0@[7].bodies().len(),
        forall|i: int, j: int|
            0 <= i < 8 && 0 <= j < n.kind->Internal_0@[i].bodies().len() ==> branch_of(
                (#[trigger] n.kind->Internal_0@[i].bodies()[j]).pos,
                n.midpoint,
            ) == i,
        forall|pos: V3| 0 <= #[trigger] branch_of(pos, n.midpoint) < 8,
{
    lemma_internal_parts(n.kind->Internal_0@);
}

} // verus!
