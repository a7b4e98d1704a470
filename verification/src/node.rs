//! One octree cell: its aggregate, its cube, and its contents.
//!
//! A node is `Empty`, a `Leaf` (normally one body; several only in a cell too
//! small to subdivide further, which is what bounds the recursion when bodies
//! coincide), or `Internal` with exactly eight children, one per octant.
//! Every node carries the total mass and the mass-weighted position sum of
//! the bodies under it, maintained incrementally on insertion; the exact
//! center of mass is the quotient of the two.

use vstd::prelude::*;

use crate::ident::Id;
use crate::limits::MAX_BODIES;
use crate::limits::MAX_BODY_MASS;
use crate::limits::MAX_COORD;
use crate::limits::MAX_SIZE;
use crate::limits::MID_LIMIT;
use crate::sum::sum_of;
use crate::vec3::V3;

verus! {

/// One body as the tree stores it: token, position, mass.
#[derive(Clone, Copy)]
pub struct Body<TId: Id> {
    pub id: TId,
    pub pos: V3,
    pub mass: i64,
}

pub enum NodeKind<TId: Id> {
    Empty,
    Leaf(Vec<Body<TId>>),
    Internal(Vec<Node<TId>>),
}

pub struct Node<TId: Id> {
    /// Total mass of the bodies under this node; 0 if empty.
    pub mass: i64,
    /// Sum of `mass * position` over the bodies under this node, one
    /// coordinate at a time; the center of mass is `weighted / mass`.
    pub weighted: V3,
    /// Center of this node's cube; fixed at creation.
    pub midpoint: V3,
    /// Edge length of this node's cube; fixed at creation.
    pub size: i64,
    pub kind: NodeKind<TId>,
}

/// The octant bit for one axis: positions strictly above the midpoint go to
/// the upper half; a coordinate equal to the midpoint goes to the lower half.
pub open spec fn branch_bit(p: int, m: int) -> int {
    if p > m {
        1
    } else {
        0
    }
}

/// Which of the eight children a position selects, relative to a midpoint.
pub open spec fn branch_of(pos: V3, mid: V3) -> int {
    branch_bit(pos.x as int, mid.x as int) + 2 * branch_bit(pos.y as int, mid.y as int) + 4
        * branch_bit(pos.z as int, mid.z as int)
}

/// One coordinate of a child cube's midpoint: offset a quarter of the parent
/// edge downward, plus half the parent edge if the octant bit is set.
pub open spec fn child_mid_coord(m: int, size: int, bit: int) -> int {
    m - (size / 2) / 2 + (size / 2) * bit
}

/// The geometry a child at octant index `i` must have: half the parent's
/// edge, midpoint offset along each axis by the octant's sign.
pub open spec fn child_geom_ok<TId: Id>(mid: V3, size: int, c: Node<TId>, i: int) -> bool {
    &&& c.size == size / 2
    &&& c.midpoint.x == child_mid_coord(mid.x as int, size, i % 2)
    &&& c.midpoint.y == child_mid_coord(mid.y as int, size, (i / 2) % 2)
    &&& c.midpoint.z == child_mid_coord(mid.z as int, size, i / 4)
}

/// The mass of a body, for summing.
pub open spec fn mass_fn<TId: Id>() -> spec_fn(Body<TId>) -> int {
    |b: Body<TId>| b.mass as int
}

/// One coordinate of a body's mass-weighted position, for summing:
/// axis 0 is x, 1 is y, anything else z.
pub open spec fn weighted_fn<TId: Id>(axis: int) -> spec_fn(Body<TId>) -> int {
    |b: Body<TId>|
        if axis == 0 {
            b.mass * b.pos.x
        } else if axis == 1 {
            b.mass * b.pos.y
        } else {
            b.mass * b.pos.z
        }
}

/// Total mass of a sequence of bodies.
pub open spec fn msum<TId: Id>(s: Seq<Body<TId>>) -> int {
    sum_of(s, mass_fn())
}

/// Total mass-weighted position of a sequence of bodies, one axis.
pub open spec fn wsum<TId: Id>(s: Seq<Body<TId>>, axis: int) -> int {
    sum_of(s, weighted_fn(axis))
}

/// A body the tree accepts: bounded coordinates and bounded mass.
pub open spec fn body_ok<TId: Id>(b: Body<TId>) -> bool {
    &&& b.pos.bounded(MAX_COORD as int)
    &&& -MAX_BODY_MASS <= b.mass <= MAX_BODY_MASS
}

pub open spec fn bodies_ok<TId: Id>(s: Seq<Body<TId>>) -> bool {
    forall|i: int| 0 <= i < s.len() ==> body_ok(#[trigger] s[i])
}

/// The bodies under a sequence of eight children, in octant order.
pub open spec fn internal_bodies<TId: Id>(cs: Seq<Node<TId>>) -> Seq<Body<TId>>
    decreases cs, 0int,
{
    if cs.len() == 8 {
        cs[0].bodies() + cs[1].bodies() + cs[2].bodies() + cs[3].bodies() + cs[4].bodies()
            + cs[5].bodies() + cs[6].bodies() + cs[7].bodies()
    } else {
        Seq::empty()
    }
}

impl<TId: Id> Node<TId> {
    /// The bodies in this node's subtree, in traversal order.
    pub open spec fn bodies(self) -> Seq<Body<TId>>
        decreases self, 1int,
    {
        match self.kind {
            NodeKind::Empty => Seq::empty(),
            NodeKind::Leaf(bs) => bs@,
            NodeKind::Internal(cs) => internal_bodies(cs@),
        }
    }

    /// Well-formed: the aggregate fields are the exact sums over the subtree,
    /// the geometry halves at each level, every body sits in the child its
    /// position selects, and a leaf holds one body unless its cell is too
    /// small to subdivide.
    pub open spec fn wf(self) -> bool
        decreases self,
    {
        &&& 0 <= self.size <= MAX_SIZE
        &&& self.midpoint.bounded(MID_LIMIT - self.size)
        &&& self.bodies().len() <= MAX_BODIES
        &&& bodies_ok(self.bodies())
        &&& self.mass == msum(self.bodies())
        &&& self.weighted.x == wsum(self.bodies(), 0)
        &&& self.weighted.y == wsum(self.bodies(), 1)
        &&& self.weighted.z == wsum(self.bodies(), 2)
        &&& match self.kind {
            NodeKind::Empty => true,
            NodeKind::Leaf(bs) => {
                &&& bs@.len() >= 1
                &&& self.size >= 2 ==> bs@.len() == 1
            },
            NodeKind::Internal(cs) => {
                &&& cs@.len() == 8
                &&& self.size >= 2
                &&& self.bodies().len() >= 2
                &&& cs@[0].wf()
                &&& cs@[1].wf()
                &&& cs@[2].wf()
                &&& cs@[3].wf()
                &&& cs@[4].wf()
                &&& cs@[5].wf()
                &&& cs@[6].wf()
                &&& cs@[7].wf()
                &&& forall|i: int|
                    0 <= i < 8 ==> child_geom_ok(
                        self.midpoint,
                        self.size as int,
                        #[trigger] cs@[i],
                        i,
                    )
                &&& forall|i: int, j: int|
                    0 <= i < 8 && 0 <= j < cs@[i].bodies().len() ==> branch_of(
                        (#[trigger] cs@[i].bodies()[j]).pos,
                        self.midpoint,
                    ) == i
            },
        }
    }

    /// A fresh, empty cell with the given cube.
    pub fn new(midpoint: V3, size: i64) -> (r: Node<TId>)
        requires
            0 <= size <= MAX_SIZE,
            midpoint.bounded(MID_LIMIT - size),
        ensures
            r.wf(),
            r.kind is Empty,
            r.midpoint == midpoint,
            r.size == size,
            r.bodies() == Seq::<Body<TId>>::empty(),
            r.mass == 0,
            r.weighted == (V3 { x: 0i64, y: 0i64, z: 0i64 }),
    {
        Node {
            mass: 0,
            weighted: V3 { x: 0, y: 0, z: 0 },
            midpoint,
            size,
            kind: NodeKind::Empty,
        }
    }
}

/// Every body of `s2` is a body of `s1` or the inserted body `b`; bounds on
/// the bodies of `s1` carry over.
pub proof fn lemma_bodies_after_insert<TId: Id>(s1: Seq<Body<TId>>, s2: Seq<Body<TId>>, b: Body<TId>)
    requires
        s2.to_multiset() == s1.to_multiset().insert(b),
    ensures
        forall|j: int| 0 <= j < s2.len() ==> s1.contains(#[trigger] s2[j]) || s2[j] == b,
        bodies_ok(s1) && body_ok(b) ==> bodies_ok(s2),
{
    broadcast use vstd::seq_lib::group_to_multiset_ensures;
    broadcast use vstd::multiset::group_multiset_axioms;

    assert forall|j: int| 0 <= j < s2.len() implies s1.contains(#[trigger] s2[j]) || s2[j] == b by {
        assert(s2.contains(s2[j]));
        assert(s2.to_multiset().count(s2[j]) > 0);
        if s2[j] != b {
            assert(s1.to_multiset().count(s2[j]) > 0);
        }
    }
    if bodies_ok(s1) && body_ok(b) {
        assert forall|j: int| 0 <= j < s2.len() implies body_ok(#[trigger] s2[j]) by {
            if s2[j] != b {
                let i = choose|i: int| 0 <= i < s1.len() && s1[i] == s2[j];
                assert(body_ok(s1[i]));
            }
        }
    }
}

/// Over eight children, the subtree-body sequence concatenates: its multiset
/// is the sum of the children's multisets, its length the sum of lengths,
/// and any integer-valued sum over it the sum of the children's sums.
pub proof fn lemma_internal_parts<TId: Id>(cs: Seq<Node<TId>>)
    requires
        cs.len() == 8,
    ensures
        internal_bodies(cs).to_multiset() == cs[0].bodies().to_multiset().add(
            cs[1].bodies().to_multiset(),
        ).add(cs[2].bodies().to_multiset()).add(cs[3].bodies().to_multiset()).add(
            cs[4].bodies().to_multiset(),
        ).add(cs[5].bodies().to_multiset()).add(cs[6].bodies().to_multiset()).add(
            cs[7].bodies().to_multiset(),
        ),
        internal_bodies(cs).len() == cs[0].bodies().len() + cs[1].bodies().len()
            + cs[2].bodies().len() + cs[3].bodies().len() + cs[4].bodies().len()
            + cs[5].bodies().len() + cs[6].bodies().len() + cs[7].bodies().len(),
        forall|f: spec_fn(Body<TId>) -> int|
            #[trigger] sum_of(internal_bodies(cs), f) == sum_of(cs[0].bodies(), f) + sum_of(
                cs[1].bodies(),
                f,
            ) + sum_of(cs[2].bodies(), f) + sum_of(cs[3].bodies(), f) + sum_of(cs[4].bodies(), f)
                + sum_of(cs[5].bodies(), f) + sum_of(cs[6].bodies(), f) + sum_of(
                cs[7].bodies(),
                f,
            ),
{
    broadcast use vstd::multiset::group_multiset_axioms;

    let p1 = cs[0].bodies() + cs[1].bodies();
    let p2 = p1 + cs[2].bodies();
    let p3 = p2 + cs[3].bodies();
    let p4 = p3 + cs[4].bodies();
    let p5 = p4 + cs[5].bodies();
    let p6 = p5 + cs[6].bodies();
    let p7 = p6 + cs[7].bodies();
    assert(internal_bodies(cs) == p7);
    vstd::seq_lib::lemma_multiset_commutative(cs[0].bodies(), cs[1].bodies());
    vstd::seq_lib::lemma_multiset_commutative(p1, cs[2].bodies());
    vstd::seq_lib::lemma_multiset_commutative(p2, cs[3].bodies());
    vstd::seq_lib::lemma_multiset_commutative(p3, cs[4].bodies());
    vstd::seq_lib::lemma_multiset_commutative(p4, cs[5].bodies());
    vstd::seq_lib::lemma_multiset_commutative(p5, cs[6].bodies());
    vstd::seq_lib::lemma_multiset_commutative(p6, cs[7].bodies());
    assert forall|f: spec_fn(Body<TId>) -> int|
        #[trigger] sum_of(internal_bodies(cs), f) == sum_of(cs[0].bodies(), f) + sum_of(
            cs[1].bodies(),
            f,
        ) + sum_of(cs[2].bodies(), f) + sum_of(cs[3].bodies(), f) + sum_of(cs[4].bodies(), f)
            + sum_of(cs[5].bodies(), f) + sum_of(cs[6].bodies(), f) + sum_of(cs[7].bodies(), f) by {
        crate::sum::lemma_sum_of_concat(cs[0].bodies(), cs[1].bodies(), f);
        crate::sum::lemma_sum_of_concat(p1, cs[2].bodies(), f);
        crate::sum::lemma_sum_of_concat(p2, cs[3].bodies(), f);
        crate::sum::lemma_sum_of_concat(p3, cs[4].bodies(), f);
        crate::sum::lemma_sum_of_concat(p4, cs[5].bodies(), f);
        crate::sum::lemma_sum_of_concat(p5, cs[6].bodies(), f);
        crate::sum::lemma_sum_of_concat(p6, cs[7].bodies(), f);
    }
}

/// Replacing one child by a child holding one more body inserts that body
/// into the node's own subtree sequence, multiset-wise, and shifts every sum
/// accordingly.
pub proof fn lemma_internal_replace<TId: Id>(
    cs1: Seq<Node<TId>>,
    cs2: Seq<Node<TId>>,
    k: int,
    b: Body<TId>,
)
    requires
        cs1.len() == 8,
        cs2.len() == 8,
        0 <= k < 8,
        forall|j: int| 0 <= j < 8 && j != k ==> cs2[j] == cs1[j],
        cs2[k].bodies().to_multiset() == cs1[k].bodies().to_multiset().insert(b),
        cs2[k].bodies().len() == cs1[k].bodies().len() + 1,
        msum(cs2[k].bodies()) == msum(cs1[k].bodies()) + b.mass,
        wsum(cs2[k].bodies(), 0) == wsum(cs1[k].bodies(), 0) + b.mass * b.pos.x,
        wsum(cs2[k].bodies(), 1) == wsum(cs1[k].bodies(), 1) + b.mass * b.pos.y,
        wsum(cs2[k].bodies(), 2) == wsum(cs1[k].bodies(), 2) + b.mass * b.pos.z,
    ensures
        internal_bodies(cs2).to_multiset() == internal_bodies(cs1).to_multiset().insert(b),
        internal_bodies(cs2).len() == internal_bodies(cs1).len() + 1,
        msum(internal_bodies(cs2)) == msum(internal_bodies(cs1)) + b.mass,
        wsum(internal_bodies(cs2), 0) == wsum(internal_bodies(cs1), 0) + b.mass * b.pos.x,
        wsum(internal_bodies(cs2), 1) == wsum(internal_bodies(cs1), 1) + b.mass * b.pos.y,
        wsum(internal_bodies(cs2), 2) == wsum(internal_bodies(cs1), 2) + b.mass * b.pos.z,
{
    broadcast use vstd::multiset::group_multiset_axioms;

    lemma_internal_parts(cs1);
    lemma_internal_parts(cs2);
    assert(internal_bodies(cs2).to_multiset() =~= internal_bodies(cs1).to_multiset().insert(b));
}

/// A well-formed node's aggregate fields are bounded by the caps on body
/// count, mass and coordinates.
pub proof fn lemma_node_bounds<TId: Id>(n: Node<TId>)
    requires
        n.bodies().len() <= MAX_BODIES,
        bodies_ok(n.bodies()),
        n.mass == msum(n.bodies()),
        n.weighted.x == wsum(n.bodies(), 0),
        n.weighted.y == wsum(n.bodies(), 1),
        n.weighted.z == wsum(n.bodies(), 2),
    ensures
        -0x1000_0000 <= n.mass <= 0x1000_0000,
        n.weighted.bounded(0x1_0000_0000_0000),
{
    let s = n.bodies();
    assert forall|i: int|
        0 <= i < s.len() implies -MAX_BODY_MASS <= #[trigger] mass_fn::<TId>()(s[i])
        <= MAX_BODY_MASS by {
        assert(body_ok(s[i]));
    }
    crate::sum::lemma_sum_of_bound(s, mass_fn::<TId>(), MAX_BODY_MASS as int);
    assert(s.len() * MAX_BODY_MASS <= MAX_BODIES * MAX_BODY_MASS) by (nonlinear_arith)
        requires
            0 <= s.len() <= MAX_BODIES,
            MAX_BODY_MASS == 65536i64;
    assert forall|i: int|
        0 <= i < s.len() implies -0x10_0000_0000 <= #[trigger] weighted_fn::<TId>(0)(s[i])
        <= 0x10_0000_0000 by {
        assert(body_ok(s[i]));
        let bb = s[i];
        assert(-0x10_0000_0000 <= bb.mass * bb.pos.x <= 0x10_0000_0000)
            by (nonlinear_arith)
            requires
                -MAX_BODY_MASS <= bb.mass <= MAX_BODY_MASS,
                -MAX_COORD <= bb.pos.x <= MAX_COORD,
                MAX_BODY_MASS == 65536i64,
                MAX_COORD == 1048576i64;
    }
    assert forall|i: int|
        0 <= i < s.len() implies -0x10_0000_0000 <= #[trigger] weighted_fn::<TId>(1)(s[i])
        <= 0x10_0000_0000 by {
        assert(body_ok(s[i]));
        let bb = s[i];
        assert(-0x10_0000_0000 <= bb.mass * bb.pos.y <= 0x10_0000_0000)
            by (nonlinear_arith)
            requires
                -MAX_BODY_MASS <= bb.mass <= MAX_BODY_MASS,
                -MAX_COORD <= bb.pos.y <= MAX_COORD,
                MAX_BODY_MASS == 65536i64,
                MAX_COORD == 1048576i64;
    }
    assert forall|i: int|
        0 <= i < s.len() implies -0x10_0000_0000 <= #[trigger] weighted_fn::<TId>(2)(s[i])
        <= 0x10_0000_0000 by {
        assert(body_ok(s[i]));
        let bb = s[i];
        assert(-0x10_0000_0000 <= bb.mass * bb.pos.z <= 0x10_0000_0000)
            by (nonlinear_arith)
            requires
                -MAX_BODY_MASS <= bb.mass <= MAX_BODY_MASS,
                -MAX_COORD <= bb.pos.z <= MAX_COORD,
                MAX_BODY_MASS == 65536i64,
                MAX_COORD == 1048576i64;
    }
    crate::sum::lemma_sum_of_bound(s, weighted_fn::<TId>(0), 0x10_0000_0000);
    crate::sum::lemma_sum_of_bound(s, weighted_fn::<TId>(1), 0x10_0000_0000);
    crate::sum::lemma_sum_of_bound(s, weighted_fn::<TId>(2), 0x10_0000_0000);
    assert(s.len() * 0x10_0000_0000 <= 0x1_0000_0000_0000) by (nonlinear_arith)
        requires
            0 <= s.len() <= MAX_BODIES,
            MAX_BODIES == 4096usize;
}

/// The facts the well-formedness of an internal node gives about one child,
/// unpacked at a symbolic octant index.
pub proof fn lemma_child_wf<TId: Id>(n: Node<TId>, i: int)
    requires
        n.wf(),
        n.kind is Internal,
        0 <= i < 8,
    ensures
        n.kind->Internal_0@[i].wf(),
        child_geom_ok(n.midpoint, n.size as int, n.kind->Internal_0@[i], i),
        n.kind->Internal_0@[i].bodies().len() <= n.bodies().len(),
        n.kind->Internal_0@[i].mass == msum(n.kind->Internal_0@[i].bodies()),
{
    let cs = n.kind->Internal_0@;
    if i == 0 {
        assert(cs[0].wf());
    } else if i == 1 {
        assert(cs[1].wf());
    } else if i == 2 {
        assert(cs[2].wf());
    } else if i == 3 {
        assert(cs[3].wf());
    } else if i == 4 {
        assert(cs[4].wf());
    } else if i == 5 {
        assert(cs[5].wf());
    } else if i == 6 {
        assert(cs[6].wf());
    } else {
        assert(cs[7].wf());
    }
    lemma_internal_parts(cs);
    assert(n.bodies() == internal_bodies(cs));
}

/// Which of the eight children a position selects (executable form).
pub fn branch_index(pos: &V3, mid: &V3) -> (r: usize)
    ensures
        r == branch_of(*pos, *mid),
        r < 8,
{
    let bx: usize = if pos.x > mid.x {
        1
    } else {
        0
    };
    let by: usize = if pos.y > mid.y {
        1
    } else {
        0
    };
    let bz: usize = if pos.z > mid.z {
        1
    } else {
        0
    };
    bx + 2 * by + 4 * bz
}

/// The eight empty children of a cell, in octant order: the index encodes
/// the x bit, then the y bit times two, then the z bit times four.
#[verifier::rlimit(50)]
fn make_children<TId: Id>(midpoint: V3, size: i64) -> (r: Vec<Node<TId>>)
    requires
        2 <= size <= MAX_SIZE,
        midpoint.bounded(MID_LIMIT - size),
    ensures
        r@.len() == 8,
        forall|i: int|
            0 <= i < 8 ==> {
                &&& (#[trigger] r@[i]).wf()
                &&& child_geom_ok(midpoint, size as int, r@[i], i)
                &&& r@[i].kind is Empty
                &&& r@[i].bodies() == Seq::<Body<TId>>::empty()
                &&& r@[i].mass == 0
            },
{
    let half: i64 = ((size as u64) / 2) as i64;
    let quarter: i64 = ((half as u64) / 2) as i64;
    let x0 = midpoint.x - quarter;
    let x1 = midpoint.x - quarter + half;
    let y0 = midpoint.y - quarter;
    let y1 = midpoint.y - quarter + half;
    let z0 = midpoint.z - quarter;
    let z1 = midpoint.z - quarter + half;
    let mut r: Vec<Node<TId>> = Vec::new();
    let n0 = Node::new(V3 { x: x0, y: y0, z: z0 }, half);
    let n1 = Node::new(V3 { x: x1, y: y0, z: z0 }, half);
    let n2 = Node::new(V3 { x: x0, y: y1, z: z0 }, half);
    let n3 = Node::new(V3 { x: x1, y: y1, z: z0 }, half);
    let n4 = Node::new(V3 { x: x0, y: y0, z: z1 }, half);
    let n5 = Node::new(V3 { x: x1, y: y0, z: z1 }, half);
    let n6 = Node::new(V3 { x: x0, y: y1, z: z1 }, half);
    let n7 = Node::new(V3 { x: x1, y: y1, z: z1 }, half);
    let ghost gs = seq![n0, n1, n2, n3, n4, n5, n6, n7];
    r.push(n0);
    r.push(n1);
    r.push(n2);
    r.push(n3);
    r.push(n4);
    r.push(n5);
    r.push(n6);
    r.push(n7);
    proof {
        assert(r@ =~= gs);
        assert(half == size as int / 2);
        assert(quarter == (size as int / 2) / 2);
        assert forall|i: int|
            0 <= i < 8 implies {
            &&& (#[trigger] r@[i]).wf()
            &&& child_geom_ok(midpoint, size as int, r@[i], i)
            &&& r@[i].kind is Empty
            &&& r@[i].bodies() == Seq::<Body<TId>>::empty()
            &&& r@[i].mass == 0
        } by {
            if i == 0 {
                assert(r@[i] == gs[0]);
                assert(r@[i].wf());
                assert(child_geom_ok(midpoint, size as int, r@[i], 0));
                assert(r@[i].kind is Empty);
                assert(r@[i].bodies() == Seq::<Body<TId>>::empty());
                assert(r@[i].mass == 0);
            } else if i == 1 {
                assert(r@[i] == gs[1]);
                assert(r@[i].wf());
                assert(child_geom_ok(midpoint, size as int, r@[i], 1));
                assert(r@[i].kind is Empty);
                assert(r@[i].bodies() == Seq::<Body<TId>>::empty());
                assert(r@[i].mass == 0);
            } else if i == 2 {
                assert(r@[i] == gs[2]);
                assert(r@[i].wf());
                assert(child_geom_ok(midpoint, size as int, r@[i], 2));
                assert(r@[i].kind is Empty);
                assert(r@[i].bodies() == Seq::<Body<TId>>::empty());
                assert(r@[i].mass == 0);
            } else if i == 3 {
                assert(r@[i] == gs[3]);
                assert(r@[i].wf());
                assert(child_geom_ok(midpoint, size as int, r@[i], 3));
                assert(r@[i].kind is Empty);
                assert(r@[i].bodies() == Seq::<Body<TId>>::empty());
                assert(r@[i].mass == 0);
            } else if i == 4 {
                assert(r@[i] == gs[4]);
                assert(r@[i].wf());
                assert(child_geom_ok(midpoint, size as int, r@[i], 4));
                assert(r@[i].kind is Empty);
                assert(r@[i].bodies() == Seq::<Body<TId>>::empty());
                assert(r@[i].mass == 0);
            } else if i == 5 {
                assert(r@[i] == gs[5]);
                assert(r@[i].wf());
                assert(child_geom_ok(midpoint, size as int, r@[i], 5));
                assert(r@[i].kind is Empty);
                assert(r@[i].bodies() == Seq::<Body<TId>>::empty());
                assert(r@[i].mass == 0);
            } else if i == 6 {
                assert(r@[i] == gs[6]);
                assert(r@[i].wf());
                assert(child_geom_ok(midpoint, size as int, r@[i], 6));
                assert(r@[i].kind is Empty);
                assert(r@[i].bodies() == Seq::<Body<TId>>::empty());
                assert(r@[i].mass == 0);
            } else {
                assert(r@[i] == gs[7]);
                assert(r@[i].wf());
                assert(child_geom_ok(midpoint, size as int, r@[i], 7));
                assert(r@[i].kind is Empty);
                assert(r@[i].bodies() == Seq::<Body<TId>>::empty());
                assert(r@[i].mass == 0);
            }
        }
    }
    r
}

impl<TId: Id> Node<TId> {
    /// Insert one body. The cell's cube is unchanged; the aggregate gains
    /// the body's mass and weighted position; the subtree gains exactly that
    /// body; and the cell only ever moves from empty to leaf to internal.
    ///
    /// A position outside the cube is tolerated: each comparison against a
    /// midpoint still selects exactly one octant.
    #[verifier::rlimit(100)]
    pub fn insert(self, id: TId, pos: V3, mass: i64) -> (r: Node<TId>)
        requires
            self.wf(),
            pos.bounded(MAX_COORD as int),
            -MAX_BODY_MASS <= mass <= MAX_BODY_MASS,
            self.bodies().len() < MAX_BODIES,
        ensures
            r.wf(),
            r.midpoint == self.midpoint,
            r.size == self.size,
            r.mass == self.mass + mass,
            r.weighted.x == self.weighted.x + mass * pos.x,
            r.weighted.y == self.weighted.y + mass * pos.y,
            r.weighted.z == self.weighted.z + mass * pos.z,
            r.bodies().to_multiset() == self.bodies().to_multiset().insert(
                Body { id, pos, mass },
            ),
            r.bodies().len() == self.bodies().len() + 1,
            self.kind is Empty ==> r.kind is Leaf,
            self.kind is Leaf ==> (r.kind is Leaf || r.kind is Internal),
            self.kind is Internal ==> r.kind is Internal,
        decreases self.size,
    {
        broadcast use vstd::seq_lib::group_to_multiset_ensures;

        let ghost self0 = self;
        let ghost b = Body { id, pos, mass };
        let ghost old_bodies = self.bodies();
        proof {
            lemma_node_bounds(self0);
            assert(-0x1_0000_0000_0000 <= mass * pos.x <= 0x1_0000_0000_0000) by (nonlinear_arith)
                requires
                    -MAX_BODY_MASS <= mass <= MAX_BODY_MASS,
                    -MAX_COORD <= pos.x <= MAX_COORD,
                    MAX_BODY_MASS == 65536i64,
                    MAX_COORD == 1048576i64;
            assert(-0x1_0000_0000_0000 <= mass * pos.y <= 0x1_0000_0000_0000) by (nonlinear_arith)
                requires
                    -MAX_BODY_MASS <= mass <= MAX_BODY_MASS,
                    -MAX_COORD <= pos.y <= MAX_COORD,
                    MAX_BODY_MASS == 65536i64,
                    MAX_COORD == 1048576i64;
            assert(-0x1_0000_0000_0000 <= mass * pos.z <= 0x1_0000_0000_0000) by (nonlinear_arith)
                requires
                    -MAX_BODY_MASS <= mass <= MAX_BODY_MASS,
                    -MAX_COORD <= pos.z <= MAX_COORD,
                    MAX_BODY_MASS == 65536i64,
                    MAX_COORD == 1048576i64;
        }
        let Node { mass: m0, weighted: w0, midpoint, size, kind } = self;
        match kind {
            NodeKind::Empty => {
                let mut bs: Vec<Body<TId>> = Vec::new();
                bs.push(Body { id, pos, mass });
                proof {
                    assert(bs@ =~= Seq::<Body<TId>>::empty().push(b));
                    assert(old_bodies =~= Seq::<Body<TId>>::empty());
                    crate::sum::lemma_sum_of_push(old_bodies, mass_fn::<TId>(), b);
                    crate::sum::lemma_sum_of_push(old_bodies, weighted_fn::<TId>(0), b);
                    crate::sum::lemma_sum_of_push(old_bodies, weighted_fn::<TId>(1), b);
                    crate::sum::lemma_sum_of_push(old_bodies, weighted_fn::<TId>(2), b);
                }
                let r = Node {
                    mass: m0 + mass,
                    weighted: V3 {
                        x: w0.x + mass * pos.x,
                        y: w0.y + mass * pos.y,
                        z: w0.z + mass * pos.z,
                    },
                    midpoint,
                    size,
                    kind: NodeKind::Leaf(bs),
                };
                proof {
                    assert(r.bodies() == bs@);
                    assert(bodies_ok(r.bodies()));
                }
                r
            },
            NodeKind::Leaf(mut bs) => {
                if size < 2 {
                    // The cell is too small to subdivide: treat the bodies
                    // as coincident and let the leaf aggregate them.
                    let ghost bs0 = bs@;
                    bs.push(Body { id, pos, mass });
                    proof {
                        assert(bs@ =~= bs0.push(b));
                        crate::sum::lemma_sum_of_push(bs0, mass_fn::<TId>(), b);
                        crate::sum::lemma_sum_of_push(bs0, weighted_fn::<TId>(0), b);
                        crate::sum::lemma_sum_of_push(bs0, weighted_fn::<TId>(1), b);
                        crate::sum::lemma_sum_of_push(bs0, weighted_fn::<TId>(2), b);
                    }
                    let r = Node {
                        mass: m0 + mass,
                        weighted: V3 {
                            x: w0.x + mass * pos.x,
                            y: w0.y + mass * pos.y,
                            z: w0.z + mass * pos.z,
                        },
                        midpoint,
                        size,
                        kind: NodeKind::Leaf(bs),
                    };
                    proof {
                        assert(r.bodies() == bs0.push(b));
                        assert forall|j: int| 0 <= j < r.bodies().len() implies body_ok(
                            #[trigger] r.bodies()[j],
                        ) by {
                            if j < bs0.len() {
                                assert(r.bodies()[j] == bs0[j]);
                            }
                        }
                    }
                    r
                } else {
                    // Split: move the existing body into the child its
                    // position selects, then insert the new body below.
                    let prev: Body<TId> = bs[0];
                    proof {
                        assert(old_bodies == bs@);
                        assert(bs@.len() == 1);
                        assert(body_ok(prev));
                    }
                    let mut cs = make_children::<TId>(midpoint, size);
                    let ghost cs_mk = cs@;
                    let bi_prev = branch_index(&prev.pos, &midpoint);
                    let mut c = cs.remove(bi_prev);
                    c.mass = m0;
                    c.weighted = w0;
                    c.kind = NodeKind::Leaf(bs);
                    cs.insert(bi_prev, c);
                    let ghost cs_mid = cs@;
                    proof {
                        assert(cs_mid =~= cs_mk.update(bi_prev as int, c));
                        assert(c.bodies() == old_bodies);
                        assert(c.wf());
                        lemma_internal_parts(cs_mk);
                        lemma_internal_parts(cs_mid);
                        assert(internal_bodies(cs_mid).to_multiset() =~= old_bodies.to_multiset());
                        assert(internal_bodies(cs_mid).len() == 1);
                        assert(msum(internal_bodies(cs_mid)) == msum(old_bodies));
                        assert(wsum(internal_bodies(cs_mid), 0) == wsum(old_bodies, 0));
                        assert(wsum(internal_bodies(cs_mid), 1) == wsum(old_bodies, 1));
                        assert(wsum(internal_bodies(cs_mid), 2) == wsum(old_bodies, 2));
                    }
                    let bi_new = branch_index(&pos, &midpoint);
                    let c2 = cs.remove(bi_new);
                    let ghost c2_pre = c2;
                    let c2 = c2.insert(id, pos, mass);
                    cs.insert(bi_new, c2);
                    proof {
                        assert(cs@ =~= cs_mid.update(bi_new as int, c2));
                        assert(c2_pre == cs_mid[bi_new as int]);
                        if bi_new == bi_prev {
                            assert(c2_pre == c);
                        } else {
                            assert(c2_pre == cs_mk[bi_new as int]);
                        }
                        assert(c2_pre.wf());
                        assert(msum(c2.bodies()) == msum(c2_pre.bodies()) + b.mass);
                        assert(wsum(c2.bodies(), 0) == wsum(c2_pre.bodies(), 0) + b.mass
                            * b.pos.x);
                        assert(wsum(c2.bodies(), 1) == wsum(c2_pre.bodies(), 1) + b.mass
                            * b.pos.y);
                        assert(wsum(c2.bodies(), 2) == wsum(c2_pre.bodies(), 2) + b.mass
                            * b.pos.z);
                        lemma_internal_replace(cs_mid, cs@, bi_new as int, b);
                        lemma_bodies_after_insert(c2_pre.bodies(), c2.bodies(), b);
                    }
                    let r = Node {
                        mass: m0 + mass,
                        weighted: V3 {
                            x: w0.x + mass * pos.x,
                            y: w0.y + mass * pos.y,
                            z: w0.z + mass * pos.z,
                        },
                        midpoint,
                        size,
                        kind: NodeKind::Internal(cs),
                    };
                    proof {
                        lemma_bodies_after_insert(old_bodies, r.bodies(), b);
                        assert(r.wf()) by {
                            assert forall|i: int, j: int|
                                0 <= i < 8 && 0 <= j
                                    < r.kind->Internal_0@[i].bodies().len() implies branch_of(
                                (#[trigger] r.kind->Internal_0@[i].bodies()[j]).pos,
                                r.midpoint,
                            ) == i by {
                                let ci = r.kind->Internal_0@[i];
                                if i == bi_new as int {
                                    assert(ci == c2);
                                    if c2.bodies()[j] != b {
                                        assert(c2_pre.bodies().contains(c2.bodies()[j]));
                                    }
                                } else if i == bi_prev as int {
                                    assert(ci == c);
                                    assert(ci.bodies() == old_bodies);
                                    assert(ci.bodies()[j] == prev);
                                } else {
                                    assert(ci == cs_mk[i]);
                                }
                            }
                        }
                    }
                    r
                }
            },
            NodeKind::Internal(mut cs) => {
                let ghost cs0 = cs@;
                proof {
                    lemma_internal_parts(cs0);
                }
                let bi = branch_index(&pos, &midpoint);
                proof {
                    lemma_child_wf(self0, bi as int);
                }
                let c = cs.remove(bi);
                let ghost c_pre = c;
                let c = c.insert(id, pos, mass);
                cs.insert(bi, c);
                proof {
                    assert(cs@ =~= cs0.update(bi as int, c));
                    assert(c_pre.wf());
                    assert(msum(c.bodies()) == msum(c_pre.bodies()) + b.mass);
                    assert(wsum(c.bodies(), 0) == wsum(c_pre.bodies(), 0) + b.mass * b.pos.x);
                    assert(wsum(c.bodies(), 1) == wsum(c_pre.bodies(), 1) + b.mass * b.pos.y);
                    assert(wsum(c.bodies(), 2) == wsum(c_pre.bodies(), 2) + b.mass * b.pos.z);
                    lemma_internal_replace(cs0, cs@, bi as int, b);
                    lemma_bodies_after_insert(c_pre.bodies(), c.bodies(), b);
                }
                let r = Node {
                    mass: m0 + mass,
                    weighted: V3 {
                        x: w0.x + mass * pos.x,
                        y: w0.y + mass * pos.y,
                        z: w0.z + mass * pos.z,
                    },
                    midpoint,
                    size,
                    kind: NodeKind::Internal(cs),
                };
                proof {
                    lemma_bodies_after_insert(old_bodies, r.bodies(), b);
                    assert(r.wf()) by {
                        assert forall|i: int, j: int|
                            0 <= i < 8 && 0 <= j
                                < r.kind->Internal_0@[i].bodies().len() implies branch_of(
                            (#[trigger] r.kind->Internal_0@[i].bodies()[j]).pos,
                            r.midpoint,
                        ) == i by {
                            let ci = r.kind->Internal_0@[i];
                            if i == bi as int {
                                assert(ci == c);
                                if c.bodies()[j] != b {
                                    assert(c_pre.bodies().contains(c.bodies()[j]));
                                }
                            } else {
                                assert(ci == cs0[i]);
                            }
                        }
                    }
                }
                r
            },
        }
    }
}

} // verus!
