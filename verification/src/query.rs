//! The shared query traversal and the pairwise force law.
//!
//! Both query modes walk the tree the same way: an empty cell contributes
//! nothing; a leaf contributes each of its bodies exactly, except the
//! queried body itself; an internal cell whose cube looks small enough from
//! the query point (`size / distance < theta`) contributes its whole
//! aggregate at once, and otherwise recurses into all eight children. The
//! two modes differ only in what they do with the contributors: `force`
//! evaluates the pairwise law and sums, `point_masses` reports them.

use vstd::prelude::*;

use crate::arith::abs_i;
use crate::arith::div_trunc;
use crate::arith::sqrt_floor;
use crate::ident::Id;
use crate::limits::MAX_BODIES;
use crate::limits::MAX_BODY_MASS;
use crate::limits::MAX_COORD;
use crate::limits::MAX_FORCE_CONST;
use crate::limits::MAX_SIZE;
use crate::limits::MAX_THETA;
use crate::node::Body;
use crate::node::Node;
use crate::node::NodeKind;
use crate::vec3::V3;

verus! {

/// Mass of any subtree aggregate: at most `MAX_BODIES * MAX_BODY_MASS`.
pub const MAX_AGG_MASS: i64 = 0x1000_0000;

/// Any coordinate of a subtree's weighted position sum: at most
/// `MAX_BODIES * MAX_BODY_MASS * MAX_COORD`.
pub const MAX_AGG_WEIGHT: i64 = 0x1_0000_0000_0000;

/// Magnitude bound for one axis of one contributor's force term.
pub const MAX_LAW_TERM: i128 = 0x8_0000_0000_0000_0000;

/// One contributor the traversal accepts.
#[derive(Clone, Copy, Debug, PartialEq, Eq, Structural)]
pub enum Contrib {
    /// An exact body: its position and mass.
    FromBody { pos: V3, mass: i64 },
    /// A whole subtree standing in as one aggregate: its mass-weighted
    /// position sum and total mass; its position is `weighted / mass`.
    FromAgg { weighted: V3, mass: i64 },
}

/// One approximated point mass, as `point_masses` reports it. The
/// contributor's exact position is the rational `weighted / denom`, so a
/// caller folding its own pairwise law over these entries loses nothing to
/// rounding; `position` is the same value rounded toward zero, for callers
/// content with integer coordinates.
#[derive(Clone, Copy, Debug, PartialEq, Eq, Structural)]
pub struct PointMass {
    /// The contributor's exact position, scaled by `denom`: a single
    /// body's position as-is, a subtree's mass-weighted position sum.
    pub weighted: V3,
    /// The scale of `weighted`: 1 for a single body, the aggregate mass
    /// for a subtree; never zero.
    pub denom: i64,
    /// The contributor's mass.
    pub mass: i64,
    /// `weighted / denom` rounded toward zero, one coordinate at a time
    /// (exact whenever `denom` is 1).
    pub position: V3,
}

/// A force vector; wide components, since a term can exceed 64 bits.
#[derive(Clone, Copy, Debug, PartialEq, Eq, Structural)]
pub struct Force {
    pub x: i128,
    pub y: i128,
    pub z: i128,
}

impl Contrib {
    /// The contributor's mass.
    pub open spec fn mass_of(self) -> int {
        match self {
            Contrib::FromBody { mass, .. } => mass as int,
            Contrib::FromAgg { mass, .. } => mass as int,
        }
    }

    /// The denominator of the contributor's exact rational position: `1`
    /// for a body, the aggregate mass for a subtree.
    pub open spec fn den_of(self) -> int {
        match self {
            Contrib::FromBody { .. } => 1,
            Contrib::FromAgg { mass, .. } => mass as int,
        }
    }

    /// Offset from the query position to the contributor, times `den_of`,
    /// x coordinate.
    pub open spec fn dx_of(self, p: V3) -> int {
        match self {
            Contrib::FromBody { pos, .. } => pos.x - p.x,
            Contrib::FromAgg { weighted, mass } => weighted.x - mass * p.x,
        }
    }

    pub open spec fn dy_of(self, p: V3) -> int {
        match self {
            Contrib::FromBody { pos, .. } => pos.y - p.y,
            Contrib::FromAgg { weighted, mass } => weighted.y - mass * p.y,
        }
    }

    pub open spec fn dz_of(self, p: V3) -> int {
        match self {
            Contrib::FromBody { pos, .. } => pos.z - p.z,
            Contrib::FromAgg { weighted, mass } => weighted.z - mass * p.z,
        }
    }

    /// Squared distance from the query position to the contributor, times
    /// `den_of` squared.
    pub open spec fn d2_of(self, p: V3) -> int {
        self.dx_of(p) * self.dx_of(p) + self.dy_of(p) * self.dy_of(p) + self.dz_of(p) * self.dz_of(
            p,
        )
    }

    /// The bounds every contributor produced by a well-formed tree obeys.
    pub open spec fn ok(self) -> bool {
        match self {
            Contrib::FromBody { pos, mass } => {
                &&& pos.bounded(MAX_COORD as int)
                &&& -MAX_BODY_MASS <= mass <= MAX_BODY_MASS
            },
            Contrib::FromAgg { weighted, mass } => {
                &&& weighted.bounded(MAX_AGG_WEIGHT as int)
                &&& -MAX_AGG_MASS <= mass <= MAX_AGG_MASS
                &&& mass != 0
            },
        }
    }

    /// The point mass reported for this contributor: the exact pair
    /// (`weighted`, `denom`) together with the mass and the rounded
    /// position.
    pub open spec fn as_point_mass(self) -> PointMass {
        match self {
            Contrib::FromBody { pos, mass } => PointMass {
                weighted: pos,
                denom: 1,
                mass,
                position: pos,
            },
            Contrib::FromAgg { weighted, mass } => PointMass {
                weighted,
                denom: mass,
                mass,
                position: V3 {
                    x: div_trunc(weighted.x as int, mass as int) as i64,
                    y: div_trunc(weighted.y as int, mass as int) as i64,
                    z: div_trunc(weighted.z as int, mass as int) as i64,
                },
            },
        }
    }
}

/// The mass of a contributor, for summing.
pub open spec fn contrib_mass_fn() -> spec_fn(Contrib) -> int {
    |c: Contrib| c.mass_of()
}

/// Squared distance from an aggregate's center of mass to `p`, scaled by
/// the squared aggregate mass (so it stays an exact integer).
pub open spec fn dist2_scaled(w: V3, m: int, p: V3) -> int {
    let dx = w.x - m * p.x;
    let dy = w.y - m * p.y;
    let dz = w.z - m * p.z;
    dx * dx + dy * dy + dz * dz
}

/// The acceptance criterion `size / d < theta`, written without division or
/// square root: with `d2m = d^2 * m^2` and `theta = tn / td`, the criterion
/// is `(size * td)^2 * m^2 < tn^2 * d2m`. An aggregate of zero mass has no
/// center of mass and is never accepted.
pub open spec fn accepts(size: int, w: V3, m: int, p: V3, tn: int, td: int) -> bool {
    m != 0 && (size * td) * (size * td) * (m * m) < (tn * tn) * dist2_scaled(w, m, p)
}

/// The contributors of a leaf's bodies: each body except the queried one.
pub open spec fn leaf_contribs<TId: Id>(bs: Seq<Body<TId>>, qid: TId) -> Seq<Contrib>
    decreases bs.len(),
{
    if bs.len() == 0 {
        Seq::empty()
    } else {
        leaf_contribs(bs.drop_last(), qid) + (if bs.last().id == qid {
            Seq::empty()
        } else {
            seq![Contrib::FromBody { pos: bs.last().pos, mass: bs.last().mass }]
        })
    }
}

/// The contributors gathered from eight children, in octant order.
pub open spec fn children_contribs<TId: Id>(
    cs: Seq<Node<TId>>,
    qid: TId,
    p: V3,
    tn: int,
    td: int,
) -> Seq<Contrib>
    decreases cs, 0int,
{
    if cs.len() == 8 {
        cs[0].contribs(qid, p, tn, td) + cs[1].contribs(qid, p, tn, td) + cs[2].contribs(
            qid,
            p,
            tn,
            td,
        ) + cs[3].contribs(qid, p, tn, td) + cs[4].contribs(qid, p, tn, td) + cs[5].contribs(
            qid,
            p,
            tn,
            td,
        ) + cs[6].contribs(qid, p, tn, td) + cs[7].contribs(qid, p, tn, td)
    } else {
        Seq::empty()
    }
}

impl<TId: Id> Node<TId> {
    /// The contributors this node yields for a query at `p` by `qid`, with
    /// threshold `tn / td`: the one shared traversal of both query modes.
    pub open spec fn contribs(self, qid: TId, p: V3, tn: int, td: int) -> Seq<Contrib>
        decreases self, 1int,
    {
        match self.kind {
            NodeKind::Empty => Seq::empty(),
            NodeKind::Leaf(bs) => leaf_contribs(bs@, qid),
            NodeKind::Internal(cs) => {
                if accepts(self.size as int, self.weighted, self.mass as int, p, tn, td) {
                    seq![Contrib::FromAgg { weighted: self.weighted, mass: self.mass }]
                } else {
                    children_contribs(cs@, qid, p, tn, td)
                }
            },
        }
    }
}

pub proof fn lemma_leaf_contribs_push<TId: Id>(bs: Seq<Body<TId>>, x: Body<TId>, qid: TId)
    ensures
        leaf_contribs(bs.push(x), qid) == leaf_contribs(bs, qid) + (if x.id == qid {
            Seq::<Contrib>::empty()
        } else {
            seq![Contrib::FromBody { pos: x.pos, mass: x.mass }]
        }),
{
    assert(bs.push(x).drop_last() =~= bs);
    assert(bs.push(x).last() == x);
}

/// Every contributor in either part is a contributor of the concatenation.
pub proof fn lemma_ok_concat(s1: Seq<Contrib>, s2: Seq<Contrib>)
    requires
        forall|j: int| 0 <= j < s1.len() ==> (#[trigger] s1[j]).ok(),
        forall|j: int| 0 <= j < s2.len() ==> (#[trigger] s2[j]).ok(),
    ensures
        forall|j: int| 0 <= j < (s1 + s2).len() ==> (#[trigger] (s1 + s2)[j]).ok(),
{
    assert forall|j: int| 0 <= j < (s1 + s2).len() implies (#[trigger] (s1 + s2)[j]).ok() by {
        if j < s1.len() {
            assert((s1 + s2)[j] == s1[j]);
        } else {
            assert((s1 + s2)[j] == s2[j - s1.len()]);
        }
    }
}

pub proof fn lemma_leaf_contribs_ok<TId: Id>(bs: Seq<Body<TId>>, qid: TId)
    requires
        crate::node::bodies_ok(bs),
    ensures
        leaf_contribs(bs, qid).len() <= bs.len(),
        forall|j: int|
            0 <= j < leaf_contribs(bs, qid).len() ==> (#[trigger] leaf_contribs(bs, qid)[j]).ok(),
    decreases bs.len(),
{
    if bs.len() > 0 {
        assert(crate::node::bodies_ok(bs.drop_last())) by {
            assert forall|i: int|
                0 <= i < bs.drop_last().len() implies crate::node::body_ok(
                #[trigger] bs.drop_last()[i],
            ) by {
                assert(bs.drop_last()[i] == bs[i]);
            }
        }
        lemma_leaf_contribs_ok(bs.drop_last(), qid);
        assert(crate::node::body_ok(bs.last()));
        let tail: Seq<Contrib> = if bs.last().id == qid {
            Seq::empty()
        } else {
            seq![Contrib::FromBody { pos: bs.last().pos, mass: bs.last().mass }]
        };
        assert(forall|j: int| 0 <= j < tail.len() ==> (#[trigger] tail[j]).ok());
        lemma_ok_concat(leaf_contribs(bs.drop_last(), qid), tail);
    }
}

/// What a well-formed subtree guarantees of its contributors: there are at
/// most as many as there are bodies under the node, and each obeys the
/// aggregate bounds.
pub proof fn lemma_contribs_ok<TId: Id>(n: Node<TId>, qid: TId, p: V3, tn: int, td: int)
    requires
        n.wf(),
    ensures
        n.contribs(qid, p, tn, td).len() <= n.bodies().len(),
        forall|j: int|
            0 <= j < n.contribs(qid, p, tn, td).len() ==> (#[trigger] n.contribs(
                qid,
                p,
                tn,
                td,
            )[j]).ok(),
    decreases n,
{
    match n.kind {
        NodeKind::Empty => {},
        NodeKind::Leaf(bs) => {
            lemma_leaf_contribs_ok(bs@, qid);
        },
        NodeKind::Internal(cs) => {
            if accepts(n.size as int, n.weighted, n.mass as int, p, tn, td) {
                crate::node::lemma_node_bounds(n);
            } else {
                lemma_contribs_ok(cs@[0], qid, p, tn, td);
                lemma_contribs_ok(cs@[1], qid, p, tn, td);
                lemma_contribs_ok(cs@[2], qid, p, tn, td);
                lemma_contribs_ok(cs@[3], qid, p, tn, td);
                lemma_contribs_ok(cs@[4], qid, p, tn, td);
                lemma_contribs_ok(cs@[5], qid, p, tn, td);
                lemma_contribs_ok(cs@[6], qid, p, tn, td);
                lemma_contribs_ok(cs@[7], qid, p, tn, td);
                let q0 = cs@[0].contribs(qid, p, tn, td);
                let q1 = cs@[1].contribs(qid, p, tn, td);
                let q2 = cs@[2].contribs(qid, p, tn, td);
                let q3 = cs@[3].contribs(qid, p, tn, td);
                let q4 = cs@[4].contribs(qid, p, tn, td);
                let q5 = cs@[5].contribs(qid, p, tn, td);
                let q6 = cs@[6].contribs(qid, p, tn, td);
                let q7 = cs@[7].contribs(qid, p, tn, td);
                lemma_ok_concat(q0, q1);
                lemma_ok_concat(q0 + q1, q2);
                lemma_ok_concat(q0 + q1 + q2, q3);
                lemma_ok_concat(q0 + q1 + q2 + q3, q4);
                lemma_ok_concat(q0 + q1 + q2 + q3 + q4, q5);
                lemma_ok_concat(q0 + q1 + q2 + q3 + q4 + q5, q6);
                lemma_ok_concat(q0 + q1 + q2 + q3 + q4 + q5 + q6, q7);
                crate::node::lemma_internal_parts(cs@);
            }
        },
    }
}

impl<TId: Id> Node<TId> {
    /// Walk the subtree, appending every contributor for a query at `p` by
    /// `qid` with threshold `tn / td`, in traversal order.
    pub fn collect_contribs(&self, qid: &TId, p: &V3, tn: i64, td: i64, out: &mut Vec<Contrib>)
        requires
            self.wf(),
            p.bounded(MAX_COORD as int),
            0 <= tn <= MAX_THETA,
            1 <= td <= MAX_THETA,
        ensures
            final(out)@ == old(out)@ + self.contribs(*qid, *p, tn as int, td as int),
        decreases self.size,
    {
        let ghost out0 = out@;
        match &self.kind {
            NodeKind::Empty => {
                proof {
                    assert(out@ =~= out0 + self.contribs(*qid, *p, tn as int, td as int));
                }
            },
            NodeKind::Leaf(bs) => {
                let n = bs.len();
                let mut j: usize = 0;
                while j < n
                    invariant
                        j <= n,
                        n == bs@.len(),
                        out@ == out0 + leaf_contribs(bs@.take(j as int), *qid),
                    decreases n - j,
                {
                    let bj = &bs[j];
                    let ghost taken = bs@.take(j as int);
                    if !bj.id.same(qid) {
                        out.push(Contrib::FromBody { pos: bj.pos, mass: bj.mass });
                    }
                    proof {
                        assert(bs@.take(j + 1 as int) =~= taken.push(bs@[j as int]));
                        lemma_leaf_contribs_push(taken, bs@[j as int], *qid);
                        if bs@[j as int].id == *qid {
                            assert(out@ =~= out0 + leaf_contribs(bs@.take(j + 1 as int), *qid));
                        } else {
                            assert(out@ =~= out0 + leaf_contribs(bs@.take(j + 1 as int), *qid));
                        }
                    }
                    j += 1;
                }
                proof {
                    assert(bs@.take(n as int) =~= bs@);
                }
            },
            NodeKind::Internal(cs) => {
                proof {
                    crate::node::lemma_node_bounds(*self);
                    assert(-0x1_0000_0000_0000 <= self.mass * p.x <= 0x1_0000_0000_0000
                        && -0x1_0000_0000_0000 <= self.mass * p.y <= 0x1_0000_0000_0000
                        && -0x1_0000_0000_0000 <= self.mass * p.z <= 0x1_0000_0000_0000)
                        by (nonlinear_arith)
                        requires
                            -0x1000_0000 <= self.mass <= 0x1000_0000,
                            -MAX_COORD <= p.x <= MAX_COORD,
                            -MAX_COORD <= p.y <= MAX_COORD,
                            -MAX_COORD <= p.z <= MAX_COORD,
                            MAX_COORD == 1048576i64;
                }
                let m = self.mass;
                let dx = self.weighted.x - m * p.x;
                let dy = self.weighted.y - m * p.y;
                let dz = self.weighted.z - m * p.z;
                let sx = crate::arith::sq128(dx);
                let sy = crate::arith::sq128(dy);
                let sz = crate::arith::sq128(dz);
                proof {
                    assert(sx <= 0x4_0000_0000_0000_0000_0000_0000u128 && sy
                        <= 0x4_0000_0000_0000_0000_0000_0000u128 && sz
                        <= 0x4_0000_0000_0000_0000_0000_0000u128) by (nonlinear_arith)
                        requires
                            sx == (dx as int) * (dx as int),
                            sy == (dy as int) * (dy as int),
                            sz == (dz as int) * (dz as int),
                            -0x2_0000_0000_0000 <= dx <= 0x2_0000_0000_0000,
                            -0x2_0000_0000_0000 <= dy <= 0x2_0000_0000_0000,
                            -0x2_0000_0000_0000 <= dz <= 0x2_0000_0000_0000;
                }
                let d2: u128 = sx + sy + sz;
                proof {
                    assert(0 <= self.size * td <= 0x8000_0000) by (nonlinear_arith)
                        requires
                            0 <= self.size <= MAX_SIZE,
                            1 <= td <= MAX_THETA,
                            MAX_SIZE == 2097152i64,
                            MAX_THETA == 1024i64;
                }
                let st: i64 = self.size * td;
                let st2: u128 = crate::arith::sq128(st);
                let m2: u128 = crate::arith::sq128(m);
                let tn2: u128 = crate::arith::sq128(tn);
                proof {
                    assert(st2 * m2 <= u128::MAX && tn2 * d2 <= u128::MAX) by (nonlinear_arith)
                        requires
                            st2 == (st as int) * (st as int),
                            m2 == (m as int) * (m as int),
                            tn2 == (tn as int) * (tn as int),
                            0 <= st <= 0x8000_0000,
                            -0x1000_0000 <= m <= 0x1000_0000,
                            0 <= tn <= 1024,
                            0 <= d2 <= 0xC_0000_0000_0000_0000_0000_0000u128;
                }
                let lhs: u128 = st2 * m2;
                let rhs: u128 = tn2 * d2;
                let acc = m != 0 && lhs < rhs;
                proof {
                    assert(acc == accepts(
                        self.size as int,
                        self.weighted,
                        m as int,
                        *p,
                        tn as int,
                        td as int,
                    ));
                }
                if acc {
                    out.push(Contrib::FromAgg { weighted: self.weighted, mass: m });
                    proof {
                        assert(out@ =~= out0 + self.contribs(*qid, *p, tn as int, td as int));
                    }
                } else {
                    proof {
                        assert(cs@[0].wf() && cs@[0].size < self.size);
                        assert(cs@[1].wf() && cs@[1].size < self.size);
                        assert(cs@[2].wf() && cs@[2].size < self.size);
                        assert(cs@[3].wf() && cs@[3].size < self.size);
                        assert(cs@[4].wf() && cs@[4].size < self.size);
                        assert(cs@[5].wf() && cs@[5].size < self.size);
                        assert(cs@[6].wf() && cs@[6].size < self.size);
                        assert(cs@[7].wf() && cs@[7].size < self.size);
                    }
                    cs[0].collect_contribs(qid, p, tn, td, out);
                    cs[1].collect_contribs(qid, p, tn, td, out);
                    cs[2].collect_contribs(qid, p, tn, td, out);
                    cs[3].collect_contribs(qid, p, tn, td, out);
                    cs[4].collect_contribs(qid, p, tn, td, out);
                    cs[5].collect_contribs(qid, p, tn, td, out);
                    cs[6].collect_contribs(qid, p, tn, td, out);
                    cs[7].collect_contribs(qid, p, tn, td, out);
                    proof {
                        assert(out@ =~= out0 + self.contribs(*qid, *p, tn as int, td as int));
                    }
                }
            },
        }
    }
}

/// One truncating step of the staged power evaluation for non-positive
/// exponents: multiply by `den / (ll + den)`, that is by `1 / (r + 1)` where
/// `r = ll / den` is the distance in position units.
pub open spec fn shrink_steps(s: int, den: int, lpd: int, k: nat) -> int
    decreases k,
{
    if k == 0 {
        s
    } else {
        (shrink_steps(s, den, lpd, (k - 1) as nat) * den) / lpd
    }
}

/// Magnitude of one axis of one contributor's force term, over absolute
/// values. The law is `F = k * m * u * (r + 1)^e` with `k = kn / kd`,
/// `u = D / |D|` the unit direction, `r = |D| / den` the distance and one
/// position unit as the small constant added to it. With `ll = isqrt(D.D)`:
/// for `e <= 0` the power is applied as `-e` truncating shrink steps and
/// the result is `shrink^(-e)(|kn| * m * |D_axis|) / (kd * ll)`; for `e > 0`
/// it is the single exact division
/// `(|kn| * m * |D_axis| * (ll + den)^e) / (kd * ll * den^e)`.
pub open spec fn law_mag(kn_abs: int, kd: int, m: int, den: int, d_abs: int, ll: int, e: int) -> int {
    if e <= 0 {
        shrink_steps(kn_abs * m * d_abs, den, ll + den, (-e) as nat) / (kd * ll)
    } else {
        (kn_abs * m * d_abs * vstd::arithmetic::power::pow(ll + den, e as nat)) / (kd * ll * den
            * vstd::arithmetic::power::pow(den, (e - 1) as nat))
    }
}

/// Apply the sign of `kn * d` to a magnitude.
pub open spec fn signed_mag(mag: int, kn: int, d: int) -> int {
    if (kn < 0) != (d < 0) {
        -mag
    } else {
        mag
    }
}

/// The force one contributor exerts on a body at `p`, per axis. A
/// contributor of non-positive mass exerts nothing, and one exactly at `p`
/// exerts nothing (the direction has no meaning there).
pub open spec fn law_term(c: Contrib, p: V3, kn: int, kd: int, e: int) -> (int, int, int) {
    let m = c.mass_of();
    if m <= 0 {
        (0, 0, 0)
    } else {
        let d2 = c.d2_of(p);
        if d2 == 0 {
            (0, 0, 0)
        } else {
            let ll = sqrt_floor(d2);
            let den = c.den_of();
            (
                signed_mag(law_mag(abs_i(kn), kd, m, den, abs_i(c.dx_of(p)), ll, e), kn, c.dx_of(p)),
                signed_mag(law_mag(abs_i(kn), kd, m, den, abs_i(c.dy_of(p)), ll, e), kn, c.dy_of(p)),
                signed_mag(law_mag(abs_i(kn), kd, m, den, abs_i(c.dz_of(p)), ll, e), kn, c.dz_of(p)),
            )
        }
    }
}

/// The net force of a sequence of contributors: the sum of their terms.
pub open spec fn force_sum(cs: Seq<Contrib>, p: V3, kn: int, kd: int, e: int) -> (int, int, int)
    decreases cs.len(),
{
    if cs.len() == 0 {
        (0, 0, 0)
    } else {
        let t = force_sum(cs.drop_last(), p, kn, kd, e);
        let u = law_term(cs.last(), p, kn, kd, e);
        (t.0 + u.0, t.1 + u.1, t.2 + u.2)
    }
}

/// The force law applied to one reported point mass, from its exact pair
/// `weighted / denom`: the very same term `force` folds for the
/// contributor the entry came from.
pub open spec fn pm_term(pm: PointMass, p: V3, kn: int, kd: int, e: int) -> (int, int, int) {
    let m = pm.mass as int;
    if m <= 0 {
        (0, 0, 0)
    } else {
        let dx = pm.weighted.x - pm.denom * p.x;
        let dy = pm.weighted.y - pm.denom * p.y;
        let dz = pm.weighted.z - pm.denom * p.z;
        let d2 = dx * dx + dy * dy + dz * dz;
        if d2 == 0 {
            (0, 0, 0)
        } else {
            let ll = sqrt_floor(d2);
            (
                signed_mag(law_mag(abs_i(kn), kd, m, pm.denom as int, abs_i(dx), ll, e), kn, dx),
                signed_mag(law_mag(abs_i(kn), kd, m, pm.denom as int, abs_i(dy), ll, e), kn, dy),
                signed_mag(law_mag(abs_i(kn), kd, m, pm.denom as int, abs_i(dz), ll, e), kn, dz),
            )
        }
    }
}

/// The net force of a list of reported point masses under the library's
/// own law: the sum of their terms.
pub open spec fn pm_force_sum(pms: Seq<PointMass>, p: V3, kn: int, kd: int, e: int) -> (
    int,
    int,
    int,
)
    decreases pms.len(),
{
    if pms.len() == 0 {
        (0, 0, 0)
    } else {
        let t = pm_force_sum(pms.drop_last(), p, kn, kd, e);
        let u = pm_term(pms.last(), p, kn, kd, e);
        (t.0 + u.0, t.1 + u.1, t.2 + u.2)
    }
}

/// A reported point mass carries its contributor's force term unchanged.
pub proof fn lemma_pm_term_matches(c: Contrib, p: V3, kn: int, kd: int, e: int)
    ensures
        pm_term(c.as_point_mass(), p, kn, kd, e) == law_term(c, p, kn, kd, e),
{
    match c {
        Contrib::FromBody { pos, mass } => {
            let pm = c.as_point_mass();
            assert(pm.denom * p.x == p.x && pm.denom * p.y == p.y && pm.denom * p.z == p.z)
                by (nonlinear_arith)
                requires
                    pm.denom == 1i64;
            assert(pm.weighted.x - pm.denom * p.x == c.dx_of(p));
            assert(pm.weighted.y - pm.denom * p.y == c.dy_of(p));
            assert(pm.weighted.z - pm.denom * p.z == c.dz_of(p));
        },
        Contrib::FromAgg { weighted, mass } => {},
    }
}

pub proof fn lemma_force_sum_push(cs: Seq<Contrib>, x: Contrib, p: V3, kn: int, kd: int, e: int)
    ensures
        force_sum(cs.push(x), p, kn, kd, e).0 == force_sum(cs, p, kn, kd, e).0 + law_term(
            x,
            p,
            kn,
            kd,
            e,
        ).0,
        force_sum(cs.push(x), p, kn, kd, e).1 == force_sum(cs, p, kn, kd, e).1 + law_term(
            x,
            p,
            kn,
            kd,
            e,
        ).1,
        force_sum(cs.push(x), p, kn, kd, e).2 == force_sum(cs, p, kn, kd, e).2 + law_term(
            x,
            p,
            kn,
            kd,
            e,
        ).2,
{
    assert(cs.push(x).drop_last() =~= cs);
    assert(cs.push(x).last() == x);
}

/// Cancelling a common positive factor of numerator and denominator keeps
/// the truncated quotient.
pub proof fn lemma_div_cancel_factor(a: int, b: int, f: int)
    requires
        0 <= a,
        1 <= b,
        1 <= f,
    ensures
        (a * f) / (b * f) == a / b,
{
    let q = a / b;
    let r = a % b;
    vstd::arithmetic::div_mod::lemma_fundamental_div_mod(a, b);
    assert(a * f == q * (b * f) + r * f) by (nonlinear_arith)
        requires
            a == b * q + r;
    assert(0 <= r * f && r * f < b * f) by (nonlinear_arith)
        requires
            0 <= r,
            r < b,
            1 <= f;
    vstd::arithmetic::div_mod::lemma_fundamental_div_mod_converse(a * f, b * f, q, r * f);
}

/// The shrink steps never leave `[0, s]`.
pub proof fn lemma_shrink_steps_le(s: int, den: int, lpd: int, k: nat)
    requires
        0 <= s,
        1 <= den,
        den <= lpd,
    ensures
        0 <= shrink_steps(s, den, lpd, k) <= s,
    decreases k,
{
    if k > 0 {
        lemma_shrink_steps_le(s, den, lpd, (k - 1) as nat);
        let x = shrink_steps(s, den, lpd, (k - 1) as nat);
        assert(0 <= x * den && x * den <= x * lpd) by (nonlinear_arith)
            requires
                0 <= x,
                1 <= den,
                den <= lpd;
        vstd::arithmetic::div_mod::lemma_div_pos_is_pos(x * den, lpd);
        vstd::arithmetic::div_mod::lemma_div_is_ordered(x * den, x * lpd, lpd);
        assert(x * lpd == lpd * x) by (nonlinear_arith);
        vstd::arithmetic::div_mod::lemma_div_multiples_vanish(x, lpd);
    }
}

/// The magnitude of one force-term axis is bounded, under the caps a
/// well-formed tree guarantees.
pub proof fn lemma_law_mag_bound(kn_abs: int, kd: int, m: int, den: int, d_abs: int, ll: int, e: int)
    requires
        0 <= kn_abs <= 65536,
        1 <= kd,
        1 <= m <= 0x1000_0000,
        0 <= d_abs <= ll,
        1 <= ll <= 0x4_0000_0000_0000,
        e <= 1,
        den == m || (den == 1 && m <= 65536 && ll <= 0x40_0000),
    ensures
        0 <= law_mag(kn_abs, kd, m, den, d_abs, ll, e),
        law_mag(kn_abs, kd, m, den, d_abs, ll, e) < 0x8_0000_0000_0000_0000,
{
    assert(0 < kd * ll) by (nonlinear_arith)
        requires
            1 <= kd,
            1 <= ll;
    if e <= 0 {
        let s0 = kn_abs * m * d_abs;
        assert(0 <= s0 && s0 <= (kn_abs * m) * ll) by (nonlinear_arith)
            requires
                s0 == kn_abs * m * d_abs,
                0 <= kn_abs,
                1 <= m,
                0 <= d_abs <= ll;
        lemma_shrink_steps_le(s0, den, ll + den, (-e) as nat);
        let sh = shrink_steps(s0, den, ll + den, (-e) as nat);
        vstd::arithmetic::div_mod::lemma_div_pos_is_pos(sh, kd * ll);
        vstd::arithmetic::div_mod::lemma_div_is_ordered(sh, (kn_abs * m) * ll, kd * ll);
        lemma_div_cancel_factor(kn_abs * m, kd, ll);
        vstd::arithmetic::div_mod::lemma_div_nonincreasing(kn_abs * m, kd);
        assert(kn_abs * m <= 65536 * 0x1000_0000) by (nonlinear_arith)
            requires
                0 <= kn_abs <= 65536,
                1 <= m <= 0x1000_0000;
    } else {
        vstd::arithmetic::power::lemma_pow1(ll + den);
        vstd::arithmetic::power::lemma_pow0(den);
        let num = kn_abs * m * d_abs * (ll + den);
        if den == m {
            assert(num == (kn_abs * d_abs * (ll + den)) * m && kd * ll * den * 1 == (kd * ll) * m
                && 0 <= kn_abs * d_abs * (ll + den) && kn_abs * d_abs * (ll + den) <= (kn_abs * (ll
                + den)) * ll) by (nonlinear_arith)
                requires
                    num == kn_abs * m * d_abs * (ll + den),
                    den == m,
                    1 <= m,
                    0 <= kn_abs,
                    0 <= d_abs <= ll,
                    1 <= ll;
            lemma_div_cancel_factor(kn_abs * d_abs * (ll + den), kd * ll, m);
            vstd::arithmetic::div_mod::lemma_div_pos_is_pos(kn_abs * d_abs * (ll + den), kd * ll);
            vstd::arithmetic::div_mod::lemma_div_is_ordered(
                kn_abs * d_abs * (ll + den),
                (kn_abs * (ll + den)) * ll,
                kd * ll,
            );
            lemma_div_cancel_factor(kn_abs * (ll + den), kd, ll);
            vstd::arithmetic::div_mod::lemma_div_nonincreasing(kn_abs * (ll + den), kd);
            assert(kn_abs * (ll + den) < 0x8_0000_0000_0000_0000) by (nonlinear_arith)
                requires
                    0 <= kn_abs <= 65536,
                    1 <= den <= 0x1000_0000,
                    1 <= ll <= 0x4_0000_0000_0000;
        } else {
            assert(num == (kn_abs * m * d_abs) * (ll + 1) && kd * ll * den * 1 == kd * ll && 0
                <= num && num <= ((kn_abs * m * (ll + 1)) * ll)) by (nonlinear_arith)
                requires
                    num == kn_abs * m * d_abs * (ll + den),
                    den == 1,
                    1 <= m,
                    0 <= kn_abs,
                    0 <= d_abs <= ll,
                    1 <= ll;
            vstd::arithmetic::div_mod::lemma_div_pos_is_pos(num, kd * ll);
            vstd::arithmetic::div_mod::lemma_div_is_ordered(num, (kn_abs * m * (ll + 1)) * ll, kd * ll);
            lemma_div_cancel_factor(kn_abs * m * (ll + 1), kd, ll);
            vstd::arithmetic::div_mod::lemma_div_nonincreasing(kn_abs * m * (ll + 1), kd);
            assert(kn_abs * m * (ll + 1) < 0x8_0000_0000_0000_0000) by (nonlinear_arith)
                requires
                    0 <= kn_abs <= 65536,
                    1 <= m <= 65536,
                    1 <= ll <= 0x40_0000;
        }
    }
}

/// Every axis of every contributor's force term stays below `MAX_LAW_TERM`.
pub proof fn lemma_law_term_bound(c: Contrib, p: V3, kn: int, kd: int, e: int)
    requires
        c.ok(),
        p.bounded(MAX_COORD as int),
        -65536 <= kn <= 65536,
        1 <= kd <= 65536,
        e <= 1,
    ensures
        -(MAX_LAW_TERM as int) < law_term(c, p, kn, kd, e).0 < MAX_LAW_TERM as int,
        -(MAX_LAW_TERM as int) < law_term(c, p, kn, kd, e).1 < MAX_LAW_TERM as int,
        -(MAX_LAW_TERM as int) < law_term(c, p, kn, kd, e).2 < MAX_LAW_TERM as int,
{
    let m = c.mass_of();
    if m > 0 {
        let dx = c.dx_of(p);
        let dy = c.dy_of(p);
        let dz = c.dz_of(p);
        let d2 = c.d2_of(p);
        assert(dx * dx >= 0 && dy * dy >= 0 && dz * dz >= 0) by (nonlinear_arith);
        if d2 != 0 {
            let ll = sqrt_floor(d2);
            crate::arith::lemma_sqrt_floor_bounds(d2);
            assert(ll >= 1) by {
                if ll == 0 {
                    assert(d2 < 1) by (nonlinear_arith)
                        requires
                            d2 < (ll + 1) * (ll + 1),
                            ll == 0;
                }
            }
            assert(abs_i(dx) <= ll && abs_i(dy) <= ll && abs_i(dz) <= ll) by (nonlinear_arith)
                requires
                    dx * dx <= d2 && dy * dy <= d2 && dz * dz <= d2,
                    d2 < (ll + 1) * (ll + 1),
                    ll >= 0;
            match c {
                Contrib::FromBody { pos, mass } => {
                    assert(abs_i(dx) <= 0x20_0000 && abs_i(dy) <= 0x20_0000 && abs_i(dz)
                        <= 0x20_0000);
                    assert(d2 < 0x1000_0000_0000) by (nonlinear_arith)
                        requires
                            d2 == dx * dx + dy * dy + dz * dz,
                            -0x20_0000 <= dx <= 0x20_0000,
                            -0x20_0000 <= dy <= 0x20_0000,
                            -0x20_0000 <= dz <= 0x20_0000;
                    assert((0x40_0000int) * (0x40_0000int) == 0x1000_0000_0000)
                        by (nonlinear_arith);
                    crate::arith::lemma_sqrt_floor_lt(d2, 0x40_0000);
                    lemma_law_mag_bound(abs_i(kn), kd, m, 1, abs_i(dx), ll, e);
                    lemma_law_mag_bound(abs_i(kn), kd, m, 1, abs_i(dy), ll, e);
                    lemma_law_mag_bound(abs_i(kn), kd, m, 1, abs_i(dz), ll, e);
                },
                Contrib::FromAgg { weighted, mass } => {
                    assert(-0x1_0000_0000_0000 <= mass * p.x <= 0x1_0000_0000_0000
                        && -0x1_0000_0000_0000 <= mass * p.y <= 0x1_0000_0000_0000
                        && -0x1_0000_0000_0000 <= mass * p.z <= 0x1_0000_0000_0000)
                        by (nonlinear_arith)
                        requires
                            -0x1000_0000 <= mass <= 0x1000_0000,
                            -0x10_0000 <= p.x <= 0x10_0000,
                            -0x10_0000 <= p.y <= 0x10_0000,
                            -0x10_0000 <= p.z <= 0x10_0000;
                    assert(d2 <= 0xC_0000_0000_0000_0000_0000_0000) by (nonlinear_arith)
                        requires
                            d2 == dx * dx + dy * dy + dz * dz,
                            -0x2_0000_0000_0000 <= dx <= 0x2_0000_0000_0000,
                            -0x2_0000_0000_0000 <= dy <= 0x2_0000_0000_0000,
                            -0x2_0000_0000_0000 <= dz <= 0x2_0000_0000_0000;
                    assert((0x4_0000_0000_0001int) * (0x4_0000_0000_0001int)
                        > 0xC_0000_0000_0000_0000_0000_0000) by (nonlinear_arith);
                    crate::arith::lemma_sqrt_floor_lt(d2, 0x4_0000_0000_0001);
                    lemma_law_mag_bound(abs_i(kn), kd, m, m, abs_i(dx), ll, e);
                    lemma_law_mag_bound(abs_i(kn), kd, m, m, abs_i(dy), ll, e);
                    lemma_law_mag_bound(abs_i(kn), kd, m, m, abs_i(dz), ll, e);
                },
            }
        }
    }
}

/// One axis of one contributor's force magnitude (absolute value), exactly
/// as `law_mag` defines it.
fn mag_axis(kn_abs: u64, kd: u64, m: u64, den: u64, d_abs: u64, ll: u64, e: i32) -> (mg: u128)
    requires
        kn_abs <= 65536,
        1 <= kd <= 65536,
        1 <= m <= 0x1000_0000,
        d_abs <= ll,
        1 <= ll <= 0x4_0000_0000_0000,
        e <= 1,
        den == m || (den == 1 && m <= 65536 && ll <= 0x40_0000),
    ensures
        mg == law_mag(
            kn_abs as int,
            kd as int,
            m as int,
            den as int,
            d_abs as int,
            ll as int,
            e as int,
        ),
{
    proof {
        assert((kn_abs as int) * (m as int) <= 0x1000_0000_0000 && 0 <= (kn_abs as int) * (
        m as int)) by (nonlinear_arith)
            requires
                0 <= kn_abs <= 65536,
                0 <= m <= 0x1000_0000;
    }
    if e <= 0 {
        let k: u64 = (-(e as i64)) as u64;
        let km: u128 = (kn_abs as u128) * (m as u128);
        proof {
            assert((km as int) * (d_abs as int) <= 0x4_0000_0000_0000_0000_0000_0000 && 0 <= (
            km as int) * (d_abs as int)) by (nonlinear_arith)
                requires
                    0 <= km <= 0x1000_0000_0000u128,
                    0 <= d_abs <= 0x4_0000_0000_0000u64;
        }
        let mut s: u128 = km * (d_abs as u128);
        let ghost s0 = s as int;
        let lpd: u128 = (ll as u128) + (den as u128);
        let mut j: u64 = 0;
        proof {
            assert(k as int == -(e as int));
        }
        while j < k
            invariant
                j <= k,
                s as int == shrink_steps(s0, den as int, lpd as int, j as nat),
                0 <= s as int <= s0,
                s0 <= 0x4_0000_0000_0000_0000_0000_0000,
                lpd == ll as int + den as int,
                1 <= den <= 0x1000_0000u64,
                1 <= ll,
            decreases k - j,
        {
            proof {
                lemma_shrink_steps_le(s0, den as int, lpd as int, (j + 1) as nat);
                assert((s as int) * (den as int) <= 0x4_0000_0000_0000_0000_0000_0000 * 0x1000_0000
                    && 0 <= (s as int) * (den as int)) by (nonlinear_arith)
                    requires
                        0 <= s as int <= 0x4_0000_0000_0000_0000_0000_0000,
                        0 <= den <= 0x1000_0000u64;
            }
            s = (s * (den as u128)) / lpd;
            j += 1;
        }
        proof {
            assert(j == k);
            assert((k as nat) == (-(e as int)) as nat);
            assert(0 < (kd as int) * (ll as int) && (kd as int) * (ll as int)
                <= 0x4_0000_0000_0000_0000_0000) by (nonlinear_arith)
                requires
                    1 <= kd <= 65536,
                    1 <= ll <= 0x4_0000_0000_0000u64;
        }
        let mg0: u128 = s / ((kd as u128) * (ll as u128));
        proof {
            assert(mg0 == law_mag(
                kn_abs as int,
                kd as int,
                m as int,
                den as int,
                d_abs as int,
                ll as int,
                e as int,
            ));
        }
        mg0
    } else {
        proof {
            vstd::arithmetic::power::lemma_pow1(ll as int + den as int);
            vstd::arithmetic::power::lemma_pow0(den as int);
            assert(0 < (kd as int) * (ll as int) && (kd as int) * (ll as int)
                <= 0x4_0000_0000_0000_0000_0000) by (nonlinear_arith)
                requires
                    1 <= kd <= 65536,
                    1 <= ll <= 0x4_0000_0000_0000u64;
        }
        if den == 1 {
            proof {
                assert(((kn_abs as int) * (m as int)) * (d_abs as int) <= 0x4_0000_0000_0000_0000
                    && 0 <= ((kn_abs as int) * (m as int)) * (d_abs as int)) by (nonlinear_arith)
                    requires
                        0 <= kn_abs <= 65536,
                        1 <= m,
                        0 <= d_abs <= ll,
                        den == 1u64,
                        den == m || (m <= 65536u64 && ll <= 0x40_0000u64),
                        ll <= 0x4_0000_0000_0000u64;
            }
            let kmd: u128 = ((kn_abs as u128) * (m as u128)) * (d_abs as u128);
            proof {
                assert((kmd as int) * (ll as int + 1) <= u128::MAX && 0 <= (kmd as int) * (
                ll as int + 1)) by (nonlinear_arith)
                    requires
                        0 <= kmd <= 0x4_0000_0000_0000_0000u128,
                        1 <= ll <= 0x4_0000_0000_0000u64;
            }
            let num: u128 = kmd * ((ll as u128) + 1);
            let mg1: u128 = num / ((kd as u128) * (ll as u128));
            proof {
                assert(mg1 == law_mag(
                    kn_abs as int,
                    kd as int,
                    m as int,
                    den as int,
                    d_abs as int,
                    ll as int,
                    e as int,
                ));
            }
            mg1
        } else {
            proof {
                assert((kn_abs as int) * (d_abs as int) <= 0x4_0000_0000_0000_0000 && 0 <= (
                kn_abs as int) * (d_abs as int)) by (nonlinear_arith)
                    requires
                        0 <= kn_abs <= 65536,
                        0 <= d_abs <= 0x4_0000_0000_0000u64;
            }
            let kgd: u128 = (kn_abs as u128) * (d_abs as u128);
            let lpd: u128 = (ll as u128) + (den as u128);
            proof {
                assert((kgd as int) * (lpd as int) <= u128::MAX && 0 <= (kgd as int) * (
                lpd as int)) by (nonlinear_arith)
                    requires
                        0 <= kgd <= 0x4_0000_0000_0000_0000u128,
                        0 <= lpd <= 0x8_0000_0000_0000u128;
            }
            let num: u128 = kgd * lpd;
            proof {
                assert((kn_abs as int) * (m as int) * (d_abs as int) * (lpd as int) == ((
                kn_abs as int) * (d_abs as int) * (lpd as int)) * (m as int) && (kd as int) * (
                ll as int) * (den as int) * 1 == ((kd as int) * (ll as int)) * (m as int) && 0 <= (
                kn_abs as int) * (d_abs as int) * (lpd as int)) by (nonlinear_arith)
                    requires
                        den == m,
                        1 <= m,
                        0 <= kn_abs,
                        0 <= d_abs,
                        0 <= lpd,
                        1 <= kd,
                        1 <= ll;
                lemma_div_cancel_factor(
                    (kn_abs as int) * (d_abs as int) * (lpd as int),
                    (kd as int) * (ll as int),
                    m as int,
                );
                assert((kn_abs as int) * (d_abs as int) * (lpd as int) == num as int)
                    by (nonlinear_arith)
                    requires
                        num == kgd * lpd,
                        kgd == (kn_abs as int) * (d_abs as int);
            }
            let mg2: u128 = num / ((kd as u128) * (ll as u128));
            proof {
                assert(mg2 == law_mag(
                    kn_abs as int,
                    kd as int,
                    m as int,
                    den as int,
                    d_abs as int,
                    ll as int,
                    e as int,
                ));
            }
            mg2
        }
    }
}
/// The force one contributor exerts on a body at `p`, exactly as `law_term`
/// defines it.
pub fn law_term_exec(c: &Contrib, p: &V3, kn: i64, kd: i64, e: i32) -> (r: Force)
    requires
        c.ok(),
        p.bounded(MAX_COORD as int),
        -MAX_FORCE_CONST <= kn <= MAX_FORCE_CONST,
        1 <= kd <= MAX_FORCE_CONST,
        e <= 1,
    ensures
        r.x == law_term(*c, *p, kn as int, kd as int, e as int).0,
        r.y == law_term(*c, *p, kn as int, kd as int, e as int).1,
        r.z == law_term(*c, *p, kn as int, kd as int, e as int).2,
{
    let (m, den, dx, dy, dz): (i64, i64, i64, i64, i64) = match *c {
        Contrib::FromBody { pos, mass } => (mass, 1, pos.x - p.x, pos.y - p.y, pos.z - p.z),
        Contrib::FromAgg { weighted, mass } => {
            proof {
                assert(-0x1_0000_0000_0000 <= mass * p.x <= 0x1_0000_0000_0000
                    && -0x1_0000_0000_0000 <= mass * p.y <= 0x1_0000_0000_0000
                    && -0x1_0000_0000_0000 <= mass * p.z <= 0x1_0000_0000_0000)
                    by (nonlinear_arith)
                    requires
                        -0x1000_0000 <= mass <= 0x1000_0000,
                        -0x10_0000 <= p.x <= 0x10_0000,
                        -0x10_0000 <= p.y <= 0x10_0000,
                        -0x10_0000 <= p.z <= 0x10_0000;
            }
            (mass, mass, weighted.x - mass * p.x, weighted.y - mass * p.y, weighted.z - mass * p.z)
        },
    };
    if m <= 0 {
        return Force { x: 0, y: 0, z: 0 };
    }
    proof {
        assert(m as int == c.mass_of());
        assert(den as int == c.den_of());
        assert(dx as int == c.dx_of(*p));
        assert(dy as int == c.dy_of(*p));
        assert(dz as int == c.dz_of(*p));
        assert(-0x2_0000_0000_0000 <= dx <= 0x2_0000_0000_0000);
        assert(-0x2_0000_0000_0000 <= dy <= 0x2_0000_0000_0000);
        assert(-0x2_0000_0000_0000 <= dz <= 0x2_0000_0000_0000);
    }
    let sx = crate::arith::sq128(dx);
    let sy = crate::arith::sq128(dy);
    let sz = crate::arith::sq128(dz);
    proof {
        assert(sx <= 0x4_0000_0000_0000_0000_0000_0000u128 && sy
            <= 0x4_0000_0000_0000_0000_0000_0000u128 && sz
            <= 0x4_0000_0000_0000_0000_0000_0000u128) by (nonlinear_arith)
            requires
                sx == (dx as int) * (dx as int),
                sy == (dy as int) * (dy as int),
                sz == (dz as int) * (dz as int),
                -0x2_0000_0000_0000 <= dx <= 0x2_0000_0000_0000,
                -0x2_0000_0000_0000 <= dy <= 0x2_0000_0000_0000,
                -0x2_0000_0000_0000 <= dz <= 0x2_0000_0000_0000;
    }
    let d2: u128 = sx + sy + sz;
    proof {
        assert(d2 as int == c.d2_of(*p));
    }
    if d2 == 0 {
        return Force { x: 0, y: 0, z: 0 };
    }
    let ll: u64 = crate::arith::isqrt(d2);
    proof {
        crate::arith::lemma_sqrt_floor_bounds(d2 as int);
        assert(ll as int == sqrt_floor(d2 as int));
        assert(ll >= 1) by {
            if (ll as int) == 0 {
                assert((d2 as int) < 1) by (nonlinear_arith)
                    requires
                        (d2 as int) < (sqrt_floor(d2 as int) + 1) * (sqrt_floor(d2 as int) + 1),
                        sqrt_floor(d2 as int) == 0;
            }
        }
        assert((0x4_0000_0000_0001int) * (0x4_0000_0000_0001int)
            > 0xC_0000_0000_0000_0000_0000_0000) by (nonlinear_arith);
        crate::arith::lemma_sqrt_floor_lt(d2 as int, 0x4_0000_0000_0001);
        assert(abs_i(dx as int) <= ll as int && abs_i(dy as int) <= ll as int && abs_i(dz as int)
            <= ll as int) by (nonlinear_arith)
            requires
                (dx as int) * (dx as int) <= d2 as int,
                (dy as int) * (dy as int) <= d2 as int,
                (dz as int) * (dz as int) <= d2 as int,
                (d2 as int) < (ll as int + 1) * (ll as int + 1),
                (ll as int) >= 0;
        if c is FromBody {
            assert((d2 as int) < 0x1000_0000_0000) by (nonlinear_arith)
                requires
                    (d2 as int) == (dx as int) * (dx as int) + (dy as int) * (dy as int) + (
                    dz as int) * (dz as int),
                    -0x20_0000 <= dx <= 0x20_0000,
                    -0x20_0000 <= dy <= 0x20_0000,
                    -0x20_0000 <= dz <= 0x20_0000;
            assert((0x40_0000int) * (0x40_0000int) == 0x1000_0000_0000) by (nonlinear_arith);
            crate::arith::lemma_sqrt_floor_lt(d2 as int, 0x40_0000);
        }
    }
    let kn_abs: u64 = if kn >= 0 {
        kn as u64
    } else {
        (-kn) as u64
    };
    let dax: u64 = if dx >= 0 {
        dx as u64
    } else {
        (-dx) as u64
    };
    let day: u64 = if dy >= 0 {
        dy as u64
    } else {
        (-dy) as u64
    };
    let daz: u64 = if dz >= 0 {
        dz as u64
    } else {
        (-dz) as u64
    };
    proof {
        assert(kn_abs as int == abs_i(kn as int));
        assert(dax as int == abs_i(dx as int));
        assert(day as int == abs_i(dy as int));
        assert(daz as int == abs_i(dz as int));
    }
    let mgx = mag_axis(kn_abs, kd as u64, m as u64, den as u64, dax, ll, e);
    let mgy = mag_axis(kn_abs, kd as u64, m as u64, den as u64, day, ll, e);
    let mgz = mag_axis(kn_abs, kd as u64, m as u64, den as u64, daz, ll, e);
    proof {
        lemma_law_mag_bound(
            kn_abs as int,
            kd as int,
            m as int,
            den as int,
            dax as int,
            ll as int,
            e as int,
        );
        lemma_law_mag_bound(
            kn_abs as int,
            kd as int,
            m as int,
            den as int,
            day as int,
            ll as int,
            e as int,
        );
        lemma_law_mag_bound(
            kn_abs as int,
            kd as int,
            m as int,
            den as int,
            daz as int,
            ll as int,
            e as int,
        );
    }
    let x: i128 = if (kn < 0) != (dx < 0) {
        -(mgx as i128)
    } else {
        mgx as i128
    };
    let y: i128 = if (kn < 0) != (dy < 0) {
        -(mgy as i128)
    } else {
        mgy as i128
    };
    let z: i128 = if (kn < 0) != (dz < 0) {
        -(mgz as i128)
    } else {
        mgz as i128
    };
    Force { x, y, z }
}

/// Fold the force law over a list of contributors: the exact sum of their
/// terms, as `force_sum` defines it.
pub fn force_of_contribs(cs: &Vec<Contrib>, p: &V3, kn: i64, kd: i64, e: i32) -> (r: Force)
    requires
        forall|j: int| 0 <= j < cs@.len() ==> (#[trigger] cs@[j]).ok(),
        cs@.len() <= MAX_BODIES,
        p.bounded(MAX_COORD as int),
        -MAX_FORCE_CONST <= kn <= MAX_FORCE_CONST,
        1 <= kd <= MAX_FORCE_CONST,
        e <= 1,
    ensures
        r.x == force_sum(cs@, *p, kn as int, kd as int, e as int).0,
        r.y == force_sum(cs@, *p, kn as int, kd as int, e as int).1,
        r.z == force_sum(cs@, *p, kn as int, kd as int, e as int).2,
{
    let mut fx: i128 = 0;
    let mut fy: i128 = 0;
    let mut fz: i128 = 0;
    let n = cs.len();
    let mut i: usize = 0;
    while i < n
        invariant
            i <= n,
            n == cs@.len(),
            n <= MAX_BODIES,
            forall|j: int| 0 <= j < cs@.len() ==> (#[trigger] cs@[j]).ok(),
            p.bounded(MAX_COORD as int),
            -MAX_FORCE_CONST <= kn <= MAX_FORCE_CONST,
            1 <= kd <= MAX_FORCE_CONST,
            e <= 1,
            fx == force_sum(cs@.take(i as int), *p, kn as int, kd as int, e as int).0,
            fy == force_sum(cs@.take(i as int), *p, kn as int, kd as int, e as int).1,
            fz == force_sum(cs@.take(i as int), *p, kn as int, kd as int, e as int).2,
            -(i * MAX_LAW_TERM) <= fx <= i * MAX_LAW_TERM,
            -(i * MAX_LAW_TERM) <= fy <= i * MAX_LAW_TERM,
            -(i * MAX_LAW_TERM) <= fz <= i * MAX_LAW_TERM,
        decreases n - i,
    {
        let t = law_term_exec(&cs[i], p, kn, kd, e);
        proof {
            lemma_law_term_bound(cs@[i as int], *p, kn as int, kd as int, e as int);
            lemma_force_sum_push(
                cs@.take(i as int),
                cs@[i as int],
                *p,
                kn as int,
                kd as int,
                e as int,
            );
            assert(cs@.take(i + 1 as int) =~= cs@.take(i as int).push(cs@[i as int]));
            assert((i + 1) * MAX_LAW_TERM == i * MAX_LAW_TERM + MAX_LAW_TERM) by (nonlinear_arith);
            assert(i * MAX_LAW_TERM <= 4096 * MAX_LAW_TERM) by (nonlinear_arith)
                requires
                    0 <= i <= 4096;
        }
        fx = fx + t.x;
        fy = fy + t.y;
        fz = fz + t.z;
        i += 1;
    }
    proof {
        assert(cs@.take(n as int) =~= cs@);
    }
    Force { x: fx, y: fy, z: fz }
}

/// Report each contributor as a point mass: the exact pair (position times
/// `denom`, and `denom` itself), the mass, and the position rounded toward
/// zero as a convenience.
pub fn points_of_contribs(cs: &Vec<Contrib>, capacity: usize) -> (r: Vec<PointMass>)
    requires
        forall|j: int| 0 <= j < cs@.len() ==> (#[trigger] cs@[j]).ok(),
    ensures
        r@.len() == cs@.len(),
        forall|j: int| 0 <= j < cs@.len() ==> r@[j] == (#[trigger] cs@[j]).as_point_mass(),
{
    let mut r: Vec<PointMass> = Vec::with_capacity(capacity);
    let n = cs.len();
    let mut i: usize = 0;
    while i < n
        invariant
            i <= n,
            n == cs@.len(),
            forall|j: int| 0 <= j < cs@.len() ==> (#[trigger] cs@[j]).ok(),
            r@.len() == i,
            forall|j: int| 0 <= j < i ==> r@[j] == (#[trigger] cs@[j]).as_point_mass(),
        decreases n - i,
    {
        let pm: PointMass = match cs[i] {
            Contrib::FromBody { pos, mass } => PointMass {
                weighted: pos,
                denom: 1,
                mass,
                position: pos,
            },
            Contrib::FromAgg { weighted, mass } => {
                proof {
                    vstd::arithmetic::div_mod::lemma_div_nonincreasing(
                        abs_i(weighted.x as int),
                        abs_i(mass as int),
                    );
                    vstd::arithmetic::div_mod::lemma_div_nonincreasing(
                        abs_i(weighted.y as int),
                        abs_i(mass as int),
                    );
                    vstd::arithmetic::div_mod::lemma_div_nonincreasing(
                        abs_i(weighted.z as int),
                        abs_i(mass as int),
                    );
                }
                PointMass {
                    weighted,
                    denom: mass,
                    mass,
                    position: V3 {
                        x: crate::arith::div_trunc_i64(weighted.x, mass),
                        y: crate::arith::div_trunc_i64(weighted.y, mass),
                        z: crate::arith::div_trunc_i64(weighted.z, mass),
                    },
                }
            },
        };
        r.push(pm);
        i += 1;
    }
    r
}

} // verus!
