//! End-to-end tests of the tree over concrete bodies. Coordinates are in a
//! fixed-point scale of 1000 units per world unit.

use barnes_hut::BarnesHutTree;
use barnes_hut::Force;
use barnes_hut::PointMass;
use barnes_hut::V3;

fn v(x: i64, y: i64, z: i64) -> V3 {
    V3 { x, y, z }
}

/// Two bodies straddling the origin; a small threshold forces exact
/// resolution. With the inverse law (`e = -1`) the force on the body at
/// +0.5 points toward -x with magnitude `trunc(trunc(k*m*r / (r+1)) / r)`
/// for `r = 1000` units.
#[test]
fn two_body_attraction_exact() {
    let mut t: BarnesHutTree<u64> = BarnesHutTree::new(v(-1000, -1000, -1000), v(1000, 1000, 1000));
    t.insert(1, v(500, 0, 0), 1);
    t.insert(2, v(-500, 0, 0), 1);
    // theta = 1/100; k = 60000; e = -1.
    let f = t.force(1, v(500, 0, 0), 60000, 1, -1, 1, 100);
    // s0 = 60000 * 1 * 1000 = 60_000_000; one shrink step by 1/(1000+1)
    // gives 59_940; divided by 1000 gives 59.
    assert_eq!(f, Force { x: -59, y: 0, z: 0 });
    // The mirror image for the other body.
    let g = t.force(2, v(-500, 0, 0), 60000, 1, -1, 1, 100);
    assert_eq!(g, Force { x: 59, y: 0, z: 0 });
}

/// Three collinear equal bodies at x = 0, 1, 2 world units. With a large
/// threshold the far pair is aggregated into one contributor at their
/// center of mass; the result stays within one truncation step of the
/// exact two-term sum.
#[test]
fn collinear_far_pair_aggregates() {
    let mut t: BarnesHutTree<u64> = BarnesHutTree::new(v(-2100, -2100, -2100), v(2100, 2100, 2100));
    t.insert(0, v(0, 0, 0), 1);
    t.insert(1, v(1000, 0, 0), 1);
    t.insert(2, v(2000, 0, 0), 1);

    // theta = 2: the child holding the far pair has size 2100 and its
    // aggregate sits at 1500, so size/d = 1.4 < 2 accepts it; the root has
    // size 4200 over distance 1000 and is not accepted.
    let pms = t.point_masses(0, v(0, 0, 0), 2, 1);
    assert_eq!(pms.len(), 1);
    assert_eq!(
        pms[0],
        PointMass { weighted: v(3000, 0, 0), denom: 2, mass: 2, position: v(1500, 0, 0) }
    );

    // Approximate force: one evaluation against the aggregate (mass 2 at
    // 1500): trunc(trunc(3000*2*3000 * 2/3002) / 3000) = 3.
    let approx = t.force(0, v(0, 0, 0), 3000, 1, -1, 2, 1);
    assert_eq!(approx, Force { x: 3, y: 0, z: 0 });

    // Exact force (theta = 0): per-body terms 2 and 1.
    let exact = t.force(0, v(0, 0, 0), 3000, 1, -1, 0, 1);
    assert_eq!(exact, Force { x: 3, y: 0, z: 0 });

    // The approximation error is bounded by the coarser truncation.
    assert!((approx.x - exact.x).abs() <= 1);

    // For an identifier that matches no body, aggregation loses no mass:
    // the far pair aggregates (mass 2), the near body stays exact (mass 1).
    let all = t.point_masses(99, v(0, 0, 0), 2, 1);
    let total: i64 = all.iter().map(|pm| pm.mass).sum();
    assert_eq!(total, t.total_mass());
}

/// A tree holding only the queried body exerts nothing on it and reports
/// no point masses.
#[test]
fn self_exclusion_single_body() {
    let mut t: BarnesHutTree<u64> = BarnesHutTree::new(v(-1000, -1000, -1000), v(1000, 1000, 1000));
    t.insert(7, v(250, -300, 125), 900);
    let f = t.force(7, v(250, -300, 125), 1000, 1, -2, 1, 2);
    assert_eq!(f, Force { x: 0, y: 0, z: 0 });
    let pms = t.point_masses(7, v(250, -300, 125), 1, 2);
    assert!(pms.is_empty());
}

/// The root aggregate is the exact sum of the inserted masses and weighted
/// positions, whatever the insertion order.
#[test]
fn aggregates_ignore_insertion_order() {
    let bodies: [(u64, V3, i64); 4] = [
        (1, v(100, 200, 300), 5),
        (2, v(-400, 0, 250), 7),
        (3, v(999, -999, 1), 11),
        (4, v(0, 0, 0), 2),
    ];
    let mut t1: BarnesHutTree<u64> = BarnesHutTree::new(v(-1000, -1000, -1000), v(1000, 1000, 1000));
    for (id, p, m) in bodies.iter() {
        t1.insert(*id, *p, *m);
    }
    let mut t2: BarnesHutTree<u64> = BarnesHutTree::new(v(-1000, -1000, -1000), v(1000, 1000, 1000));
    for (id, p, m) in bodies.iter().rev() {
        t2.insert(*id, *p, *m);
    }
    assert_eq!(t1.total_mass(), 25);
    assert_eq!(t2.total_mass(), 25);
    let w = t1.weighted_sum();
    // 5*(100,200,300) + 7*(-400,0,250) + 11*(999,-999,1) + 2*(0,0,0)
    assert_eq!(w, v(500 - 2800 + 10989, 1000 - 10989, 1500 + 1750 + 11));
    assert_eq!(t2.weighted_sum(), w);
    assert_eq!(t1.body_count(), 4);
    assert_eq!(t2.body_count(), 4);
}

/// With a huge threshold the root is used directly: one point mass, the
/// whole-system aggregate, even though the queried body is inside it.
#[test]
fn degenerate_regime_uses_root() {
    let mut t: BarnesHutTree<u64> = BarnesHutTree::new(v(-1000, -1000, -1000), v(1000, 1000, 1000));
    t.insert(1, v(500, 0, 0), 1);
    t.insert(2, v(-500, 0, 0), 3);
    // Aggregate: mass 4, weighted (-1000, 0, 0), center of mass -250.
    let pms = t.point_masses(1, v(500, 0, 0), 1000, 1);
    assert_eq!(pms.len(), 1);
    assert_eq!(
        pms[0],
        PointMass { weighted: v(-1000, 0, 0), denom: 4, mass: 4, position: v(-250, 0, 0) }
    );
}

/// Bodies of zero or negative mass are inserted (they shape the tree and
/// its aggregates) but exert zero force.
#[test]
fn non_positive_mass_exerts_nothing() {
    let mut t: BarnesHutTree<u64> = BarnesHutTree::new(v(-1000, -1000, -1000), v(1000, 1000, 1000));
    t.insert(1, v(800, 0, 0), 0);
    t.insert(2, v(-800, 0, 0), -5);
    let f = t.force(9, v(0, 0, 0), 60000, 1, -1, 0, 1);
    assert_eq!(f, Force { x: 0, y: 0, z: 0 });
    assert_eq!(t.total_mass(), -5);
}

/// Two bodies at exactly the same position: subdivision stops at the
/// minimum cell size and the leaf aggregates them; both still act on a
/// third body, each with its own mass.
#[test]
fn coincident_bodies_terminate_and_act() {
    let mut t: BarnesHutTree<u64> = BarnesHutTree::new(v(-2000, -2000, -2000), v(2000, 2000, 2000));
    t.insert(1, v(1000, 0, 0), 1);
    t.insert(2, v(1000, 0, 0), 2);
    assert_eq!(t.total_mass(), 3);
    // Exact regime, e = 0: per-body magnitudes kn*m*|dx|/L = m each.
    let f = t.force(9, v(0, 0, 0), 1, 1, 0, 0, 1);
    assert_eq!(f, Force { x: 3, y: 0, z: 0 });
    let pms = t.point_masses(9, v(0, 0, 0), 0, 1);
    assert_eq!(pms.len(), 2);
}

/// The growth law (`e = 1`): the magnitude is `k * m * (r + 1)` at unit
/// direction, exactly.
#[test]
fn linear_exponent_exact_value() {
    let mut t: BarnesHutTree<u64> = BarnesHutTree::new(v(-2000, -2000, -2000), v(2000, 2000, 2000));
    t.insert(1, v(1000, 0, 0), 5);
    // num = 7 * 5 * 1000 * 1001, denominator 1000: 35035.
    let f = t.force(9, v(0, 0, 0), 7, 1, 1, 0, 1);
    assert_eq!(f, Force { x: 35035, y: 0, z: 0 });
    // e = 0: magnitude k*m.
    let g = t.force(9, v(0, 0, 0), 7, 1, 0, 0, 1);
    assert_eq!(g, Force { x: 35, y: 0, z: 0 });
}

/// A negative force constant reverses the direction (repulsion).
#[test]
fn negative_constant_repels() {
    let mut t: BarnesHutTree<u64> = BarnesHutTree::new(v(-2000, -2000, -2000), v(2000, 2000, 2000));
    t.insert(1, v(1000, 0, 0), 5);
    let f = t.force(9, v(0, 0, 0), -7, 1, 0, 0, 1);
    assert_eq!(f, Force { x: -35, y: 0, z: 0 });
}

/// An aggregate's reported center of mass rounds toward zero, also for
/// negative coordinates.
#[test]
fn aggregate_position_rounds_toward_zero() {
    let mut t: BarnesHutTree<u64> = BarnesHutTree::new(v(-2000, -2000, -2000), v(2000, 2000, 2000));
    t.insert(1, v(-1000, 0, 0), 1);
    t.insert(2, v(-2000, 0, 0), 1);
    // Weighted sum (-3000, 0, 0) over mass 2: -1500 exactly; with masses
    // 1 and 2 it would be -5000/3 = -1666.66 -> -1666.
    let pms = t.point_masses(9, v(2000, 0, 0), 1000, 1);
    assert_eq!(pms.len(), 1);
    assert_eq!(
        pms[0],
        PointMass { weighted: v(-3000, 0, 0), denom: 2, mass: 2, position: v(-1500, 0, 0) }
    );

    let mut t2: BarnesHutTree<u64> = BarnesHutTree::new(v(-2000, -2000, -2000), v(2000, 2000, 2000));
    t2.insert(1, v(-1000, 0, 0), 1);
    t2.insert(2, v(-2000, 0, 0), 2);
    let pms2 = t2.point_masses(9, v(2000, 0, 0), 1000, 1);
    assert_eq!(pms2.len(), 1);
    assert_eq!(
        pms2[0],
        PointMass { weighted: v(-5000, 0, 0), denom: 3, mass: 3, position: v(-1666, 0, 0) }
    );
}

/// A body outside the nominal bounding box still lands in the octant the
/// midpoint comparisons select, and still acts.
#[test]
fn out_of_box_insertion_tolerated() {
    let mut t: BarnesHutTree<u64> = BarnesHutTree::new(v(-100, -100, -100), v(100, 100, 100));
    t.insert(1, v(900, 0, 0), 1);
    t.insert(2, v(-900, 0, 0), 1);
    assert_eq!(t.total_mass(), 2);
    let f = t.force(1, v(900, 0, 0), 1800, 1, -1, 0, 1);
    // D = -1800, L = 1800: s0 = 1800*1*1800; shrink by 1/1801; then /1800.
    // 3_240_000 * 1 / 1801 = 1799; 1799 / 1800 = 0.
    assert_eq!(f, Force { x: 0, y: 0, z: 0 });
    let pms = t.point_masses(1, v(900, 0, 0), 0, 1);
    assert_eq!(pms.len(), 1);
    assert_eq!(
        pms[0],
        PointMass { weighted: v(-900, 0, 0), denom: 1, mass: 1, position: v(-900, 0, 0) }
    );
}

/// Eight bodies, one per octant, all resolved exactly: each is its own
/// point mass in the exact regime (the octant partition at work).
#[test]
fn octants_partition_bodies() {
    let mut t: BarnesHutTree<u64> = BarnesHutTree::new(v(-1000, -1000, -1000), v(1000, 1000, 1000));
    let mut id: u64 = 0;
    for &x in &[-500i64, 500] {
        for &y in &[-500i64, 500] {
            for &z in &[-500i64, 500] {
                t.insert(id, v(x, y, z), 1);
                id += 1;
            }
        }
    }
    assert_eq!(t.body_count(), 8);
    assert_eq!(t.total_mass(), 8);
    assert_eq!(t.weighted_sum(), v(0, 0, 0));
    let pms = t.point_masses(99, v(0, 0, 0), 0, 1);
    assert_eq!(pms.len(), 8);
    let total: i64 = pms.iter().map(|pm| pm.mass).sum();
    assert_eq!(total, 8);
}

/// A body exactly at the query position (with a different id) exerts
/// nothing: the direction is undefined and taken as zero.
#[test]
fn zero_distance_contributor_is_zero() {
    let mut t: BarnesHutTree<u64> = BarnesHutTree::new(v(-1000, -1000, -1000), v(1000, 1000, 1000));
    t.insert(1, v(300, 300, 300), 10);
    let f = t.force(2, v(300, 300, 300), 60000, 1, -1, 0, 1);
    assert_eq!(f, Force { x: 0, y: 0, z: 0 });
}

/// In the exact regime the force is the sum of independent pairwise
/// contributions: querying one tree with many bodies agrees with summing
/// the forces of one single-body tree per body.
#[test]
fn exact_regime_matches_singleton_sum() {
    let bodies: Vec<(u64, V3, i64)> = vec![
        (1, v(137, -821, 409), 3),
        (2, v(-604, 220, -11), 7),
        (3, v(999, 999, -999), 2),
        (4, v(-321, -321, 321), 9),
        (5, v(58, 0, -613), 4),
        (6, v(700, -50, 125), 1),
    ];
    let qpos = v(10, 20, -30);
    let qid: u64 = 99;
    let (kn, kd, e) = (50000i64, 3i64, -1i32);

    let mut whole: BarnesHutTree<u64> = BarnesHutTree::new(v(-1000, -1000, -1000), v(1000, 1000, 1000));
    for (id, p, m) in bodies.iter() {
        whole.insert(*id, *p, *m);
    }
    let f = whole.force(qid, qpos, kn, kd, e, 0, 1);

    let mut sum = Force { x: 0, y: 0, z: 0 };
    for (id, p, m) in bodies.iter() {
        let mut single: BarnesHutTree<u64> =
            BarnesHutTree::new(v(-1000, -1000, -1000), v(1000, 1000, 1000));
        single.insert(*id, *p, *m);
        let g = single.force(qid, qpos, kn, kd, e, 0, 1);
        sum.x += g.x;
        sum.y += g.y;
        sum.z += g.z;
    }
    assert_eq!(f, sum);
    assert!(f.x != 0 || f.y != 0 || f.z != 0);
}

/// The extremes of the admitted ranges: positions and masses at the caps,
/// the widest box, the slowest-decaying admitted exponent.
#[test]
fn extreme_bounds_are_admitted() {
    let c = 1048576i64;
    let m = 65536i64;
    let mut t: BarnesHutTree<u64> = BarnesHutTree::new(v(-c, -c, -c), v(c, c, c));
    t.insert(1, v(c, c, c), m);
    t.insert(2, v(-c, -c, -c), -m);
    t.insert(3, v(-c, c, -c), m);
    assert_eq!(t.total_mass(), m);
    let f = t.force(1, v(c, c, c), 65536, 1, 1, 0, 1);
    let g = t.force(1, v(c, c, c), 65536, 1, 1, 1024, 1024);
    // Negative-mass contributors exert nothing; only body 3 acts, and the
    // threshold cannot aggregate a subtree containing the query body here
    // without also holding it, so both runs resolve it exactly.
    assert_eq!(f, g);
    assert!(f.x < 0 && f.y == 0 && f.z == f.x);
}


/// The two query modes are one traversal: folding the pairwise law over
/// the exact pairs `point_masses` reports gives back exactly what `force`
/// returns, including across an aggregated subtree.
#[test]
fn point_masses_reproduce_force() {
    let mut t: BarnesHutTree<u64> = BarnesHutTree::new(v(-1000, -1000, -1000), v(1000, 1000, 1000));
    t.insert(1, v(500, 0, 0), 1);
    t.insert(2, v(-500, 0, 0), 2);
    let qpos = v(500, 0, 0);
    let (kn, kd) = (1000i64, 1i64);

    // A huge threshold aggregates the whole tree into one entry.
    let pms = t.point_masses(99, qpos, 1000, 1);
    assert_eq!(pms.len(), 1);
    let pm = pms[0];
    assert_eq!(
        pm,
        PointMass { weighted: v(-500, 0, 0), denom: 3, mass: 3, position: v(-166, 0, 0) }
    );

    // Re-apply the law (e = -1) to the exact pair, from scratch: the
    // direction times `denom` is `weighted - denom * p`, the distance is
    // its length over `denom`, and the power is one truncating shrink step.
    let dx: i64 = pm.weighted.x - pm.denom * qpos.x;
    let dy: i64 = pm.weighted.y - pm.denom * qpos.y;
    let dz: i64 = pm.weighted.z - pm.denom * qpos.z;
    let d2 = (dx as i128 * dx as i128 + dy as i128 * dy as i128 + dz as i128 * dz as i128) as u128;
    let ll = barnes_hut::arith::isqrt(d2) as u128;
    let fold_axis = |d: i64| -> i128 {
        if d == 0 {
            return 0;
        }
        let s0 = (kn.unsigned_abs() as u128) * (pm.mass as u128) * (d.unsigned_abs() as u128);
        let s1 = s0 * (pm.denom as u128) / (ll + pm.denom as u128);
        let mag = (s1 / ((kd as u128) * ll)) as i128;
        if (kn < 0) != (d < 0) { -mag } else { mag }
    };
    let refolded = Force { x: fold_axis(dx), y: fold_axis(dy), z: fold_axis(dz) };

    let f = t.force(99, qpos, kn, kd, -1, 1000, 1);
    assert_eq!(f, Force { x: -4, y: 0, z: 0 });
    assert_eq!(refolded, f);
}

/// A degenerate (single-point) bounding box still yields a working tree.
#[test]
fn degenerate_box() {
    let mut t: BarnesHutTree<u64> = BarnesHutTree::new(v(0, 0, 0), v(0, 0, 0));
    t.insert(1, v(0, 0, 0), 4);
    t.insert(2, v(0, 0, 0), 5);
    assert_eq!(t.total_mass(), 9);
    assert_eq!(t.body_count(), 2);
}
