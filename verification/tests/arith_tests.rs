//! Exact values for the arithmetic building blocks and the octant rule.

use barnes_hut::V3;
use barnes_hut::arith::div2_floor;
use barnes_hut::arith::div_trunc_i64;
use barnes_hut::arith::isqrt;
use barnes_hut::arith::sq128;
use barnes_hut::node::branch_index;

#[test]
fn isqrt_exact_values() {
    assert_eq!(isqrt(0), 0);
    assert_eq!(isqrt(1), 1);
    assert_eq!(isqrt(3), 1);
    assert_eq!(isqrt(4), 2);
    assert_eq!(isqrt(999_999), 999);
    assert_eq!(isqrt(1_000_000), 1000);
    assert_eq!(isqrt(u128::MAX), u64::MAX);
}

#[test]
fn div2_floor_rounds_down() {
    assert_eq!(div2_floor(5), 2);
    assert_eq!(div2_floor(-5), -3);
    assert_eq!(div2_floor(-4), -2);
    assert_eq!(div2_floor(0), 0);
}

#[test]
fn div_trunc_rounds_toward_zero() {
    assert_eq!(div_trunc_i64(7, 2), 3);
    assert_eq!(div_trunc_i64(-7, 2), -3);
    assert_eq!(div_trunc_i64(7, -2), -3);
    assert_eq!(div_trunc_i64(-7, -2), 3);
}

#[test]
fn square_widens() {
    assert_eq!(sq128(-3), 9);
    assert_eq!(sq128(1 << 40), 1u128 << 80);
}

/// A coordinate exactly on the midpoint goes to the lower octant on that
/// axis; strictly greater goes high. The index packs x, then y times two,
/// then z times four.
#[test]
fn octant_ties_go_low() {
    let mid = V3 { x: 0, y: 0, z: 0 };
    assert_eq!(branch_index(&V3 { x: 0, y: 0, z: 0 }, &mid), 0);
    assert_eq!(branch_index(&V3 { x: 1, y: 0, z: 0 }, &mid), 1);
    assert_eq!(branch_index(&V3 { x: 0, y: 1, z: 0 }, &mid), 2);
    assert_eq!(branch_index(&V3 { x: 0, y: 0, z: 1 }, &mid), 4);
    assert_eq!(branch_index(&V3 { x: 1, y: 1, z: 1 }, &mid), 7);
    assert_eq!(branch_index(&V3 { x: -1, y: -1, z: -1 }, &mid), 0);
}
