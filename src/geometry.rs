//! Points with integer coordinates and their rounded-down Euclidean distance.

use vstd::prelude::*;

verus! {

/// One unit of length, in micro-units.
pub const UNIT: u64 = 1_000_000;

/// Largest magnitude of a coordinate, in micro-units.
pub const MAX_COORD: i64 = 1_099_511_627_776;

/// Upper bound on any distance between two admissible points.
pub const MAX_DIST: u64 = 4_398_046_511_104;

/// A point with integer coordinates, in micro-units.
pub type Point = (i64, i64);

pub open spec fn coord_ok(p: Point) -> bool {
    -MAX_COORD <= p.0 <= MAX_COORD && -MAX_COORD <= p.1 <= MAX_COORD
}

/// Squared Euclidean distance between two points.
pub open spec fn sq_dist(p: Point, q: Point) -> int {
    (p.0 - q.0) * (p.0 - q.0) + (p.1 - q.1) * (p.1 - q.1)
}

/// `r` is the integer square root of `v`, rounded down.
pub open spec fn is_floor_sqrt(r: int, v: int) -> bool {
    0 <= r && r * r <= v && v < (r + 1) * (r + 1)
}

proof fn lemma_sq_dist_bound(p: Point, q: Point)
    requires
        coord_ok(p),
        coord_ok(q),
    ensures
        0 <= sq_dist(p, q) <= 0x8_0000_0000_0000_0000_0000,
{
    let dx = p.0 - q.0;
    let dy = p.1 - q.1;
    let m = 2 * MAX_COORD as int;
    assert(dx * dx <= m * m) by (nonlinear_arith)
        requires -m <= dx <= m;
    assert(dy * dy <= m * m) by (nonlinear_arith)
        requires -m <= dy <= m;
    assert(0 <= dx * dx) by (nonlinear_arith);
    assert(0 <= dy * dy) by (nonlinear_arith);
    assert(m == 0x200_0000_0000);
    assert(m * m == 0x4_0000_0000_0000_0000_0000) by (nonlinear_arith)
        requires m == 0x200_0000_0000;
}

/// The squared distance does not depend on the order of the two points.
pub proof fn lemma_sq_dist_symmetric(p: Point, q: Point)
    ensures
        sq_dist(p, q) == sq_dist(q, p),
{
    let a = p.0 - q.0;
    let b = p.1 - q.1;
    assert(a * a == (-a) * (-a)) by (nonlinear_arith);
    assert(b * b == (-b) * (-b)) by (nonlinear_arith);
}

/// Integer square root, rounded down, by bisection.
fn floor_sqrt(v: u128) -> (r: u64)
    requires
        v <= 0x8_0000_0000_0000_0000_0000,
    ensures
        is_floor_sqrt(r as int, v as int),
        r < MAX_DIST,
{
    let mut lo: u128 = 0;
    let mut hi: u128 = 0x400_0000_0000;
    assert(hi * hi > v);
    while hi - lo > 1
        invariant
            lo < hi <= 0x400_0000_0000,
            lo * lo <= v,
            v < hi * hi,
        decreases hi - lo,
    {
        let mid: u128 = lo + (hi - lo) / 2;
        assert(mid * mid <= 0x400_0000_0000 * 0x400_0000_0000) by (nonlinear_arith)
            requires mid <= 0x400_0000_0000;
        if mid * mid <= v {
            lo = mid;
        } else {
            hi = mid;
        }
    }
    assert(hi == lo + 1);
    lo as u64
}

/// Distance between two points: the Euclidean distance rounded down.
pub fn euclidean_distance(point1: Point, point2: Point) -> (r: u64)
    requires
        coord_ok(point1),
        coord_ok(point2),
    ensures
        is_floor_sqrt(r as int, sq_dist(point1, point2)),
        r < MAX_DIST,
{
    proof {
        lemma_sq_dist_bound(point1, point2);
    }
    let dx: i128 = point1.0 as i128 - point2.0 as i128;
    let dy: i128 = point1.1 as i128 - point2.1 as i128;
    let m: i128 = 2 * MAX_COORD as i128;
    assert(dx * dx <= m * m) by (nonlinear_arith)
        requires -m <= dx <= m;
    assert(dy * dy <= m * m) by (nonlinear_arith)
        requires -m <= dy <= m;
    assert(0 <= dx * dx && 0 <= dy * dy) by (nonlinear_arith);
    let s: i128 = dx * dx + dy * dy;
    floor_sqrt(s as u128)
}

} // verus!
