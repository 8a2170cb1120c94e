//! Points on an integer grid and the whole-unit Euclidean distance between
//! them.
//!
//! Coordinates are whole numbers of grid units. A caller that measures in
//! fractions of a unit picks a finer grid and scales its coordinates up before
//! handing them over. The distance between two points is the Euclidean
//! distance rounded down to a whole unit.

use vstd::prelude::*;

verus! {

/// A point to visit. `id` is a label chosen by the caller; the solver never
/// reads it and refers to nodes by their position in the node sequence.
#[derive(Clone, Copy, Debug)]
pub struct Node {
    pub id: usize,
    pub x: i32,
    pub y: i32,
}

/// `r` is the square root of `v`, rounded down.
pub open spec fn is_isqrt(v: nat, r: nat) -> bool {
    r * r <= v < (r + 1) * (r + 1)
}

/// The square root of `v`, rounded down.
pub open spec fn isqrt(v: nat) -> nat {
    choose|r: nat| is_isqrt(v, r)
}

/// The square of the Euclidean distance between `a` and `b`.
pub open spec fn squared_distance(a: Node, b: Node) -> nat {
    ((a.x - b.x) * (a.x - b.x) + (a.y - b.y) * (a.y - b.y)) as nat
}

/// The Euclidean distance between `a` and `b`, rounded down to a whole unit.
pub open spec fn distance(a: Node, b: Node) -> nat {
    isqrt(squared_distance(a, b))
}

/// At most one number is the rounded-down square root of `v`.
pub proof fn lemma_isqrt_unique(v: nat, r1: nat, r2: nat)
    requires
        is_isqrt(v, r1),
        is_isqrt(v, r2),
    ensures
        r1 == r2,
{
    if r1 < r2 {
        assert((r1 + 1) * (r1 + 1) <= r2 * r2) by (nonlinear_arith)
            requires
                r1 + 1 <= r2,
        ;
    } else if r2 < r1 {
        assert((r2 + 1) * (r2 + 1) <= r1 * r1) by (nonlinear_arith)
            requires
                r2 + 1 <= r1,
        ;
    }
}

/// The square root of zero is zero.
pub proof fn lemma_isqrt_zero()
    ensures
        is_isqrt(0, 0),
        isqrt(0) == 0,
{
    let zero: nat = 0;
    assert(zero * zero == 0 && (zero + 1) * (zero + 1) == 1) by (nonlinear_arith)
        requires
            zero == 0,
    ;
    assert(is_isqrt(0, zero));
    lemma_isqrt_is(0, zero);
}

/// Every number has a rounded-down square root, and `isqrt` names it.
pub proof fn lemma_isqrt_exists(v: nat)
    ensures
        is_isqrt(v, isqrt(v)),
    decreases v,
{
    if v == 0 {
        lemma_isqrt_zero();
    } else {
        lemma_isqrt_exists((v - 1) as nat);
        let r = isqrt((v - 1) as nat);
        if (r + 1) * (r + 1) <= v {
            assert((r + 2) * (r + 2) > (r + 1) * (r + 1)) by (nonlinear_arith);
            assert(is_isqrt(v, r + 1));
        } else {
            assert(is_isqrt(v, r));
        }
    }
}

/// A number that satisfies the defining inequalities is the square root.
pub proof fn lemma_isqrt_is(v: nat, r: nat)
    requires
        is_isqrt(v, r),
    ensures
        isqrt(v) == r,
{
    lemma_isqrt_unique(v, r, isqrt(v));
}

/// The distance does not depend on the direction of travel.
pub proof fn lemma_distance_symmetric(a: Node, b: Node)
    ensures
        distance(a, b) == distance(b, a),
{
    assert(squared_distance(a, b) == squared_distance(b, a)) by (nonlinear_arith);
}

/// Two nodes at the same place are at distance zero; in particular every node
/// is at distance zero from itself.
pub proof fn lemma_distance_zero(a: Node, b: Node)
    requires
        a.x == b.x,
        a.y == b.y,
    ensures
        distance(a, b) == 0,
{
    assert(squared_distance(a, b) == 0) by (nonlinear_arith)
        requires
            a.x == b.x,
            a.y == b.y,
    ;
    lemma_isqrt_zero();
}

/// Computes the square root of `v`, rounded down, by bisection.
pub fn integer_sqrt(v: u128) -> (r: u64)
    ensures
        r == isqrt(v as nat),
        is_isqrt(v as nat, r as nat),
{
    let mut low: u128 = 0;
    let mut high: u128 = 0x1_0000_0000_0000_0000;
    while high - low > 1
        invariant
            low < high <= 0x1_0000_0000_0000_0000,
            low * low <= v,
            v < high * high,
        decreases high - low,
    {
        let mid: u128 = low + (high - low) / 2;
        assert(mid * mid <= 0xffff_ffff_ffff_ffff * 0xffff_ffff_ffff_ffff) by (nonlinear_arith)
            requires
                0 <= mid <= 0xffff_ffff_ffff_ffff,
        ;
        if mid * mid <= v {
            low = mid;
        } else {
            high = mid;
        }
    }
    proof {
        lemma_isqrt_is(v as nat, low as nat);
    }
    low as u64
}

/// The distance between two coordinates on one axis.
fn axis_gap(p: i32, q: i32) -> (gap: u64)
    ensures
        gap == if p >= q { p - q } else { q - p },
        gap <= 0xffff_ffff,
{
    if p >= q {
        (p as i64 - q as i64) as u64
    } else {
        (q as i64 - p as i64) as u64
    }
}

/// Computes the Euclidean distance between `a` and `b`, rounded down to a
/// whole unit.
pub fn calc_distance(a: &Node, b: &Node) -> (d: u64)
    ensures
        d == distance(*a, *b),
        is_isqrt(squared_distance(*a, *b), d as nat),
{
    let dx: u128 = axis_gap(a.x, b.x) as u128;
    let dy: u128 = axis_gap(a.y, b.y) as u128;
    assert(dx * dx <= 0xffff_ffff * 0xffff_ffff && dx * dx == (a.x - b.x) * (a.x - b.x))
        by (nonlinear_arith)
        requires
            0 <= dx <= 0xffff_ffff,
            dx == a.x - b.x || dx == b.x - a.x,
    ;
    assert(dy * dy <= 0xffff_ffff * 0xffff_ffff && dy * dy == (a.y - b.y) * (a.y - b.y))
        by (nonlinear_arith)
        requires
            0 <= dy <= 0xffff_ffff,
            dy == a.y - b.y || dy == b.y - a.y,
    ;
    integer_sqrt(dx * dx + dy * dy)
}

} // verus!
