use vstd::prelude::*;

use crate::constants::LIGHTSPEED;

verus! {

/// A cell of the integer plane.
#[derive(Clone, Copy, Debug, PartialEq, Eq, Structural)]
pub struct Point {
    pub x: i32,
    pub y: i32,
}

impl Point {
    pub fn new(x: i32, y: i32) -> (r: Point)
        ensures
            r == (Point { x, y }),
    {
        Point { x, y }
    }

    pub open spec fn zero_spec() -> Point {
        Point { x: 0, y: 0 }
    }

    pub fn zero() -> (r: Point)
        ensures
            r == Self::zero_spec(),
    {
        Point { x: 0, y: 0 }
    }
}

/// The square of the Euclidean distance between two points.
pub open spec fn dist_sq(a: Point, b: Point) -> int {
    (a.x - b.x) * (a.x - b.x) + (a.y - b.y) * (a.y - b.y)
}

/// A point `d2` squared units away lies within `range` (compared as real distances).
pub open spec fn within(d2: int, range: int) -> bool {
    d2 <= range * range
}

/// `t` is the number of whole turns light needs to cross a distance whose square is `d2`,
/// that is `t == floor(sqrt(d2) / LIGHTSPEED)`.
pub open spec fn is_travel(d2: int, t: int) -> bool {
    &&& 0 <= t
    &&& (t * LIGHTSPEED) * (t * LIGHTSPEED) <= d2
    &&& d2 < ((t + 1) * LIGHTSPEED) * ((t + 1) * LIGHTSPEED)
}

/// Squared distance between two points, exactly.
pub fn distance_sq(a: Point, b: Point) -> (r: u128)
    ensures
        r as int == dist_sq(a, b),
{
    let dx: i128 = a.x as i128 - b.x as i128;
    let dy: i128 = a.y as i128 - b.y as i128;
    assert(dx * dx <= 0x1_0000_0000_0000_0000) by (nonlinear_arith)
        requires -0x1_0000_0000 <= dx <= 0x1_0000_0000;
    assert(dy * dy <= 0x1_0000_0000_0000_0000) by (nonlinear_arith)
        requires -0x1_0000_0000 <= dy <= 0x1_0000_0000;
    assert(0 <= dx * dx && 0 <= dy * dy) by (nonlinear_arith);
    let s: i128 = dx * dx + dy * dy;
    s as u128
}

/// Whether a distance with square `d2` is at most `range`.
pub fn in_range(d2: u128, range: u32) -> (r: bool)
    ensures
        r == within(d2 as int, range as int),
{
    assert(range as int * range as int <= 0xffff_ffff * 0xffff_ffff) by (nonlinear_arith)
        requires range <= 0xffff_ffff;
    let r2: u128 = range as u128 * range as u128;
    d2 <= r2
}

/// Whole turns that light takes to cross a distance whose square is `d2`.
pub fn light_turns(d2: u128) -> (t: u64)
    requires
        d2 < 0x1_0000_0000_0000_0000,
    ensures
        is_travel(d2 as int, t as int),
{
    let l: u128 = LIGHTSPEED as u128;
    let mut lo: u128 = 0;
    let mut hi: u128 = 0x2000_0000;
    assert((hi * l) * (hi * l) > 0x1_0000_0000_0000_0000) by (nonlinear_arith)
        requires hi == 0x2000_0000, l == 10;
    assert((lo * l) * (lo * l) == 0) by (nonlinear_arith)
        requires lo == 0;
    while hi - lo > 1
        invariant
            l == LIGHTSPEED,
            lo < hi <= 0x2000_0000,
            (lo * l) * (lo * l) <= d2,
            d2 < (hi * l) * (hi * l),
        decreases hi - lo,
    {
        let mid: u128 = lo + (hi - lo) / 2;
        assert((mid * l) * (mid * l) <= 0x2000_0000 * 10 * 0x2000_0000 * 10) by (nonlinear_arith)
            requires mid <= 0x2000_0000, l == 10;
        let m: u128 = mid * l;
        if m * m <= d2 {
            lo = mid;
        } else {
            hi = mid;
        }
    }
    assert(hi == lo + 1);
    lo as u64
}

/// Two counts of travel turns for one distance agree.
pub proof fn lemma_travel_unique(d2: int, t1: int, t2: int)
    requires
        is_travel(d2, t1),
        is_travel(d2, t2),
    ensures
        t1 == t2,
{
    if t1 < t2 {
        lemma_square_mono((t1 + 1) * LIGHTSPEED, t2 * LIGHTSPEED);
    } else if t2 < t1 {
        lemma_square_mono((t2 + 1) * LIGHTSPEED, t1 * LIGHTSPEED);
    }
}

proof fn lemma_square_mono(a: int, b: int)
    requires
        0 <= a <= b,
    ensures
        a * a <= b * b,
{
    assert(a * a <= b * b) by (nonlinear_arith)
        requires 0 <= a <= b;
}

} // verus!
