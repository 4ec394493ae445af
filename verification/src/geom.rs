//! Points in map-pixel space and the squared-distance test used for
//! click-near-a-point hit detection.

use vstd::prelude::*;

verus! {

/// Coordinates are kept within this bound so that squared distances fit
/// in an `i64`. Map images are a few thousand pixels wide, far below it.
pub const COORD_LIMIT: i64 = 1_000_000_000;

/// A location in map-pixel space. Equality is exact value equality.
#[derive(Clone, Copy, PartialEq, Eq, Structural, Debug)]
pub struct Point {
    pub x: i64,
    pub y: i64,
}

pub open spec fn coord_ok(v: int) -> bool {
    -COORD_LIMIT <= v <= COORD_LIMIT
}

pub open spec fn point_ok(p: Point) -> bool {
    coord_ok(p.x as int) && coord_ok(p.y as int)
}

/// Every point's coordinates are within the coordinate bound.
pub open spec fn pool_wf(ps: Seq<Point>) -> bool {
    forall|i: int| 0 <= i < ps.len() ==> point_ok(#[trigger] ps[i])
}

impl Point {
    pub fn new(x: i64, y: i64) -> (r: Point)
        ensures
            r == (Point { x, y }),
    {
        Point { x, y }
    }
}

pub open spec fn dist_sq_spec(a: Point, b: Point) -> int {
    (a.x - b.x) * (a.x - b.x) + (a.y - b.y) * (a.y - b.y)
}

/// Squared distance between two points. A test `distance < r` on real
/// distances is exactly `dist_sq < r * r` on squared ones.
pub fn dist_sq(a: Point, b: Point) -> (r: i64)
    requires
        point_ok(a),
        point_ok(b),
    ensures
        r == dist_sq_spec(a, b),
{
    let dx = a.x - b.x;
    let dy = a.y - b.y;
    proof {
        assert(dx * dx <= 4_000_000_000_000_000_000 && dx * dx >= 0) by (nonlinear_arith)
            requires
                -2_000_000_000 <= dx <= 2_000_000_000,
        {}
        assert(dy * dy <= 4_000_000_000_000_000_000 && dy * dy >= 0) by (nonlinear_arith)
            requires
                -2_000_000_000 <= dy <= 2_000_000_000,
        {}
    }
    dx * dx + dy * dy
}

} // verus!
