//! The checkpoint candidate pool: the built-in default locations used
//! when no saved pool loads, a copy helper, and the click hit test used
//! while editing the pool.

use vstd::prelude::*;
use crate::geom::{dist_sq, dist_sq_spec, point_ok, pool_wf, Point};

verus! {

/// The built-in candidate locations, used when no saved pool exists.
pub open spec fn default_pool_spec() -> Seq<Point> {
    seq![
        Point { x: 580, y: 352 },
        Point { x: 273, y: 1243 },
        Point { x: 340, y: 1484 },
        Point { x: 886, y: 308 },
        Point { x: 736, y: 747 },
        Point { x: 220, y: 681 },
        Point { x: 976, y: 600 },
        Point { x: 839, y: 1140 },
        Point { x: 640, y: 1495 },
        Point { x: 217, y: 1056 },
        Point { x: 388, y: 279 },
        Point { x: 693, y: 675 },
        Point { x: 875, y: 873 },
        Point { x: 600, y: 1007 },
        Point { x: 504, y: 968 },
        Point { x: 645, y: 780 },
        Point { x: 784, y: 460 },
        Point { x: 725, y: 1080 },
        Point { x: 703, y: 936 },
        Point { x: 69, y: 960 },
        Point { x: 882, y: 1274 },
        Point { x: 521, y: 150 },
        Point { x: 437, y: 823 },
        Point { x: 316, y: 804 },
        Point { x: 173, y: 834 },
        Point { x: 316, y: 974 },
        Point { x: 638, y: 1074 },
        Point { x: 368, y: 439 },
        Point { x: 519, y: 599 },
        Point { x: 887, y: 716 },
        Point { x: 509, y: 1190 },
        Point { x: 359, y: 1078 },
        Point { x: 537, y: 1488 },
        Point { x: 582, y: 1494 },
        Point { x: 357, y: 582 },
        Point { x: 946, y: 409 },
    ]
}

/// Build the default pool: 36 distinct in-bound map locations.
pub fn default_points() -> (r: Vec<Point>)
    ensures
        r@ == default_pool_spec(),
        r@.len() == 36,
        r@.no_duplicates(),
        pool_wf(r@),
{
    let mut v: Vec<Point> = Vec::new();
    v.push(Point { x: 580, y: 352 });
    v.push(Point { x: 273, y: 1243 });
    v.push(Point { x: 340, y: 1484 });
    v.push(Point { x: 886, y: 308 });
    v.push(Point { x: 736, y: 747 });
    v.push(Point { x: 220, y: 681 });
    v.push(Point { x: 976, y: 600 });
    v.push(Point { x: 839, y: 1140 });
    v.push(Point { x: 640, y: 1495 });
    v.push(Point { x: 217, y: 1056 });
    v.push(Point { x: 388, y: 279 });
    v.push(Point { x: 693, y: 675 });
    v.push(Point { x: 875, y: 873 });
    v.push(Point { x: 600, y: 1007 });
    v.push(Point { x: 504, y: 968 });
    v.push(Point { x: 645, y: 780 });
    v.push(Point { x: 784, y: 460 });
    v.push(Point { x: 725, y: 1080 });
    v.push(Point { x: 703, y: 936 });
    v.push(Point { x: 69, y: 960 });
    v.push(Point { x: 882, y: 1274 });
    v.push(Point { x: 521, y: 150 });
    v.push(Point { x: 437, y: 823 });
    v.push(Point { x: 316, y: 804 });
    v.push(Point { x: 173, y: 834 });
    v.push(Point { x: 316, y: 974 });
    v.push(Point { x: 638, y: 1074 });
    v.push(Point { x: 368, y: 439 });
    v.push(Point { x: 519, y: 599 });
    v.push(Point { x: 887, y: 716 });
    v.push(Point { x: 509, y: 1190 });
    v.push(Point { x: 359, y: 1078 });
    v.push(Point { x: 537, y: 1488 });
    v.push(Point { x: 582, y: 1494 });
    v.push(Point { x: 357, y: 582 });
    v.push(Point { x: 946, y: 409 });
    proof {
        assert(v@ =~= default_pool_spec());
    }
    v
}

/// An element-wise copy of a point vector.
pub fn clone_points(v: &Vec<Point>) -> (r: Vec<Point>)
    ensures
        r@ == v@,
{
    let mut out: Vec<Point> = Vec::new();
    let mut k: usize = 0;
    while k < v.len()
        invariant
            k <= v@.len(),
            out@ == v@.take(k as int),
        decreases v@.len() - k,
    {
        out.push(v[k]);
        proof {
            assert(v@.take(k + 1 as int) =~= v@.take(k as int).push(v@[k as int]));
        }
        k = k + 1;
    }
    proof {
        assert(v@.take(v@.len() as int) =~= v@);
    }
    out
}

/// The point lies strictly within the click radius of `pos` (squared
/// distances on both sides).
pub open spec fn within_radius(p: Point, pos: Point, radius_sq: int) -> bool {
    dist_sq_spec(p, pos) < radius_sq
}

/// The first point within the click radius of `pos`, by iteration order;
/// `None` exactly when no point is within it.
pub fn find_point_near(points: &Vec<Point>, pos: Point, radius_sq: i64) -> (r: Option<usize>)
    requires
        pool_wf(points@),
        point_ok(pos),
    ensures
        r matches Some(i) ==> i < points@.len() && within_radius(points@[i as int], pos, radius_sq as int)
            && forall|j: int| 0 <= j < i ==> !within_radius(#[trigger] points@[j], pos, radius_sq as int),
        r is None <==> forall|j: int|
            0 <= j < points@.len() ==> !within_radius(#[trigger] points@[j], pos, radius_sq as int),
{
    let mut k: usize = 0;
    while k < points.len()
        invariant
            k <= points@.len(),
            pool_wf(points@),
            point_ok(pos),
            forall|j: int| 0 <= j < k ==> !within_radius(#[trigger] points@[j], pos, radius_sq as int),
        decreases points@.len() - k,
    {
        let d = dist_sq(points[k], pos);
        if d < radius_sq {
            return Some(k);
        }
        k = k + 1;
    }
    None
}

} // verus!
