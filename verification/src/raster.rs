//! Shape rasterization: converting a geometric primitive into an ordered
//! sequence of grid coordinates. The line and circle walks are done by the
//! `line_drawing` crate behind trusted wrappers; the radius-0 circle case and
//! everything downstream is verified code.

use vstd::prelude::*;
use vstd::math::abs;
use vstd::math::max;

verus! {

/// Bound on rasterizer inputs, so that the arithmetic inside `line_drawing`
/// stays far from `i32` overflow.
pub const RASTER_COORD_LIMIT: i32 = 1000000;

/// The coordinate sequence that Bresenham's line algorithm walks from `p1` to
/// `p2`, as produced by `line_drawing::Bresenham`.
pub uninterp spec fn line_points(p1: (i32, i32), p2: (i32, i32)) -> Seq<(i32, i32)>;

/// The coordinate sequence that Bresenham's circle algorithm produces around
/// `(cx, cy)` with radius `radius >= 1`, as produced by
/// `line_drawing::BresenhamCircle`: four quadrant points per generated offset.
pub uninterp spec fn circle_points(cx: i32, cy: i32, radius: i32) -> Seq<(i32, i32)>;

/// The point set `s` is closed under quarter-turn rotation about `c`: for
/// every point, its 90-degree rotation about `c` is also present.
pub open spec fn rotation_closed(s: Seq<(i32, i32)>, c: (i32, i32)) -> bool {
    forall|k: int|
        0 <= k < s.len() ==> exists|m: int|
            0 <= m < s.len() && (#[trigger] s[m]).0 == c.0 - ((#[trigger] s[k]).1 - c.1) && s[m].1
                == c.1 + (s[k].0 - c.0)
}

/// The larger of the two coordinate distances between `p1` and `p2`.
pub open spec fn chebyshev(p1: (i32, i32), p2: (i32, i32)) -> int {
    max(abs(p2.0 - p1.0) as int, abs(p2.1 - p1.1) as int)
}

/// Relies on `line_drawing::Bresenham`: it yields both endpoints, steps once
/// per unit along the dominant axis, and each step moves at most one unit in
/// each axis (an 8-connected, gap-free walk).
#[verifier::external_body]
fn bresenham_line(p1: (i32, i32), p2: (i32, i32)) -> (r: Vec<(i32, i32)>)
    requires
        -RASTER_COORD_LIMIT <= p1.0 <= RASTER_COORD_LIMIT,
        -RASTER_COORD_LIMIT <= p1.1 <= RASTER_COORD_LIMIT,
        -RASTER_COORD_LIMIT <= p2.0 <= RASTER_COORD_LIMIT,
        -RASTER_COORD_LIMIT <= p2.1 <= RASTER_COORD_LIMIT,
    ensures
        r@ == line_points(p1, p2),
        r@.len() == chebyshev(p1, p2) + 1,
        r@[0] == p1,
        r@[r@.len() - 1] == p2,
        forall|k: int|
            0 <= k < r@.len() - 1 ==> -1 <= #[trigger] (r@[k + 1].0 - r@[k].0) <= 1 && -1 <= r@[k
                + 1].1 - r@[k].1 <= 1,
{
    let mut result: Vec<(i32, i32)> = Vec::new();
    for (x, y) in line_drawing::Bresenham::new(p1, p2) {
        result.push((x, y));
    }
    result
}

/// Relies on `line_drawing::BresenhamCircle`: for each internal offset it
/// yields the four 90-degree rotations about the center, beginning with the
/// axis extremes, so the output set is closed under quarter-turn rotation.
#[verifier::external_body]
fn bresenham_circle(cx: i32, cy: i32, radius: i32) -> (r: Vec<(i32, i32)>)
    requires
        -RASTER_COORD_LIMIT <= cx <= RASTER_COORD_LIMIT,
        -RASTER_COORD_LIMIT <= cy <= RASTER_COORD_LIMIT,
        1 <= radius <= RASTER_COORD_LIMIT,
    ensures
        r@ == circle_points(cx, cy, radius),
        r@.len() >= 4,
        r@[0].0 == cx + radius && r@[0].1 == cy,
        r@[1].0 == cx && r@[1].1 == cy + radius,
        r@[2].0 == cx - radius && r@[2].1 == cy,
        r@[3].0 == cx && r@[3].1 == cy - radius,
        rotation_closed(r@, (cx, cy)),
{
    let mut result: Vec<(i32, i32)> = Vec::new();
    for (x, y) in line_drawing::BresenhamCircle::new(cx, cy, radius) {
        result.push((x, y));
    }
    result
}

/// The full rasterization of a circle: the single center point for radius 0,
/// else Bresenham's circle walk.
pub open spec fn circle_raster(origin: (i32, i32), radius: i32) -> Seq<(i32, i32)> {
    if radius == 0 {
        seq![origin]
    } else {
        circle_points(origin.0, origin.1, radius)
    }
}

/// Rasterizes the line segment from `p1` to `p2`: an 8-connected walk that
/// contains both endpoints and steps once per unit along the dominant axis.
pub fn create_line(p1: (i32, i32), p2: (i32, i32)) -> (r: Vec<(i32, i32)>)
    requires
        -RASTER_COORD_LIMIT <= p1.0 <= RASTER_COORD_LIMIT,
        -RASTER_COORD_LIMIT <= p1.1 <= RASTER_COORD_LIMIT,
        -RASTER_COORD_LIMIT <= p2.0 <= RASTER_COORD_LIMIT,
        -RASTER_COORD_LIMIT <= p2.1 <= RASTER_COORD_LIMIT,
    ensures
        r@ == line_points(p1, p2),
        r@.len() == chebyshev(p1, p2) + 1,
        r@[0] == p1,
        r@[r@.len() - 1] == p2,
        forall|k: int|
            0 <= k < r@.len() - 1 ==> -1 <= #[trigger] (r@[k + 1].0 - r@[k].0) <= 1 && -1 <= r@[k
                + 1].1 - r@[k].1 <= 1,
{
    bresenham_line(p1, p2)
}

/// Rasterizes the circle around `origin` with the given radius: radius 0
/// yields the origin alone, otherwise Bresenham's circle walk, whose point set
/// is closed under quarter-turn rotation about the origin and contains the
/// four axis extremes.
pub fn create_circle(origin: (i32, i32), radius: i32) -> (r: Vec<(i32, i32)>)
    requires
        -RASTER_COORD_LIMIT <= origin.0 <= RASTER_COORD_LIMIT,
        -RASTER_COORD_LIMIT <= origin.1 <= RASTER_COORD_LIMIT,
        0 <= radius <= RASTER_COORD_LIMIT,
    ensures
        r@ == circle_raster(origin, radius),
        r@.len() >= 1,
        radius >= 1 ==> r@.len() >= 4 && r@[0].0 == origin.0 + radius && r@[0].1 == origin.1
            && r@[1].0 == origin.0 && r@[1].1 == origin.1 + radius && r@[2].0 == origin.0 - radius
            && r@[2].1 == origin.1 && r@[3].0 == origin.0 && r@[3].1 == origin.1 - radius,
        radius == 0 ==> r@ =~= seq![origin],
        radius >= 1 ==> rotation_closed(r@, origin),
{
    if radius == 0 {
        let mut v: Vec<(i32, i32)> = Vec::new();
        v.push(origin);
        proof {
            assert(v@ =~= seq![origin]);
        }
        v
    } else {
        bresenham_circle(origin.0, origin.1, radius)
    }
}

} // verus!
