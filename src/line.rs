use vstd::prelude::*;
use bracket_geometry::prelude::Bresenham;

verus! {

/// A point of the grid plane.
#[derive(Clone, Copy, Debug, PartialEq, Eq, Structural)]
pub struct Point {
    pub x: i32,
    pub y: i32,
}

impl Point {
    pub fn new(x: i32, y: i32) -> (r: Point)
        ensures
            r.x == x,
            r.y == y,
    {
        Point { x, y }
    }
}

/// The cells that the line tracer yields from `(x0, y0)` towards `(x1, y1)`.
pub uninterp spec fn line_cells(x0: i32, y0: i32, x1: i32, y1: i32) -> Seq<(i32, i32)>;

pub open spec fn sign(d: int) -> int {
    if d > 0 {
        1
    } else if d < 0 {
        -1
    } else {
        0
    }
}

pub open spec fn abs(d: int) -> int {
    if d < 0 {
        -d
    } else {
        d
    }
}

/// Number of unit steps on the longer axis between two points.
pub open spec fn chebyshev(x0: int, y0: int, x1: int, y1: int) -> int {
    if abs(x1 - x0) >= abs(y1 - y0) {
        abs(x1 - x0)
    } else {
        abs(y1 - y0)
    }
}

/// The cells from `(x0, y0)` in the direction of `(x1, y1)`, one unit step at a
/// time, `(x0, y0)` included and `(x1, y1)` left out. Meant for two points on
/// one row or one column.
pub open spec fn straight_run(x0: i32, y0: i32, x1: i32, y1: i32) -> Seq<(i32, i32)> {
    Seq::new(
        chebyshev(x0 as int, y0 as int, x1 as int, y1 as int) as nat,
        |i: int|
            (
                (x0 + i * sign(x1 - x0)) as i32,
                (y0 + i * sign(y1 - y0)) as i32,
            ),
    )
}

/// `b` is one of the eight neighbours of `a`.
pub open spec fn unit_step(a: (i32, i32), b: (i32, i32)) -> bool {
    -1 <= b.0 - a.0 <= 1 && -1 <= b.1 - a.1 <= 1 && !(a.0 == b.0 && a.1 == b.1)
}

/// Relies on bracket_geometry's `Bresenham` iterator: it yields one cell per
/// unit of the longer axis, starting at the start point (the end point is not
/// yielded), each cell a neighbour of the one before; on one row or column it
/// walks straight along it.
#[verifier::external_body]
fn bresenham(x0: i32, y0: i32, x1: i32, y1: i32) -> (r: Vec<(i32, i32)>)
    requires
        0 <= x0,
        0 <= y0,
        0 <= x1,
        0 <= y1,
    ensures
        r@ == line_cells(x0, y0, x1, y1),
        r@.len() == chebyshev(x0 as int, y0 as int, x1 as int, y1 as int),
        r@.len() > 0 ==> r@[0] == (x0, y0),
        forall|i: int| 0 <= i < r@.len() - 1 ==> unit_step(#[trigger] r@[i], r@[i + 1]),
        x0 == x1 || y0 == y1 ==> r@ == straight_run(x0, y0, x1, y1),
{
    let start = bracket_geometry::prelude::Point::new(x0, y0);
    let end = bracket_geometry::prelude::Point::new(x1, y1);
    Bresenham::new(start, end).map(|p| (p.x, p.y)).collect()
}

/// The cells of the line from `start` to `end`, `start` included and `end` left
/// out, in order. Along a row or a column the run is straight; otherwise every
/// cell is a neighbour of the one before.
pub fn trace_line(start: Point, end: Point) -> (r: Vec<(i32, i32)>)
    requires
        0 <= start.x,
        0 <= start.y,
        0 <= end.x,
        0 <= end.y,
    ensures
        r@ == line_cells(start.x, start.y, end.x, end.y),
        r@.len() == chebyshev(start.x as int, start.y as int, end.x as int, end.y as int),
        r@.len() > 0 ==> r@[0] == (start.x, start.y),
        forall|i: int| 0 <= i < r@.len() - 1 ==> unit_step(#[trigger] r@[i], r@[i + 1]),
        start.x == end.x || start.y == end.y ==> r@ == straight_run(
            start.x,
            start.y,
            end.x,
            end.y,
        ),
{
    bresenham(start.x, start.y, end.x, end.y)
}

/// Multiplying by the sign of `d` keeps, negates or cancels `k`.
pub(crate) proof fn lemma_scaled_sign(k: int, d: int)
    ensures
        k * sign(d) == if d > 0 {
            k
        } else if d < 0 {
            -k
        } else {
            0
        },
{
    if d > 0 {
        assert(sign(d) == 1);
    } else if d < 0 {
        assert(sign(d) == -1);
    } else {
        assert(sign(d) == 0);
    }
}

/// `b` is one cell away from `a` along a row or a column.
pub open spec fn axis_step(a: (i32, i32), b: (i32, i32)) -> bool {
    abs(b.0 - a.0) + abs(b.1 - a.1) == 1
}

/// Along a row or a column, each cell of a straight run is one axis step from
/// the one before, and its last cell is one axis step from the far end.
proof fn lemma_run_steps(x0: i32, y0: i32, x1: i32, y1: i32)
    requires
        x0 == x1 || y0 == y1,
    ensures
        forall|k: int|
            0 <= k < straight_run(x0, y0, x1, y1).len() - 1 ==> axis_step(
                #[trigger] straight_run(x0, y0, x1, y1)[k],
                straight_run(x0, y0, x1, y1)[k + 1],
            ),
        straight_run(x0, y0, x1, y1).len() > 0 ==> axis_step(
            straight_run(x0, y0, x1, y1).last(),
            (x1, y1),
        ),
{
    let s = straight_run(x0, y0, x1, y1);
    let dx = x1 - x0;
    let dy = y1 - y0;
    assert forall|k: int| 0 <= k < s.len() - 1 implies axis_step(#[trigger] s[k], s[k + 1]) by {
        lemma_scaled_sign(k, dx as int);
        lemma_scaled_sign(k, dy as int);
        lemma_scaled_sign(k + 1, dx as int);
        lemma_scaled_sign(k + 1, dy as int);
    }
    if s.len() > 0 {
        let k = s.len() - 1;
        lemma_scaled_sign(k, dx as int);
        lemma_scaled_sign(k, dy as int);
    }
}

/// Each cell of an L-shaped corridor is one axis step from the one before.
pub proof fn lemma_corridor_steps(start: Point, end: Point, horizontal_first: bool)
    ensures
        forall|k: int|
            0 <= k < corridor_cells(start, end, horizontal_first).len() - 1 ==> axis_step(
                #[trigger] corridor_cells(start, end, horizontal_first)[k],
                corridor_cells(start, end, horizontal_first)[k + 1],
            ),
{
    let c = corner_of(start, end, horizontal_first);
    let s1 = straight_run(start.x, start.y, c.x, c.y);
    let s2 = straight_run(c.x, c.y, end.x, end.y);
    let p = corridor_cells(start, end, horizontal_first);
    lemma_run_steps(start.x, start.y, c.x, c.y);
    lemma_run_steps(c.x, c.y, end.x, end.y);
    lemma_scaled_sign(0, c.x - start.x);
    lemma_scaled_sign(0, c.y - start.y);
    lemma_scaled_sign(0, end.x - c.x);
    lemma_scaled_sign(0, end.y - c.y);
    assert forall|k: int| 0 <= k < p.len() - 1 implies axis_step(#[trigger] p[k], p[k + 1]) by {
        if k < s1.len() - 1 {
            assert(p[k] == s1[k] && p[k + 1] == s1[k + 1]);
        } else if k == s1.len() - 1 {
            assert(p[k] == s1.last());
            if s2.len() > 0 {
                assert(p[k + 1] == s2[0]);
            } else {
                assert(p[k + 1] == (end.x, end.y));
            }
        } else if k < s1.len() + s2.len() - 1 {
            assert(p[k] == s2[k - s1.len()] && p[k + 1] == s2[k - s1.len() + 1]);
        } else {
            assert(p[k] == s2.last());
            assert(p[k + 1] == (end.x, end.y));
        }
    }
}

/// Where an L-shaped corridor from `start` to `end` turns: along the row of
/// `start` first when `horizontal_first`, along its column first otherwise.
pub open spec fn corner_of(start: Point, end: Point, horizontal_first: bool) -> Point {
    if horizontal_first {
        Point { x: end.x, y: start.y }
    } else {
        Point { x: start.x, y: end.y }
    }
}

/// The cells of the L-shaped corridor: the straight run from `start` to the
/// corner, then the one from the corner to `end`, then `end` itself. The
/// corner appears once, and both ends are on the corridor.
pub open spec fn corridor_cells(start: Point, end: Point, horizontal_first: bool) -> Seq<(i32, i32)> {
    let c = corner_of(start, end, horizontal_first);
    straight_run(start.x, start.y, c.x, c.y) + straight_run(c.x, c.y, end.x, end.y) + seq![
        (end.x, end.y),
    ]
}

/// Traces the corridor from `start` to `end`, both included, that turns at
/// `corner_of(start, end, horizontal_first)`.
pub fn tunnel_with_corner(start: Point, end: Point, horizontal_first: bool) -> (r: Vec<(i32, i32)>)
    requires
        0 <= start.x,
        0 <= start.y,
        0 <= end.x,
        0 <= end.y,
    ensures
        r@ == corridor_cells(start, end, horizontal_first),
        r@.len() > 0,
        r@[0] == (start.x, start.y),
        r@.last() == (end.x, end.y),
        forall|k: int| 0 <= k < r@.len() - 1 ==> axis_step(#[trigger] r@[k], r@[k + 1]),
{
    let corner = if horizontal_first {
        Point::new(end.x, start.y)
    } else {
        Point::new(start.x, end.y)
    };
    let mut first = trace_line(start, corner);
    let mut second = trace_line(corner, end);
    first.append(&mut second);
    first.push((end.x, end.y));
    proof {
        lemma_corridor_steps(start, end, horizontal_first);
        let c = corner_of(start, end, horizontal_first);
        let s1 = straight_run(start.x, start.y, c.x, c.y);
        let s2 = straight_run(c.x, c.y, end.x, end.y);
        lemma_scaled_sign(0, c.x - start.x);
        lemma_scaled_sign(0, c.y - start.y);
        lemma_scaled_sign(0, end.x - c.x);
        lemma_scaled_sign(0, end.y - c.y);
        if s1.len() > 0 {
            assert(first@[0] == s1[0]);
        } else if s2.len() > 0 {
            assert(first@[0] == s2[0]);
        }
    }
    first
}

} // verus!
