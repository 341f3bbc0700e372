use vstd::prelude::*;
use crate::point::Point;

verus! {

/// Twice the signed area of the triangle `a`, `b`, `c`.
pub open spec fn signed_area(a: Point, b: Point, c: Point) -> int {
    (c.y - a.y) * (b.x - a.x) - (b.y - a.y) * (c.x - a.x)
}

/// Whether `a`, `b`, `c` turn counter-clockwise or lie on one line.
pub open spec fn ccw(a: Point, b: Point, c: Point) -> bool {
    (c.y - a.y) * (b.x - a.x) >= (b.y - a.y) * (c.x - a.x)
}

/// Whether `point` lies in `triangle`, its rim included: the point lies on
/// one side of all three edges, or on some of them. Which side that is
/// depends on the order of the vertices, and does not matter.
pub open spec fn inside(point: Point, triangle: [Point; 3]) -> bool {
    let s0 = signed_area(point, triangle[0], triangle[1]);
    let s1 = signed_area(point, triangle[1], triangle[2]);
    let s2 = signed_area(point, triangle[2], triangle[0]);
    (s0 >= 0 && s1 >= 0 && s2 >= 0) || (s0 <= 0 && s1 <= 0 && s2 <= 0)
}

/// The turn that `a`, `b`, `c` take: 1 for counter-clockwise, -1 for
/// clockwise, 0 for points on one line.
pub open spec fn turn(a: Point, b: Point, c: Point) -> int {
    if signed_area(a, b, c) > 0 {
        1
    } else if signed_area(a, b, c) < 0 {
        -1
    } else {
        0
    }
}

/// The triangle with its vertices in the opposite order.
pub open spec fn reversed(triangle: [Point; 3]) -> [Point; 3] {
    [triangle[2], triangle[1], triangle[0]]
}

/// The difference of two coordinates.
pub(crate) fn span(to: i32, from: i32) -> (r: i64)
    ensures
        r == to - from,
        -0x1_0000_0000 < r < 0x1_0000_0000,
{
    (to as i64) - (from as i64)
}

/// The product of two coordinate differences.
pub(crate) fn span_product(a: i64, b: i64) -> (r: i128)
    requires
        -0x1_0000_0000 < a < 0x1_0000_0000,
        -0x1_0000_0000 < b < 0x1_0000_0000,
    ensures
        r == a * b,
        -0x1_0000_0000_0000_0000 < r < 0x1_0000_0000_0000_0000,
{
    assert(-0x1_0000_0000_0000_0000 < a * b < 0x1_0000_0000_0000_0000) by (nonlinear_arith)
        requires
            -0x1_0000_0000 < a < 0x1_0000_0000,
            -0x1_0000_0000 < b < 0x1_0000_0000,
    ;
    (a as i128) * (b as i128)
}

/// Decides whether `a`, `b`, `c` turn counter-clockwise. Points on one
/// line count as counter-clockwise.
pub fn is_ccw(a: &Point, b: &Point, c: &Point) -> (r: bool)
    ensures
        r == ccw(*a, *b, *c),
{
    let left: i128 = span_product(span(c.y, a.y), span(b.x, a.x));
    let right: i128 = span_product(span(b.y, a.y), span(c.x, a.x));
    left >= right
}

/// Decides which turn `a`, `b`, `c` take.
pub fn turn_of(a: &Point, b: &Point, c: &Point) -> (r: i8)
    ensures
        r == turn(*a, *b, *c),
{
    let left: i128 = span_product(span(c.y, a.y), span(b.x, a.x));
    let right: i128 = span_product(span(b.y, a.y), span(c.x, a.x));
    if left > right {
        1
    } else if left < right {
        -1
    } else {
        0
    }
}

/// Decides whether `point` lies in `triangle`: it counts the edges that
/// the point does not lie to the right of, and those that it does not lie
/// to the left of, and accepts the point when either count reaches all
/// three edges. A point on an edge or at a vertex counts for both, so the
/// rim belongs to the triangle in whichever order its vertices are given.
pub fn is_point_in_triangle(point: &Point, triangle: &[Point; 3]) -> (r: bool)
    ensures
        r == inside(*point, *triangle),
{
    let mut ccw_count: u8 = 0;
    let mut cw_count: u8 = 0;
    let mut i: usize = 0;
    while i < 3
        invariant
            i <= 3,
            ccw_count <= i,
            cw_count <= i,
            ccw_count == (if i >= 1 && turn(*point, triangle[0], triangle[1]) >= 0 { 1int } else { 0 })
                + (if i >= 2 && turn(*point, triangle[1], triangle[2]) >= 0 { 1int } else { 0 })
                + (if i >= 3 && turn(*point, triangle[2], triangle[0]) >= 0 { 1int } else { 0 }),
            cw_count == (if i >= 1 && turn(*point, triangle[0], triangle[1]) <= 0 { 1int } else { 0 })
                + (if i >= 2 && turn(*point, triangle[1], triangle[2]) <= 0 { 1int } else { 0 })
                + (if i >= 3 && turn(*point, triangle[2], triangle[0]) <= 0 { 1int } else { 0 }),
        decreases 3 - i,
    {
        let i2: usize = (i + 1) % 3;
        let side: i8 = turn_of(point, &triangle[i], &triangle[i2]);
        if side >= 0 {
            ccw_count += 1;
        }
        if side <= 0 {
            cw_count += 1;
        }
        i += 1;
    }
    ccw_count == 3 || cw_count == 3
}

/// The point-in-triangle test does not depend on the order in which the
/// vertices of the triangle are given.
pub proof fn lemma_winding_independent(point: Point, triangle: [Point; 3])
    ensures
        inside(point, reversed(triangle)) == inside(point, triangle),
{
    let a = triangle[0];
    let b = triangle[1];
    let c = triangle[2];
    let r = reversed(triangle);
    assert(r[0] == c && r[1] == b && r[2] == a);
    assert(signed_area(point, c, b) == -signed_area(point, b, c)) by (nonlinear_arith);
    assert(signed_area(point, b, a) == -signed_area(point, a, b)) by (nonlinear_arith);
    assert(signed_area(point, a, c) == -signed_area(point, c, a)) by (nonlinear_arith);
}

/// Every vertex of every triangle passes the point-in-triangle test, and
/// so does every point that stands where a vertex stands.
pub proof fn lemma_vertices_inside(point: Point, triangle: [Point; 3])
    ensures
        inside(triangle[0], triangle),
        inside(triangle[1], triangle),
        inside(triangle[2], triangle),
        (point.x == triangle[0].x && point.y == triangle[0].y) || (point.x == triangle[1].x
            && point.y == triangle[1].y) || (point.x == triangle[2].x && point.y == triangle[2].y)
            ==> inside(point, triangle),
{
    let a = triangle[0];
    let b = triangle[1];
    let c = triangle[2];
    assert(signed_area(b, c, a) == signed_area(a, b, c)) by (nonlinear_arith);
    assert(signed_area(c, a, b) == signed_area(a, b, c)) by (nonlinear_arith);
    assert(signed_area(a, a, b) == 0) by (nonlinear_arith);
    assert(signed_area(a, c, a) == 0) by (nonlinear_arith);
    assert(signed_area(b, a, b) == 0) by (nonlinear_arith);
    assert(signed_area(b, b, c) == 0) by (nonlinear_arith);
    assert(signed_area(c, b, c) == 0) by (nonlinear_arith);
    assert(signed_area(c, c, a) == 0) by (nonlinear_arith);
    if point.x == a.x && point.y == a.y {
        lemma_area_by_position(point, a, a, b, c);
    }
    if point.x == b.x && point.y == b.y {
        lemma_area_by_position(point, b, a, b, c);
    }
    if point.x == c.x && point.y == c.y {
        lemma_area_by_position(point, c, a, b, c);
    }
}

/// A point splits a triangle into three, one over each edge, whose signed
/// areas add up to the signed area of the triangle.
pub proof fn lemma_area_split(p: Point, a: Point, b: Point, c: Point)
    ensures
        signed_area(a, b, c) == signed_area(p, a, b) + signed_area(p, b, c) + signed_area(p, c, a),
{
    let ax = a.x - p.x;
    let ay = a.y - p.y;
    let bx = b.x - p.x;
    let by = b.y - p.y;
    let cx = c.x - p.x;
    let cy = c.y - p.y;
    assert(signed_area(p, a, b) == by * ax - ay * bx);
    assert(signed_area(p, b, c) == cy * bx - by * cx);
    assert(signed_area(p, c, a) == ay * cx - cy * ax);
    assert(c.y - a.y == cy - ay && b.x - a.x == bx - ax && b.y - a.y == by - ay && c.x - a.x == cx
        - ax);
    assert(signed_area(a, b, c) == (cy - ay) * (bx - ax) - (by - ay) * (cx - ax));
    assert((cy - ay) * (bx - ax) - (by - ay) * (cx - ax) == (by * ax - ay * bx) + (cy * bx - by * cx)
        + (ay * cx - cy * ax)) by (nonlinear_arith);
}

/// The signed areas that a point spans with the edges of a triangle depend
/// on the position of the point alone, not on its colour.
proof fn lemma_area_by_position(p: Point, q: Point, a: Point, b: Point, c: Point)
    requires
        p.x == q.x,
        p.y == q.y,
    ensures
        signed_area(p, a, b) == signed_area(q, a, b),
        signed_area(p, b, c) == signed_area(q, b, c),
        signed_area(p, c, a) == signed_area(q, c, a),
{
}

} // verus!
