use vstd::prelude::*;
use vstd::arithmetic::div_mod::{lemma_div_is_ordered, lemma_div_multiples_vanish};
use crate::boundingbox::{max3, min3};
use crate::point::{Point, Rgba};
use crate::topology::{inside, lemma_area_split, signed_area, span, span_product};

verus! {

/// The mean of three channel values, rounded down.
pub open spec fn mean3(a: u8, b: u8, c: u8) -> u8 {
    ((a + b + c) / 3) as u8
}

/// The flat colour of a triangle: the mean of its vertex colours, channel
/// by channel, fully opaque.
pub open spec fn average_color(triangle: [Point; 3]) -> Rgba {
    Rgba {
        r: mean3(triangle[0].c.r, triangle[1].c.r, triangle[2].c.r),
        g: mean3(triangle[0].c.g, triangle[1].c.g, triangle[2].c.g),
        b: mean3(triangle[0].c.b, triangle[1].c.b, triangle[2].c.b),
        a: 255,
    }
}

/// The denominator that the three barycentric weights share: twice the
/// signed area of the triangle.
pub open spec fn weight_denominator(t: [Point; 3]) -> int {
    (t[1].y - t[2].y) * (t[0].x - t[2].x) + (t[2].x - t[1].x) * (t[0].y - t[2].y)
}

/// Numerator of the weight of the first vertex.
pub open spec fn weight_numerator_1(p: Point, t: [Point; 3]) -> int {
    (t[1].y - t[2].y) * (p.x - t[2].x) + (t[2].x - t[1].x) * (p.y - t[2].y)
}

/// Numerator of the weight of the second vertex.
pub open spec fn weight_numerator_2(p: Point, t: [Point; 3]) -> int {
    (t[2].y - t[0].y) * (p.x - t[2].x) + (t[0].x - t[2].x) * (p.y - t[2].y)
}

/// Numerator of the weight of the third vertex: what the other two leave.
pub open spec fn weight_numerator_3(p: Point, t: [Point; 3]) -> int {
    weight_denominator(t) - weight_numerator_1(p, t) - weight_numerator_2(p, t)
}

/// Barycentric weights as exact fractions: the weight of vertex `i` is
/// `w[i] / den`.
#[derive(Clone, Copy, Debug, PartialEq, Eq, Structural)]
pub struct Weights {
    pub w1: i128,
    pub w2: i128,
    pub w3: i128,
    pub den: i128,
}

impl Weights {
    /// Whether the numerators and the denominator are as small as
    /// differences of coordinates make them.
    pub open spec fn bounded(self) -> bool {
        &&& -0x8_0000_0000_0000_0000 < self.w1 < 0x8_0000_0000_0000_0000
        &&& -0x8_0000_0000_0000_0000 < self.w2 < 0x8_0000_0000_0000_0000
        &&& -0x8_0000_0000_0000_0000 < self.w3 < 0x8_0000_0000_0000_0000
        &&& -0x8_0000_0000_0000_0000 < self.den < 0x8_0000_0000_0000_0000
    }
}

/// The weights of `p` in `t`, for a triangle with an area.
pub open spec fn barycentric_weights(p: Point, t: [Point; 3]) -> Weights {
    Weights {
        w1: weight_numerator_1(p, t) as i128,
        w2: weight_numerator_2(p, t) as i128,
        w3: weight_numerator_3(p, t) as i128,
        den: weight_denominator(t) as i128,
    }
}

/// A weighted channel sum `num / den` cut down to a whole number (towards
/// zero) and held in the range of a channel.
pub open spec fn channel_of(num: int, den: int) -> u8 {
    let n = if den > 0 { num } else { -num };
    let d = if den > 0 { den } else { -den };
    if n <= 0 {
        0
    } else if n / d >= 255 {
        255
    } else {
        (n / d) as u8
    }
}

/// The weighted sum of one channel, times the weights' denominator.
pub open spec fn channel_sum(w: Weights, c1: u8, c2: u8, c3: u8) -> int {
    w.w1 * c1 + w.w2 * c2 + w.w3 * c3
}

/// The colour at `p` blended from the vertex colours by barycentric
/// weights, fully opaque. A triangle without area has no weights and takes
/// its flat colour.
pub open spec fn weighted_color(p: Point, t: [Point; 3]) -> Rgba {
    if weight_denominator(t) == 0 {
        average_color(t)
    } else {
        let w = barycentric_weights(p, t);
        Rgba {
            r: channel_of(channel_sum(w, t[0].c.r, t[1].c.r, t[2].c.r), w.den as int),
            g: channel_of(channel_sum(w, t[0].c.g, t[1].c.g, t[2].c.g), w.den as int),
            b: channel_of(channel_sum(w, t[0].c.b, t[1].c.b, t[2].c.b), w.den as int),
            a: 255,
        }
    }
}

/// The mean position of the three vertices, rounded down to whole
/// coordinate units, with the triangle's flat colour.
pub open spec fn centroid(t: [Point; 3]) -> Point {
    Point {
        x: ((t[0].x + t[1].x + t[2].x) / 3) as i32,
        y: ((t[0].y + t[1].y + t[2].y) / 3) as i32,
        c: average_color(t),
    }
}

fn mean_channel(a: u8, b: u8, c: u8) -> (m: u8)
    ensures
        m == mean3(a, b, c),
{
    let sum: u16 = a as u16 + b as u16 + c as u16;
    (sum / 3) as u8
}

/// Computes the flat colour of `triangle`.
pub fn interpolate_triangle_average_color(triangle: &[Point; 3]) -> (color: Rgba)
    ensures
        color == average_color(*triangle),
{
    Rgba {
        r: mean_channel(triangle[0].c.r, triangle[1].c.r, triangle[2].c.r),
        g: mean_channel(triangle[0].c.g, triangle[1].c.g, triangle[2].c.g),
        b: mean_channel(triangle[0].c.b, triangle[1].c.b, triangle[2].c.b),
        a: 255,
    }
}

/// Computes the barycentric weights of `p` in `triangle`, or `None` for a
/// triangle without area, which has none.
pub fn calc_barycentric_interpolation_weights(p: &Point, triangle: &[Point; 3]) -> (r: Option<
    Weights,
>)
    ensures
        r.is_none() <==> weight_denominator(*triangle) == 0,
        r.is_some() ==> r.unwrap() == barycentric_weights(*p, *triangle),
        r.is_some() ==> r.unwrap().w1 + r.unwrap().w2 + r.unwrap().w3 == r.unwrap().den,
        r.is_some() ==> {
            &&& r.unwrap().w1 == weight_numerator_1(*p, *triangle)
            &&& r.unwrap().w2 == weight_numerator_2(*p, *triangle)
            &&& r.unwrap().w3 == weight_numerator_3(*p, *triangle)
            &&& r.unwrap().den == weight_denominator(*triangle)
        },
        r.is_some() ==> r.unwrap().bounded(),
{
    let v1 = &triangle[0];
    let v2 = &triangle[1];
    let v3 = &triangle[2];
    let den: i128 = span_product(span(v2.y, v3.y), span(v1.x, v3.x)) + span_product(
        span(v3.x, v2.x),
        span(v1.y, v3.y),
    );
    if den == 0 {
        return None;
    }
    let w1: i128 = span_product(span(v2.y, v3.y), span(p.x, v3.x)) + span_product(
        span(v3.x, v2.x),
        span(p.y, v3.y),
    );
    let w2: i128 = span_product(span(v3.y, v1.y), span(p.x, v3.x)) + span_product(
        span(v1.x, v3.x),
        span(p.y, v3.y),
    );
    let w3: i128 = den - w1 - w2;
    Some(Weights { w1, w2, w3, den })
}

/// One weight times one channel value.
fn weigh(w: i128, c: u8) -> (r: i128)
    requires
        -0x8_0000_0000_0000_0000 < w < 0x8_0000_0000_0000_0000,
    ensures
        r == w * c,
        -0x800_0000_0000_0000_0000 < r < 0x800_0000_0000_0000_0000,
{
    assert(-0x800_0000_0000_0000_0000 < w * c < 0x800_0000_0000_0000_0000) by (nonlinear_arith)
        requires
            -0x8_0000_0000_0000_0000 < w < 0x8_0000_0000_0000_0000,
            0 <= c < 256,
    ;
    w * (c as i128)
}

fn blend_channel(w: &Weights, c1: u8, c2: u8, c3: u8) -> (r: u8)
    requires
        w.den != 0,
        w.bounded(),
    ensures
        r == channel_of(channel_sum(*w, c1, c2, c3), w.den as int),
{
    let sum: i128 = weigh(w.w1, c1) + weigh(w.w2, c2) + weigh(w.w3, c3);
    let n: i128 = if w.den > 0 { sum } else { -sum };
    let d: i128 = if w.den > 0 { w.den } else { -w.den };
    if n <= 0 {
        0
    } else {
        let q: i128 = n / d;
        if q >= 255 {
            255
        } else {
            q as u8
        }
    }
}

/// Computes the colour at `point` blended from the vertices of `triangle`
/// by barycentric weights; for a triangle without area, its flat colour.
pub fn interpolate_rgba_in_triangle(point: &Point, triangle: &[Point; 3]) -> (color: Rgba)
    ensures
        color == weighted_color(*point, *triangle),
{
    match calc_barycentric_interpolation_weights(point, triangle) {
        None => interpolate_triangle_average_color(triangle),
        Some(w) => {
            let c1 = triangle[0].c;
            let c2 = triangle[1].c;
            let c3 = triangle[2].c;
            Rgba {
                r: blend_channel(&w, c1.r, c2.r, c3.r),
                g: blend_channel(&w, c1.g, c2.g, c3.g),
                b: blend_channel(&w, c1.b, c2.b, c3.b),
                a: 255,
            }
        },
    }
}

/// A third of `sum`, rounded down.
fn third(sum: i64) -> (r: i64)
    requires
        -0x2_0000_0000 < sum < 0x2_0000_0000,
    ensures
        r == sum / 3,
{
    if sum >= 0 {
        sum / 3
    } else {
        -((2 - sum) / 3)
    }
}

/// Computes the centroid of `triangle`: the point that refinement proposes
/// as a new vertex.
pub fn interpolate_triangle_centroid(triangle: &[Point; 3]) -> (p: Point)
    ensures
        p == centroid(*triangle),
{
    let sx: i64 = triangle[0].x as i64 + triangle[1].x as i64 + triangle[2].x as i64;
    let sy: i64 = triangle[0].y as i64 + triangle[1].y as i64 + triangle[2].y as i64;
    Point { x: third(sx) as i32, y: third(sy) as i32, c: interpolate_triangle_average_color(triangle) }
}

/// The three barycentric weights of any point add up to one: their
/// numerators add up to the denominator.
pub proof fn lemma_weights_sum_to_one(p: Point, t: [Point; 3])
    ensures
        weight_numerator_1(p, t) + weight_numerator_2(p, t) + weight_numerator_3(p, t)
            == weight_denominator(t),
{
}

/// At the position of a vertex, that vertex has weight one and the other
/// two have weight zero.
pub proof fn lemma_weights_at_vertices(p: Point, t: [Point; 3])
    ensures
        p.x == t[0].x && p.y == t[0].y ==> {
            &&& weight_numerator_1(p, t) == weight_denominator(t)
            &&& weight_numerator_2(p, t) == 0
            &&& weight_numerator_3(p, t) == 0
        },
        p.x == t[1].x && p.y == t[1].y ==> {
            &&& weight_numerator_1(p, t) == 0
            &&& weight_numerator_2(p, t) == weight_denominator(t)
            &&& weight_numerator_3(p, t) == 0
        },
        p.x == t[2].x && p.y == t[2].y ==> {
            &&& weight_numerator_1(p, t) == 0
            &&& weight_numerator_2(p, t) == 0
            &&& weight_numerator_3(p, t) == weight_denominator(t)
        },
{
    let a = t[0];
    let b = t[1];
    let c = t[2];
    if p.x == a.x && p.y == a.y {
        assert((c.y - a.y) * (a.x - c.x) + (a.x - c.x) * (a.y - c.y) == 0) by (nonlinear_arith);
    }
    if p.x == b.x && p.y == b.y {
        assert((b.y - c.y) * (b.x - c.x) + (c.x - b.x) * (b.y - c.y) == 0) by (nonlinear_arith);
        assert((c.y - a.y) * (b.x - c.x) + (a.x - c.x) * (b.y - c.y) == (b.y - c.y) * (a.x - c.x)
            + (c.x - b.x) * (a.y - c.y)) by (nonlinear_arith);
    }
    if p.x == c.x && p.y == c.y {
        assert((b.y - c.y) * (c.x - c.x) + (c.x - b.x) * (c.y - c.y) == 0) by (nonlinear_arith);
        assert((c.y - a.y) * (c.x - c.x) + (a.x - c.x) * (c.y - c.y) == 0) by (nonlinear_arith);
    }
}

/// The flat colour of a triangle whose three vertices share one colour is
/// that colour made opaque; it is that colour itself when the colour is
/// opaque already.
pub proof fn lemma_average_of_one_color(t: [Point; 3])
    requires
        t[0].c == t[1].c,
        t[1].c == t[2].c,
    ensures
        average_color(t) == (Rgba { a: 255, ..t[0].c }),
        t[0].c.a == 255 ==> average_color(t) == t[0].c,
{
}

/// The numerator of a vertex's weight is twice the signed area of the
/// triangle that the point spans with the edge opposite to that vertex.
pub proof fn lemma_weights_are_areas(p: Point, t: [Point; 3])
    ensures
        weight_numerator_1(p, t) == signed_area(p, t[1], t[2]),
        weight_numerator_2(p, t) == signed_area(p, t[2], t[0]),
        weight_numerator_3(p, t) == signed_area(p, t[0], t[1]),
        weight_denominator(t) == signed_area(t[0], t[1], t[2]),
{
    let a = t[0];
    let b = t[1];
    let c = t[2];
    assert((b.y - c.y) * (p.x - c.x) + (c.x - b.x) * (p.y - c.y) == (c.y - p.y) * (b.x - p.x) - (b.y
        - p.y) * (c.x - p.x)) by (nonlinear_arith);
    assert((c.y - a.y) * (p.x - c.x) + (a.x - c.x) * (p.y - c.y) == (a.y - p.y) * (c.x - p.x) - (c.y
        - p.y) * (a.x - p.x)) by (nonlinear_arith);
    assert((b.y - c.y) * (a.x - c.x) + (c.x - b.x) * (a.y - c.y) == (c.y - a.y) * (b.x - a.x) - (b.y
        - a.y) * (c.x - a.x)) by (nonlinear_arith);
    lemma_area_split(p, a, b, c);
}

/// A blend of two offsets with the weights of a point gives the offset of
/// the point, times the denominator.
proof fn lemma_blend_of_offsets(ax: int, ay: int, bx: int, by: int, px: int, py: int)
    ensures
        (by * px - bx * py) * ax + (ax * py - ay * px) * bx == (by * ax - bx * ay) * px,
        (by * px - bx * py) * ay + (ax * py - ay * px) * by == (by * ax - bx * ay) * py,
{
    let w1 = by * px - bx * py;
    let w2 = ax * py - ay * px;
    let den = by * ax - bx * ay;
    assert(w1 * ax == (by * px) * ax - (bx * py) * ax) by (nonlinear_arith)
        requires
            w1 == by * px - bx * py,
    ;
    assert(w2 * bx == (ax * py) * bx - (ay * px) * bx) by (nonlinear_arith)
        requires
            w2 == ax * py - ay * px,
    ;
    assert(den * px == (by * ax) * px - (bx * ay) * px) by (nonlinear_arith)
        requires
            den == by * ax - bx * ay,
    ;
    assert((bx * py) * ax == (ax * py) * bx) by (nonlinear_arith);
    assert((by * px) * ax == (by * ax) * px) by (nonlinear_arith);
    assert((ay * px) * bx == (bx * ay) * px) by (nonlinear_arith);
    assert(w1 * ay == (by * px) * ay - (bx * py) * ay) by (nonlinear_arith)
        requires
            w1 == by * px - bx * py,
    ;
    assert(w2 * by == (ax * py) * by - (ay * px) * by) by (nonlinear_arith)
        requires
            w2 == ax * py - ay * px,
    ;
    assert(den * py == (by * ax) * py - (bx * ay) * py) by (nonlinear_arith)
        requires
            den == by * ax - bx * ay,
    ;
    assert((by * px) * ay == (ay * px) * by) by (nonlinear_arith);
    assert((bx * py) * ay == (bx * ay) * py) by (nonlinear_arith);
    assert((ax * py) * by == (by * ax) * py) by (nonlinear_arith);
}

/// The weights of a point give the point back: the vertices, blended with
/// the weights of a point, make the position of that point. In whole
/// numbers: the vertex coordinates times the numerators add up to the
/// point's coordinate times the denominator.
pub proof fn lemma_weights_give_the_point(p: Point, t: [Point; 3])
    ensures
        weight_numerator_1(p, t) * t[0].x + weight_numerator_2(p, t) * t[1].x + weight_numerator_3(
            p,
            t,
        ) * t[2].x == weight_denominator(t) * p.x,
        weight_numerator_1(p, t) * t[0].y + weight_numerator_2(p, t) * t[1].y + weight_numerator_3(
            p,
            t,
        ) * t[2].y == weight_denominator(t) * p.y,
{
    let a = t[0];
    let b = t[1];
    let c = t[2];
    let ax = a.x - c.x;
    let ay = a.y - c.y;
    let bx = b.x - c.x;
    let by = b.y - c.y;
    let px = p.x - c.x;
    let py = p.y - c.y;
    let w1 = weight_numerator_1(p, t);
    let w2 = weight_numerator_2(p, t);
    let w3 = weight_numerator_3(p, t);
    let den = weight_denominator(t);
    assert(w1 == by * px - bx * py) by (nonlinear_arith)
        requires
            w1 == (b.y - c.y) * (p.x - c.x) + (c.x - b.x) * (p.y - c.y),
            by == b.y - c.y,
            px == p.x - c.x,
            bx == b.x - c.x,
            py == p.y - c.y,
    ;
    assert(w2 == ax * py - ay * px) by (nonlinear_arith)
        requires
            w2 == (c.y - a.y) * (p.x - c.x) + (a.x - c.x) * (p.y - c.y),
            ay == a.y - c.y,
            px == p.x - c.x,
            ax == a.x - c.x,
            py == p.y - c.y,
    ;
    assert(den == by * ax - bx * ay) by (nonlinear_arith)
        requires
            den == (b.y - c.y) * (a.x - c.x) + (c.x - b.x) * (a.y - c.y),
            by == b.y - c.y,
            ax == a.x - c.x,
            bx == b.x - c.x,
            ay == a.y - c.y,
    ;
    lemma_blend_of_offsets(ax, ay, bx, by, px, py);
    assert(w1 * a.x + w2 * b.x + w3 * c.x == den * p.x) by (nonlinear_arith)
        requires
            w1 * ax + w2 * bx == den * px,
            w3 == den - w1 - w2,
            ax == a.x - c.x,
            bx == b.x - c.x,
            px == p.x - c.x,
    ;
    assert(w1 * a.y + w2 * b.y + w3 * c.y == den * p.y) by (nonlinear_arith)
        requires
            w1 * ay + w2 * by == den * py,
            w3 == den - w1 - w2,
            ay == a.y - c.y,
            by == b.y - c.y,
            py == p.y - c.y,
    ;
}

/// A point passes the point-in-triangle test exactly when none of its
/// three weights is negative: for a triangle with an area, in either order
/// of its vertices, these are the points of the triangle, rim included.
/// In counter-clockwise order the denominator is positive and no
/// numerator is negative; in clockwise order the denominator is negative
/// and no numerator is positive.
pub proof fn lemma_inside_by_weights(p: Point, t: [Point; 3])
    ensures
        inside(p, t) <==> {
            ||| (weight_numerator_1(p, t) >= 0 && weight_numerator_2(p, t) >= 0
                && weight_numerator_3(p, t) >= 0)
            ||| (weight_numerator_1(p, t) <= 0 && weight_numerator_2(p, t) <= 0
                && weight_numerator_3(p, t) <= 0)
        },
        weight_denominator(t) > 0 ==> (inside(p, t) <==> weight_numerator_1(p, t) >= 0
            && weight_numerator_2(p, t) >= 0 && weight_numerator_3(p, t) >= 0),
        weight_denominator(t) < 0 ==> (inside(p, t) <==> weight_numerator_1(p, t) <= 0
            && weight_numerator_2(p, t) <= 0 && weight_numerator_3(p, t) <= 0),
{
    lemma_weights_are_areas(p, t);
    lemma_weights_sum_to_one(p, t);
}

/// A blend of three values with weights that are not negative lies
/// between the smallest and the largest of the values.
proof fn lemma_blend_between(u1: int, u2: int, u3: int, c1: int, c2: int, c3: int, lo: int, hi: int)
    requires
        u1 >= 0,
        u2 >= 0,
        u3 >= 0,
        u1 + u2 + u3 > 0,
        lo <= c1 <= hi,
        lo <= c2 <= hi,
        lo <= c3 <= hi,
    ensures
        lo <= (u1 * c1 + u2 * c2 + u3 * c3) / (u1 + u2 + u3) <= hi,
        lo * (u1 + u2 + u3) <= u1 * c1 + u2 * c2 + u3 * c3 <= hi * (u1 + u2 + u3),
{
    let d = u1 + u2 + u3;
    let n = u1 * c1 + u2 * c2 + u3 * c3;
    assert(d * lo <= n && n <= d * hi && d * lo == lo * d && d * hi == hi * d) by (nonlinear_arith)
        requires
            u1 >= 0,
            u2 >= 0,
            u3 >= 0,
            d == u1 + u2 + u3,
            n == u1 * c1 + u2 * c2 + u3 * c3,
            lo <= c1 <= hi,
            lo <= c2 <= hi,
            lo <= c3 <= hi,
    ;
    lemma_div_is_ordered(d * lo, n, d);
    lemma_div_is_ordered(n, d * hi, d);
    lemma_div_multiples_vanish(lo, d);
    lemma_div_multiples_vanish(hi, d);
}

/// One channel of the blended colour of a point that passes the
/// point-in-triangle test lies between the smallest and the largest of the
/// three vertex values.
proof fn lemma_channel_between(p: Point, t: [Point; 3], c1: u8, c2: u8, c3: u8)
    requires
        inside(p, t),
        weight_denominator(t) != 0,
    ensures
        min3(c1 as int, c2 as int, c3 as int) <= channel_of(
            channel_sum(barycentric_weights(p, t), c1, c2, c3),
            weight_denominator(t),
        ) <= max3(c1 as int, c2 as int, c3 as int),
{
    lemma_inside_by_weights(p, t);
    lemma_weight_bounds(p, t);
    let w1 = weight_numerator_1(p, t);
    let w2 = weight_numerator_2(p, t);
    let w3 = weight_numerator_3(p, t);
    let den = weight_denominator(t);
    let lo = min3(c1 as int, c2 as int, c3 as int);
    let hi = max3(c1 as int, c2 as int, c3 as int);
    let w = barycentric_weights(p, t);
    assert(w.w1 == w1 && w.w2 == w2 && w.w3 == w3 && w.den == den);
    if den > 0 {
        lemma_blend_between(w1, w2, w3, c1 as int, c2 as int, c3 as int, lo, hi);
    } else {
        lemma_blend_between(-w1, -w2, -w3, c1 as int, c2 as int, c3 as int, lo, hi);
        assert((-w1) * c1 + (-w2) * c2 + (-w3) * c3 == -(w1 * c1 + w2 * c2 + w3 * c3))
            by (nonlinear_arith);
    }
}

/// The weight numerators and the denominator fit in 128 bits with room to
/// spare.
pub proof fn lemma_weight_bounds(p: Point, t: [Point; 3])
    ensures
        barycentric_weights(p, t).bounded(),
        barycentric_weights(p, t).w1 == weight_numerator_1(p, t),
        barycentric_weights(p, t).w2 == weight_numerator_2(p, t),
        barycentric_weights(p, t).w3 == weight_numerator_3(p, t),
        barycentric_weights(p, t).den == weight_denominator(t),
{
    let a = t[0];
    let b = t[1];
    let c = t[2];
    lemma_span_product_bound(b.y - c.y, a.x - c.x);
    lemma_span_product_bound(c.x - b.x, a.y - c.y);
    lemma_span_product_bound(b.y - c.y, p.x - c.x);
    lemma_span_product_bound(c.x - b.x, p.y - c.y);
    lemma_span_product_bound(c.y - a.y, p.x - c.x);
    lemma_span_product_bound(a.x - c.x, p.y - c.y);
}

/// The product of two differences of coordinates.
proof fn lemma_span_product_bound(a: int, b: int)
    requires
        -0x1_0000_0000 < a < 0x1_0000_0000,
        -0x1_0000_0000 < b < 0x1_0000_0000,
    ensures
        -0x1_0000_0000_0000_0000 < a * b < 0x1_0000_0000_0000_0000,
{
    assert(-0x1_0000_0000_0000_0000 < a * b < 0x1_0000_0000_0000_0000) by (nonlinear_arith)
        requires
            -0x1_0000_0000 < a < 0x1_0000_0000,
            -0x1_0000_0000 < b < 0x1_0000_0000,
    ;
}

/// The blended colour of a point that passes the point-in-triangle test
/// lies, channel by channel, between the smallest and the largest of the
/// three vertex colours: blending invents no colour.
pub proof fn lemma_weighted_color_between(p: Point, t: [Point; 3])
    requires
        inside(p, t),
        weight_denominator(t) != 0,
    ensures
        min3(t[0].c.r as int, t[1].c.r as int, t[2].c.r as int) <= weighted_color(p, t).r <= max3(
            t[0].c.r as int,
            t[1].c.r as int,
            t[2].c.r as int,
        ),
        min3(t[0].c.g as int, t[1].c.g as int, t[2].c.g as int) <= weighted_color(p, t).g <= max3(
            t[0].c.g as int,
            t[1].c.g as int,
            t[2].c.g as int,
        ),
        min3(t[0].c.b as int, t[1].c.b as int, t[2].c.b as int) <= weighted_color(p, t).b <= max3(
            t[0].c.b as int,
            t[1].c.b as int,
            t[2].c.b as int,
        ),
{
    lemma_weight_bounds(p, t);
    lemma_channel_between(p, t, t[0].c.r, t[1].c.r, t[2].c.r);
    lemma_channel_between(p, t, t[0].c.g, t[1].c.g, t[2].c.g);
    lemma_channel_between(p, t, t[0].c.b, t[1].c.b, t[2].c.b);
}

} // verus!
