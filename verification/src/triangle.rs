//! Filled triangles on the pixel grid.

use crate::color::Color;
use crate::grid::{lemma_grid_ext, lemma_paint_at, lemma_set_at};
use crate::image::Image;
use crate::vec::{Vec2, Vec3};
use vstd::prelude::*;

verus! {

/// The cross product of the plane vectors `(ax, ay)` and `(bx, by)`.
pub open spec fn cross(ax: int, ay: int, bx: int, by: int) -> int {
    ax * by - ay * bx
}

/// The edge function of the directed line from `(ax, ay)` to `(bx, by)` at the
/// point `(cx, cy)`: the cross product of `b - a` and `c - a`. It is positive
/// on one side of the line, negative on the other and zero on it.
pub open spec fn ccw(ax: int, ay: int, bx: int, by: int, cx: int, cy: int) -> int {
    cross(bx - ax, by - ay, cx - ax, cy - ay)
}

/// The smallest of three numbers.
pub open spec fn min3(a: int, b: int, c: int) -> int {
    if a <= b && a <= c {
        a
    } else if b <= c {
        b
    } else {
        c
    }
}

/// The largest of three numbers.
pub open spec fn max3(a: int, b: int, c: int) -> int {
    if a >= b && a >= c {
        a
    } else if b >= c {
        b
    } else {
        c
    }
}

/// The barycentric weights of a point in a triangle, as three numerators
/// over one denominator: weight `i` is `w_i / den`.
///
/// The weights come in the order in which the cross product construction
/// yields them: `w0` is the weight of the first vertex, `w1` that of the
/// third and `w2` that of the second.
pub struct Weights {
    pub w0: int,
    pub w1: int,
    pub w2: int,
    pub den: int,
}

impl Weights {
    /// Three values, one for each vertex, interpolated: the sum of each value
    /// times the weight of its own vertex, rounded down. The value `a1` of
    /// the second vertex goes with `w2` and the value `a2` of the third with
    /// `w1`.
    pub open spec fn interpolate(self, a0: int, a1: int, a2: int) -> int {
        let sum = self.w0 * a0 + self.w2 * a1 + self.w1 * a2;
        if self.den > 0 {
            sum / self.den
        } else {
            (-sum) / (-self.den)
        }
    }

    /// Whether the weights are those of a point of the closed triangle: the
    /// triangle has an area and no weight is negative.
    pub open spec fn inside(self) -> bool {
        ||| self.den > 0 && self.w0 >= 0 && self.w1 >= 0 && self.w2 >= 0
        ||| self.den < 0 && self.w0 <= 0 && self.w1 <= 0 && self.w2 <= 0
    }
}

/// A triangle in screen space, by the pixel coordinates of its vertices.
pub struct Triangle {
    pub x0: int,
    pub y0: int,
    pub x1: int,
    pub y1: int,
    pub x2: int,
    pub y2: int,
}

impl Triangle {
    /// The triangle with the given vertices.
    pub open spec fn of(pts: [Vec2<i32>; 3]) -> Triangle {
        Triangle {
            x0: pts[0].0 as int,
            y0: pts[0].1 as int,
            x1: pts[1].0 as int,
            y1: pts[1].1 as int,
            x2: pts[2].0 as int,
            y2: pts[2].1 as int,
        }
    }

    /// The triangle with the x and y coordinates of the given vertices.
    pub open spec fn flat(pts: [Vec3<i32>; 3]) -> Triangle {
        Triangle {
            x0: pts[0].0 as int,
            y0: pts[0].1 as int,
            x1: pts[1].0 as int,
            y1: pts[1].1 as int,
            x2: pts[2].0 as int,
            y2: pts[2].1 as int,
        }
    }

    /// Twice the signed area: the cross product of the two edges that leave
    /// the first vertex. It is zero exactly for a triangle without area.
    pub open spec fn area2(self) -> int {
        cross(self.x1 - self.x0, self.y1 - self.y0, self.x2 - self.x0, self.y2 - self.y0)
    }

    /// The barycentric weights of the point `(x, y)`: with the edge vectors
    /// `ab = p1 - p0`, `ac = p2 - p0` and `pa = p0 - p`, the cross product of
    /// `(ab.x, ac.x, pa.x)` and `(ab.y, ac.y, pa.y)` is `(u, v, den)`, and
    /// the weights are `den - (u + v)`, `v` and `u` over `den`.
    pub open spec fn weights(self, x: int, y: int) -> Weights {
        let abx = self.x1 - self.x0;
        let aby = self.y1 - self.y0;
        let acx = self.x2 - self.x0;
        let acy = self.y2 - self.y0;
        let pax = self.x0 - x;
        let pay = self.y0 - y;
        let u = cross(acx, acy, pax, pay);
        let v = cross(pax, pay, abx, aby);
        let den = cross(abx, aby, acx, acy);
        Weights { w0: den - (u + v), w1: v, w2: u, den }
    }

    /// Three values, one for each vertex, interpolated at the point `(x, y)`:
    /// the sum of each value times the weight that its own vertex has at the
    /// point, rounded down.
    pub open spec fn interpolate(self, x: int, y: int, a0: int, a1: int, a2: int) -> int {
        self.weights(x, y).interpolate(a0, a1, a2)
    }

    /// The left column of the bounding box.
    pub open spec fn min_x(self) -> int {
        min3(self.x0, self.x1, self.x2)
    }

    /// The right column of the bounding box.
    pub open spec fn max_x(self) -> int {
        max3(self.x0, self.x1, self.x2)
    }

    /// The first row of the bounding box.
    pub open spec fn min_y(self) -> int {
        min3(self.y0, self.y1, self.y2)
    }

    /// The last row of the bounding box.
    pub open spec fn max_y(self) -> int {
        max3(self.y0, self.y1, self.y2)
    }

    /// Whether `(x, y)` lies in the bounding box of the vertices.
    pub open spec fn in_box(self, x: int, y: int) -> bool {
        self.min_x() <= x <= self.max_x() && self.min_y() <= y <= self.max_y()
    }

    /// Whether the pixel `(x, y)` belongs to the closed triangle: the triangle
    /// has an area and none of the barycentric weights of the pixel is
    /// negative.
    pub open spec fn holds(self, x: int, y: int) -> bool {
        self.weights(x, y).inside()
    }

    /// Whether the pixel `(x, y)` lies strictly inside the triangle: the edge
    /// functions of the three edges, taken in order round the triangle, are
    /// all positive or all negative there.
    pub open spec fn holds_strictly(self, x: int, y: int) -> bool {
        let e0 = ccw(self.x0, self.y0, self.x1, self.y1, x, y);
        let e1 = ccw(self.x1, self.y1, self.x2, self.y2, x, y);
        let e2 = ccw(self.x2, self.y2, self.x0, self.y0, x, y);
        (e0 > 0 && e1 > 0 && e2 > 0) || (e0 < 0 && e1 < 0 && e2 < 0)
    }

    /// Whether the pixel `(x, y)` belongs to the triangle, with its edges or,
    /// if `strict`, without them.
    pub open spec fn holds_by(self, strict: bool, x: int, y: int) -> bool {
        if strict {
            self.holds_strictly(x, y)
        } else {
            self.holds(x, y)
        }
    }
}

/// Whether the pixel `(x, y)` belongs to the closed triangle `pts`.
pub open spec fn in_triangle(pts: [Vec2<i32>; 3], x: int, y: int) -> bool {
    Triangle::of(pts).holds(x, y)
}

/// For plane vectors `(a, b)`, `(c, d)` and `(p, q)`, each vector scaled by
/// the cross product of the other two sums to zero.
proof fn lemma_cross_cycle(a: int, b: int, c: int, d: int, p: int, q: int)
    ensures
        cross(c, d, p, q) * a + cross(p, q, a, b) * c + cross(a, b, c, d) * p == 0,
        cross(c, d, p, q) * b + cross(p, q, a, b) * d + cross(a, b, c, d) * q == 0,
{
    assert((c * q - d * p) * a == (c * q) * a - (d * p) * a) by (nonlinear_arith);
    assert((p * b - q * a) * c == (p * b) * c - (q * a) * c) by (nonlinear_arith);
    assert((a * d - b * c) * p == (a * d) * p - (b * c) * p) by (nonlinear_arith);
    assert((c * q) * a == (q * a) * c) by (nonlinear_arith);
    assert((d * p) * a == (a * d) * p) by (nonlinear_arith);
    assert((p * b) * c == (b * c) * p) by (nonlinear_arith);
    assert((c * q - d * p) * b == (c * q) * b - (d * p) * b) by (nonlinear_arith);
    assert((p * b - q * a) * d == (p * b) * d - (q * a) * d) by (nonlinear_arith);
    assert((a * d - b * c) * q == (a * d) * q - (b * c) * q) by (nonlinear_arith);
    assert((c * q) * b == (b * c) * q) by (nonlinear_arith);
    assert((d * p) * b == (p * b) * d) by (nonlinear_arith);
    assert((q * a) * d == (a * d) * q) by (nonlinear_arith);
}

/// Along one axis: if the edge vectors `a` and `c` and the vector `p` to the
/// first vertex `x0`, scaled by `u`, `v` and `den`, sum to zero, the point
/// `x0 - p` is the sum of the three vertices weighted by `den - (u + v)`, `u`
/// and `v`.
proof fn lemma_weighted_sum(den: int, u: int, v: int, a: int, c: int, p: int, x0: int)
    requires
        u * a + v * c + den * p == 0,
    ensures
        den * (x0 - p) == (den - (u + v)) * x0 + u * (x0 + a) + v * (x0 + c),
{
    assert(den * (x0 - p) == den * x0 - den * p) by (nonlinear_arith);
    assert((den - (u + v)) * x0 == den * x0 - u * x0 - v * x0) by (nonlinear_arith);
    assert(u * (x0 + a) == u * x0 + u * a) by (nonlinear_arith);
    assert(v * (x0 + c) == v * x0 + v * c) by (nonlinear_arith);
}

/// The numerators of the weights sum to the denominator, and the point is
/// the sum of the vertices weighted by them.
pub proof fn lemma_weights_locate(t: Triangle, x: int, y: int)
    ensures
        ({
            let w = t.weights(x, y);
            &&& w.den == t.area2()
            &&& w.w0 + w.w1 + w.w2 == w.den
            &&& w.den * x == w.w0 * t.x0 + w.w2 * t.x1 + w.w1 * t.x2
            &&& w.den * y == w.w0 * t.y0 + w.w2 * t.y1 + w.w1 * t.y2
        }),
{
    let w = t.weights(x, y);
    let a = t.x1 - t.x0;
    let b = t.y1 - t.y0;
    let c = t.x2 - t.x0;
    let d = t.y2 - t.y0;
    let p = t.x0 - x;
    let q = t.y0 - y;
    lemma_cross_cycle(a, b, c, d, p, q);
    lemma_weighted_sum(w.den, w.w2, w.w1, a, c, p, t.x0);
    lemma_weighted_sum(w.den, w.w2, w.w1, b, d, q, t.y0);
}

/// The three cross products behind the weights, written as cross products
/// of an edge with the vector from its start to the point.
proof fn lemma_edge_identities(a: int, b: int, c: int, d: int, p: int, q: int)
    ensures
        cross(p, q, a, b) == cross(a, b, -p, -q),
        cross(a, b, c, d) - (cross(c, d, p, q) + cross(p, q, a, b)) == cross(
            c - a,
            d - b,
            -p - a,
            -q - b,
        ),
        cross(c, d, p, q) == cross(-c, -d, -p - c, -q - d),
{
    assert(a * (-q) == -(q * a) && b * (-p) == -(p * b)) by (nonlinear_arith);
    assert((c - a) * (-q - b) == -(c * q) - b * c + q * a + a * b) by (nonlinear_arith);
    assert((d - b) * (-p - a) == -(d * p) - a * d + p * b + a * b) by (nonlinear_arith);
    assert((-c) * (-q - d) == c * q + c * d) by (nonlinear_arith);
    assert((-d) * (-p - c) == d * p + c * d) by (nonlinear_arith);
}

/// The weights are the edge functions of the three edges: each is the edge
/// function of the edge that lies across from its vertex.
pub proof fn lemma_weights_are_edge_functions(t: Triangle, x: int, y: int)
    ensures
        ({
            let w = t.weights(x, y);
            &&& w.w1 == ccw(t.x0, t.y0, t.x1, t.y1, x, y)
            &&& w.w0 == ccw(t.x1, t.y1, t.x2, t.y2, x, y)
            &&& w.w2 == ccw(t.x2, t.y2, t.x0, t.y0, x, y)
        }),
{
    lemma_edge_identities(
        t.x1 - t.x0,
        t.y1 - t.y0,
        t.x2 - t.x0,
        t.y2 - t.y0,
        t.x0 - x,
        t.y0 - y,
    );
}

/// At a vertex of a triangle with an area that vertex has the whole weight:
/// a value interpolated there is the value of the vertex.
pub proof fn lemma_interpolate_at_vertices(t: Triangle, a0: int, a1: int, a2: int)
    requires
        t.area2() != 0,
    ensures
        t.interpolate(t.x0, t.y0, a0, a1, a2) == a0,
        t.interpolate(t.x1, t.y1, a0, a1, a2) == a1,
        t.interpolate(t.x2, t.y2, a0, a1, a2) == a2,
{
    let den = t.area2();
    let abx = t.x1 - t.x0;
    let aby = t.y1 - t.y0;
    let acx = t.x2 - t.x0;
    let acy = t.y2 - t.y0;
    assert(cross(acx, acy, 0, 0) == 0 && cross(0, 0, abx, aby) == 0) by (nonlinear_arith);
    assert(cross(acx, acy, -abx, -aby) == den && cross(-abx, -aby, abx, aby) == 0)
        by (nonlinear_arith)
        requires
            den == abx * acy - aby * acx,
    ;
    assert(cross(acx, acy, -acx, -acy) == 0 && cross(-acx, -acy, abx, aby) == den)
        by (nonlinear_arith)
        requires
            den == abx * acy - aby * acx,
    ;
    let at0 = t.weights(t.x0, t.y0);
    let at1 = t.weights(t.x1, t.y1);
    let at2 = t.weights(t.x2, t.y2);
    assert(at0.w0 == den && at0.w1 == 0 && at0.w2 == 0);
    assert(at1.w0 == 0 && at1.w1 == 0 && at1.w2 == den);
    assert(at2.w0 == 0 && at2.w1 == den && at2.w2 == 0);
    assert(at0.w2 * a1 == 0 && at0.w1 * a2 == 0) by (nonlinear_arith)
        requires
            at0.w1 == 0,
            at0.w2 == 0,
    ;
    assert(at1.w0 * a0 == 0 && at1.w1 * a2 == 0) by (nonlinear_arith)
        requires
            at1.w0 == 0,
            at1.w1 == 0,
    ;
    assert(at2.w0 * a0 == 0 && at2.w2 * a1 == 0) by (nonlinear_arith)
        requires
            at2.w0 == 0,
            at2.w2 == 0,
    ;
    lemma_whole_weight(den, a0);
    lemma_whole_weight(den, a1);
    lemma_whole_weight(den, a2);
}

/// A value that has the whole weight comes out of the division unchanged.
proof fn lemma_whole_weight(den: int, a: int)
    requires
        den != 0,
    ensures
        den > 0 ==> (den * a) / den == a,
        den < 0 ==> (-(den * a)) / (-den) == a,
{
    if den > 0 {
        vstd::arithmetic::div_mod::lemma_div_multiples_vanish(a, den);
    } else {
        lemma_negate(den, a);
        vstd::arithmetic::div_mod::lemma_div_multiples_vanish(a, -den);
    }
}

/// A sum of three values with weights of one sign lies between the smallest
/// and the largest of the values, scaled by the sum of the weights.
pub(crate) proof fn lemma_mean_is_between(w0: int, w1: int, w2: int, a0: int, a1: int, a2: int)
    requires
        w0 >= 0,
        w1 >= 0,
        w2 >= 0,
    ensures
        (w0 + w1 + w2) * min3(a0, a1, a2) <= w0 * a0 + w1 * a1 + w2 * a2 <= (w0 + w1 + w2) * max3(
            a0,
            a1,
            a2,
        ),
{
    let lo = min3(a0, a1, a2);
    let hi = max3(a0, a1, a2);
    assert(w0 * lo <= w0 * a0 <= w0 * hi) by (nonlinear_arith)
        requires
            w0 >= 0,
            lo <= a0 <= hi,
    ;
    assert(w1 * lo <= w1 * a1 <= w1 * hi) by (nonlinear_arith)
        requires
            w1 >= 0,
            lo <= a1 <= hi,
    ;
    assert(w2 * lo <= w2 * a2 <= w2 * hi) by (nonlinear_arith)
        requires
            w2 >= 0,
            lo <= a2 <= hi,
    ;
    assert((w0 + w1 + w2) * lo == w0 * lo + w1 * lo + w2 * lo) by (nonlinear_arith);
    assert((w0 + w1 + w2) * hi == w0 * hi + w1 * hi + w2 * hi) by (nonlinear_arith);
}

/// A product changes its sign with one of its factors.
pub(crate) proof fn lemma_negate(a: int, b: int)
    ensures
        (-a) * b == -(a * b),
{
    assert((-a) * b == -(a * b)) by (nonlinear_arith);
}

/// A positive multiple keeps the order.
proof fn lemma_cancel(d: int, a: int, b: int)
    requires
        d > 0,
        d * a <= d * b,
    ensures
        a <= b,
{
    assert(a <= b) by (nonlinear_arith)
        requires
            d > 0,
            d * a <= d * b,
    ;
}

/// No pixel of a triangle lies outside the bounding box of its vertices.
pub proof fn lemma_triangle_in_box(t: Triangle, x: int, y: int)
    requires
        t.holds(x, y),
    ensures
        t.in_box(x, y),
{
    let w = t.weights(x, y);
    lemma_weights_locate(t, x, y);
    if w.den > 0 {
        lemma_mean_is_between(w.w0, w.w2, w.w1, t.x0, t.x1, t.x2);
        lemma_mean_is_between(w.w0, w.w2, w.w1, t.y0, t.y1, t.y2);
        lemma_cancel(w.den, t.min_x(), x);
        lemma_cancel(w.den, x, t.max_x());
        lemma_cancel(w.den, t.min_y(), y);
        lemma_cancel(w.den, y, t.max_y());
    } else {
        lemma_mean_is_between(-w.w0, -w.w2, -w.w1, t.x0, t.x1, t.x2);
        lemma_mean_is_between(-w.w0, -w.w2, -w.w1, t.y0, t.y1, t.y2);
        lemma_negate(w.den, x);
        lemma_negate(w.w0, t.x0);
        lemma_negate(w.w2, t.x1);
        lemma_negate(w.w1, t.x2);
        lemma_negate(w.den, y);
        lemma_negate(w.w0, t.y0);
        lemma_negate(w.w2, t.y1);
        lemma_negate(w.w1, t.y2);
        lemma_cancel(-w.den, t.min_x(), x);
        lemma_cancel(-w.den, x, t.max_x());
        lemma_cancel(-w.den, t.min_y(), y);
        lemma_cancel(-w.den, y, t.max_y());
    }
}

/// The two fill rules agree but for ties on the edges: a pixel strictly
/// inside a triangle belongs to the closed triangle, and a pixel of the
/// closed triangle that is not strictly inside lies on an edge, where an edge
/// function is zero.
pub proof fn lemma_fill_rules_agree(t: Triangle, x: int, y: int)
    ensures
        t.holds_strictly(x, y) ==> t.holds(x, y),
        t.holds(x, y) && !t.holds_strictly(x, y) ==> {
            ||| ccw(t.x0, t.y0, t.x1, t.y1, x, y) == 0
            ||| ccw(t.x1, t.y1, t.x2, t.y2, x, y) == 0
            ||| ccw(t.x2, t.y2, t.x0, t.y0, x, y) == 0
        },
{
    lemma_weights_locate(t, x, y);
    lemma_weights_are_edge_functions(t, x, y);
}

/// A triangle without area has no pixels under either fill rule.
pub proof fn lemma_flat_triangle_is_empty(t: Triangle, x: int, y: int)
    requires
        t.area2() == 0,
    ensures
        !t.holds(x, y),
        !t.holds_strictly(x, y),
{
    lemma_fill_rules_agree(t, x, y);
    lemma_weights_locate(t, x, y);
}

/// The vertices of a triangle as the fill loops hold them.
pub(crate) struct Corners {
    pub(crate) x0: i64,
    pub(crate) y0: i64,
    pub(crate) x1: i64,
    pub(crate) y1: i64,
    pub(crate) x2: i64,
    pub(crate) y2: i64,
}

/// Barycentric weights as the fill loops hold them.
pub(crate) struct Bary {
    pub(crate) w0: i128,
    pub(crate) w1: i128,
    pub(crate) w2: i128,
    pub(crate) den: i128,
}

/// The bound on a coordinate: that of a vertex, or of a pixel of the box.
pub(crate) open spec fn small(v: int) -> bool {
    -0x8000_0000 <= v < 0x8000_0000
}

impl Corners {
    pub(crate) open spec fn model(self) -> Triangle {
        Triangle {
            x0: self.x0 as int,
            y0: self.y0 as int,
            x1: self.x1 as int,
            y1: self.y1 as int,
            x2: self.x2 as int,
            y2: self.y2 as int,
        }
    }

    pub(crate) open spec fn wf(self) -> bool {
        &&& small(self.x0 as int)
        &&& small(self.y0 as int)
        &&& small(self.x1 as int)
        &&& small(self.y1 as int)
        &&& small(self.x2 as int)
        &&& small(self.y2 as int)
    }

    pub(crate) fn of(pts: &[Vec2<i32>; 3]) -> (c: Corners)
        ensures
            c.wf(),
            c.model() == Triangle::of(*pts),
    {
        Corners {
            x0: pts[0].0 as i64,
            y0: pts[0].1 as i64,
            x1: pts[1].0 as i64,
            y1: pts[1].1 as i64,
            x2: pts[2].0 as i64,
            y2: pts[2].1 as i64,
        }
    }

    pub(crate) fn flat(pts: &[Vec3<i32>; 3]) -> (c: Corners)
        ensures
            c.wf(),
            c.model() == Triangle::flat(*pts),
    {
        Corners {
            x0: pts[0].0 as i64,
            y0: pts[0].1 as i64,
            x1: pts[1].0 as i64,
            y1: pts[1].1 as i64,
            x2: pts[2].0 as i64,
            y2: pts[2].1 as i64,
        }
    }

    /// Twice the signed area.
    pub(crate) fn area2(&self) -> (area: i128)
        requires
            self.wf(),
        ensures
            area == self.model().area2(),
    {
        cross_of(
            (self.x1 - self.x0) as i128,
            (self.y1 - self.y0) as i128,
            (self.x2 - self.x0) as i128,
            (self.y2 - self.y0) as i128,
        )
    }

    /// The barycentric weights of the pixel `(x, y)`.
    pub(crate) fn barycentric(&self, x: i64, y: i64) -> (w: Bary)
        requires
            self.wf(),
            small(x as int),
            small(y as int),
        ensures
            w.model() == self.model().weights(x as int, y as int),
            w.bounded(),
    {
        let abx = (self.x1 - self.x0) as i128;
        let aby = (self.y1 - self.y0) as i128;
        let acx = (self.x2 - self.x0) as i128;
        let acy = (self.y2 - self.y0) as i128;
        let pax = (self.x0 - x) as i128;
        let pay = (self.y0 - y) as i128;
        let u = cross_of(acx, acy, pax, pay);
        let v = cross_of(pax, pay, abx, aby);
        let den = cross_of(abx, aby, acx, acy);
        Bary { w0: den - (u + v), w1: v, w2: u, den }
    }

    fn holds_by(&self, strict: bool, x: i64, y: i64) -> (inside: bool)
        requires
            self.wf(),
            small(x as int),
            small(y as int),
        ensures
            inside == self.model().holds_by(strict, x as int, y as int),
    {
        let w = self.barycentric(x, y);
        proof {
            lemma_weights_are_edge_functions(self.model(), x as int, y as int);
        }
        if strict {
            (w.w0 > 0 && w.w1 > 0 && w.w2 > 0) || (w.w0 < 0 && w.w1 < 0 && w.w2 < 0)
        } else {
            w.inside()
        }
    }
}

impl Bary {
    /// Every numerator is small enough to weigh values of 48 bits.
    pub(crate) open spec fn bounded(self) -> bool {
        &&& -0x8_0000_0000_0000_0000 <= self.w0 <= 0x8_0000_0000_0000_0000
        &&& -0x8_0000_0000_0000_0000 <= self.w1 <= 0x8_0000_0000_0000_0000
        &&& -0x8_0000_0000_0000_0000 <= self.w2 <= 0x8_0000_0000_0000_0000
        &&& -0x8_0000_0000_0000_0000 <= self.den <= 0x8_0000_0000_0000_0000
    }

    pub(crate) open spec fn model(self) -> Weights {
        Weights { w0: self.w0 as int, w1: self.w1 as int, w2: self.w2 as int, den: self.den as int }
    }

    pub(crate) fn inside(&self) -> (inside: bool)
        ensures
            inside == self.model().inside(),
    {
        (self.den > 0 && self.w0 >= 0 && self.w1 >= 0 && self.w2 >= 0) || (self.den < 0 && self.w0
            <= 0 && self.w1 <= 0 && self.w2 <= 0)
    }
}

pub(crate) fn cross_of(ax: i128, ay: i128, bx: i128, by: i128) -> (r: i128)
    requires
        -0x1_0000_0000 <= ax <= 0x1_0000_0000,
        -0x1_0000_0000 <= ay <= 0x1_0000_0000,
        -0x1_0000_0000 <= bx <= 0x1_0000_0000,
        -0x1_0000_0000 <= by <= 0x1_0000_0000,
    ensures
        r == cross(ax as int, ay as int, bx as int, by as int),
        -0x2_0000_0000_0000_0000 <= r <= 0x2_0000_0000_0000_0000,
{
    assert(-0x1_0000_0000_0000_0000 <= ax * by <= 0x1_0000_0000_0000_0000) by (nonlinear_arith)
        requires
            -0x1_0000_0000 <= ax <= 0x1_0000_0000,
            -0x1_0000_0000 <= by <= 0x1_0000_0000,
    ;
    assert(-0x1_0000_0000_0000_0000 <= ay * bx <= 0x1_0000_0000_0000_0000) by (nonlinear_arith)
        requires
            -0x1_0000_0000 <= ay <= 0x1_0000_0000,
            -0x1_0000_0000 <= bx <= 0x1_0000_0000,
    ;
    ax * by - ay * bx
}

/// The smallest of three coordinates.
fn least(a: i64, b: i64, c: i64) -> (m: i64)
    ensures
        m == min3(a as int, b as int, c as int),
{
    if a <= b && a <= c {
        a
    } else if b <= c {
        b
    } else {
        c
    }
}

/// The largest of three coordinates.
fn greatest(a: i64, b: i64, c: i64) -> (m: i64)
    ensures
        m == max3(a as int, b as int, c as int),
{
    if a >= b && a >= c {
        a
    } else if b >= c {
        b
    } else {
        c
    }
}

/// The part of a bounding box that a buffer can show.
pub(crate) struct Window {
    pub(crate) x_lo: i64,
    pub(crate) x_hi: i64,
    pub(crate) y_lo: i64,
    pub(crate) y_hi: i64,
}

impl Window {
    pub(crate) open spec fn holds(self, x: int, y: int) -> bool {
        self.x_lo <= x <= self.x_hi && self.y_lo <= y <= self.y_hi
    }

    pub(crate) open spec fn fits(self) -> bool {
        0 <= self.x_lo && self.x_hi < 0x8000_0000 && 0 <= self.y_lo && self.y_hi < 0x8000_0000
    }

    /// Whether the scan, column by column, has passed `(x, y)` when it stands
    /// at `(at_x, at_y)`.
    pub(crate) open spec fn passed(self, at_x: int, at_y: int, x: int, y: int) -> bool {
        self.holds(x, y) && (x < at_x || (x == at_x && y < at_y))
    }

    pub(crate) fn of(c: &Corners, width: u32, height: u32) -> (w: Window)
        requires
            c.wf(),
            width > 0,
            height > 0,
        ensures
            w.fits(),
            forall|x: int, y: int|
                w.holds(x, y) <==> c.model().in_box(x, y) && 0 <= x < width && 0 <= y < height,
    {
        let min_x = least(c.x0, c.x1, c.x2);
        let max_x = greatest(c.x0, c.x1, c.x2);
        let min_y = least(c.y0, c.y1, c.y2);
        let max_y = greatest(c.y0, c.y1, c.y2);
        Window {
            x_lo: if min_x < 0 {
                0
            } else {
                min_x
            },
            x_hi: if max_x >= width as i64 {
                width as i64 - 1
            } else {
                max_x
            },
            y_lo: if min_y < 0 {
                0
            } else {
                min_y
            },
            y_hi: if max_y >= height as i64 {
                height as i64 - 1
            } else {
                max_y
            },
        }
    }
}

/// Fills the pixels of the bounding box of the triangle `c` that belong to
/// the triangle, with its edges or, if `strict`, without them.
pub(crate) fn scan(strict: bool, c: &Corners, image: &mut Image, color: Color)
    requires
        c.wf(),
    ensures
        final(image)@ == old(image)@.paint(|x: int, y: int| c.model().holds_by(strict, x, y), color),
{
    let ghost before = image@;
    let ghost t = c.model();
    let width = image.width();
    let height = image.height();
    let window = Window::of(c, width, height);
    proof {
        image.lemma_view();
    }
    let mut x = window.x_lo;
    while x <= window.x_hi
        invariant
            c.wf(),
            t == c.model(),
            window.fits(),
            window.x_lo <= x,
            window.x_lo <= window.x_hi ==> x <= window.x_hi + 1,
            forall|px: int, py: int|
                window.holds(px, py) <==> t.in_box(px, py) && 0 <= px < width && 0 <= py < height,
            before.wf(),
            image@.wf(),
            image@.width == before.width == width,
            image@.height == before.height == height,
            forall|px: int, py: int|
                before.contains(px, py) ==> #[trigger] image@.at(px, py) == if t.holds_by(
                    strict,
                    px,
                    py,
                ) && window.passed(x as int, window.y_lo as int, px, py) {
                    color
                } else {
                    before.at(px, py)
                },
        decreases window.x_hi + 1 - x,
    {
        let mut y = window.y_lo;
        while y <= window.y_hi
            invariant
                c.wf(),
                t == c.model(),
                window.fits(),
                window.x_lo <= x <= window.x_hi,
                window.y_lo <= y,
                window.y_lo <= window.y_hi ==> y <= window.y_hi + 1,
                forall|px: int, py: int|
                    window.holds(px, py) <==> t.in_box(px, py) && 0 <= px < width && 0 <= py
                        < height,
                before.wf(),
                image@.wf(),
                image@.width == before.width == width,
                image@.height == before.height == height,
                forall|px: int, py: int|
                    before.contains(px, py) ==> #[trigger] image@.at(px, py) == if t.holds_by(
                        strict,
                        px,
                        py,
                    ) && window.passed(x as int, y as int, px, py) {
                        color
                    } else {
                        before.at(px, py)
                    },
            decreases window.y_hi + 1 - y,
        {
            assert(window.holds(x as int, y as int));
            let ghost painted = image@;
            if c.holds_by(strict, x, y) {
                image.set(x as u32, y as u32, color);
            }
            proof {
                image.lemma_view();
                assert forall|px: int, py: int| before.contains(px, py) implies #[trigger] image@.at(
                    px,
                    py,
                ) == if t.holds_by(strict, px, py) && window.passed(x as int, y + 1, px, py) {
                    color
                } else {
                    before.at(px, py)
                } by {
                    lemma_set_at(painted, x as int, y as int, color, px, py);
                }
            }
            y += 1;
        }
        x += 1;
    }
    proof {
        let mask = |px: int, py: int| c.model().holds_by(strict, px, py);
        let target = before.paint(mask, color);
        assert forall|px: int, py: int| image@.contains(px, py) implies image@.at(px, py)
            == target.at(px, py) by {
            lemma_paint_at(before, mask, color, px, py);
            if t.holds_by(strict, px, py) {
                lemma_fill_rules_agree(t, px, py);
                lemma_triangle_in_box(t, px, py);
                assert(window.holds(px, py));
            }
        }
        lemma_grid_ext(image@, target);
    }
}

} // verus!
