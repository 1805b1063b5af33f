//! The scanline sweep: a triangle filled row by row between two of its edges.

use crate::arith::{ceil, ceil_div, floor_div, lemma_ceil, lemma_floor};
use crate::color::Color;
use crate::grid::{lemma_grid_ext, lemma_paint_at, lemma_set_at};
use crate::image::Image;
use crate::triangle::{
    ccw, lemma_triangle_in_box, lemma_weights_are_edge_functions, lemma_weights_locate, small,
    Corners, Triangle,
};
use vstd::prelude::*;

verus! {

/// Where an edge crosses a row, as a fraction: the crossing lies at the
/// column `num / den`, and `den` is positive.
pub struct Crossing {
    pub num: int,
    pub den: int,
}

impl Crossing {
    /// Where the edge from `(xa, ya)` down to `(xb, yb)`, with `ya < yb`,
    /// crosses row `y`: at `xa + (xb - xa) * (y - ya) / (yb - ya)`.
    pub open spec fn of(xa: int, ya: int, xb: int, yb: int, y: int) -> Crossing {
        Crossing { num: xa * (yb - ya) + (xb - xa) * (y - ya), den: yb - ya }
    }

    /// Whether column `x` lies at the crossing or right of it.
    pub open spec fn at_or_left_of(self, x: int) -> bool {
        self.num <= x * self.den
    }

    /// Whether column `x` lies at the crossing or left of it.
    pub open spec fn at_or_right_of(self, x: int) -> bool {
        x * self.den <= self.num
    }
}

/// Whether column `x` lies between two crossings, whichever of them is the
/// left one; the crossings themselves count.
pub open spec fn between(a: Crossing, b: Crossing, x: int) -> bool {
    ||| a.at_or_left_of(x) && b.at_or_right_of(x)
    ||| b.at_or_left_of(x) && a.at_or_right_of(x)
}

impl Triangle {
    /// The triangle with its first and second vertex exchanged.
    pub open spec fn swap01(self) -> Triangle {
        Triangle {
            x0: self.x1,
            y0: self.y1,
            x1: self.x0,
            y1: self.y0,
            x2: self.x2,
            y2: self.y2,
        }
    }

    /// The triangle with its first and third vertex exchanged.
    pub open spec fn swap02(self) -> Triangle {
        Triangle {
            x0: self.x2,
            y0: self.y2,
            x1: self.x1,
            y1: self.y1,
            x2: self.x0,
            y2: self.y0,
        }
    }

    /// The triangle with its second and third vertex exchanged.
    pub open spec fn swap12(self) -> Triangle {
        Triangle {
            x0: self.x0,
            y0: self.y0,
            x1: self.x2,
            y1: self.y2,
            x2: self.x1,
            y2: self.y1,
        }
    }

    /// Whether the vertices come in the order of their rows.
    pub open spec fn is_by_rows(self) -> bool {
        self.y0 <= self.y1 <= self.y2
    }

    /// The triangle with its vertices in the order of their rows, the one
    /// with the smallest row first.
    pub open spec fn by_rows(self) -> Triangle {
        let a = if self.y0 > self.y1 {
            self.swap01()
        } else {
            self
        };
        let b = if a.y0 > a.y2 {
            a.swap02()
        } else {
            a
        };
        if b.y1 > b.y2 {
            b.swap12()
        } else {
            b
        }
    }

    /// Whether row `y` of a triangle ordered by rows belongs to its lower
    /// segment, between the second and the third vertex, and not to the upper
    /// one, between the first and the second.
    pub open spec fn in_lower_segment(self, y: int) -> bool {
        y > self.y1 || self.y1 == self.y0
    }

    /// Where the long edge, from the first vertex to the third, crosses row
    /// `y` of a triangle ordered by rows.
    pub open spec fn long_crossing(self, y: int) -> Crossing {
        Crossing::of(self.x0, self.y0, self.x2, self.y2, y)
    }

    /// Where the short edge of the segment of row `y` crosses that row, in a
    /// triangle ordered by rows.
    pub open spec fn short_crossing(self, y: int) -> Crossing {
        if self.in_lower_segment(y) {
            Crossing::of(self.x1, self.y1, self.x2, self.y2, y)
        } else {
            Crossing::of(self.x0, self.y0, self.x1, self.y1, y)
        }
    }

    /// Whether the sweep over a triangle ordered by rows fills the pixel
    /// `(x, y)`: the triangle has an area, the row lies between its first and
    /// its last, and the column lies between the crossings of the long edge
    /// and of the short edge with the row. A triangle without area is passed
    /// over, whether it lies on one row or on a slanted line.
    pub open spec fn in_sweep(self, x: int, y: int) -> bool {
        &&& self.area2() != 0
        &&& self.y0 <= y <= self.y2
        &&& between(self.long_crossing(y), self.short_crossing(y), x)
    }

    /// Whether the scanline sweep fills the pixel `(x, y)`.
    pub open spec fn sweeps(self, x: int, y: int) -> bool {
        self.by_rows().in_sweep(x, y)
    }
}

/// A crossing compares with a column as the edge function of its edge says.
proof fn lemma_crossing_is_edge_function(xa: int, ya: int, xb: int, yb: int, x: int, y: int)
    ensures
        Crossing::of(xa, ya, xb, yb, y).num - x * Crossing::of(xa, ya, xb, yb, y).den == ccw(
            xa,
            ya,
            xb,
            yb,
            x,
            y,
        ),
{
    assert(xa * (yb - ya) - x * (yb - ya) == -((yb - ya) * (x - xa))) by (nonlinear_arith);
}

/// Turning an edge round changes the sign of its edge function.
proof fn lemma_ccw_turned(ax: int, ay: int, bx: int, by: int, x: int, y: int)
    ensures
        ccw(bx, by, ax, ay, x, y) == -ccw(ax, ay, bx, by, x, y),
{
    let dx = bx - ax;
    let dy = by - ay;
    assert((-dx) * (y - by) == -(dx * (y - ay)) + dx * dy) by (nonlinear_arith)
        requires
            dy == by - ay,
    ;
    assert((-dy) * (x - bx) == -(dy * (x - ax)) + dy * dx) by (nonlinear_arith)
        requires
            dx == bx - ax,
    ;
    assert(dx * dy == dy * dx) by (nonlinear_arith);
}

/// The three edge functions of a triangle at a pixel.
pub struct Edges {
    pub e01: int,
    pub e12: int,
    pub e20: int,
}

impl Triangle {
    /// The edge functions of the three edges, taken round the triangle.
    pub open spec fn edges(self, x: int, y: int) -> Edges {
        Edges {
            e01: ccw(self.x0, self.y0, self.x1, self.y1, x, y),
            e12: ccw(self.x1, self.y1, self.x2, self.y2, x, y),
            e20: ccw(self.x2, self.y2, self.x0, self.y0, x, y),
        }
    }
}

/// A pixel belongs to the closed triangle exactly if the triangle has an area
/// and none of its edge functions has the sign against the area.
pub proof fn lemma_holds_by_edges(t: Triangle, x: int, y: int)
    ensures
        t.edges(x, y).e01 + t.edges(x, y).e12 + t.edges(x, y).e20 == t.area2(),
        t.holds(x, y) <==> {
            let e = t.edges(x, y);
            ||| t.area2() > 0 && e.e01 >= 0 && e.e12 >= 0 && e.e20 >= 0
            ||| t.area2() < 0 && e.e01 <= 0 && e.e12 <= 0 && e.e20 <= 0
        },
{
    lemma_weights_locate(t, x, y);
    lemma_weights_are_edge_functions(t, x, y);
}

/// The closed triangle does not depend on the order of the vertices.
pub proof fn lemma_holds_whatever_the_order(t: Triangle, x: int, y: int)
    ensures
        t.swap01().holds(x, y) == t.holds(x, y),
        t.swap02().holds(x, y) == t.holds(x, y),
        t.swap12().holds(x, y) == t.holds(x, y),
        t.by_rows().holds(x, y) == t.holds(x, y),
        t.swap01().area2() == -t.area2(),
        t.swap02().area2() == -t.area2(),
        t.swap12().area2() == -t.area2(),
        (t.by_rows().area2() == 0) == (t.area2() == 0),
        t.by_rows().is_by_rows(),
{
    lemma_swaps(t, x, y);
    let a = if t.y0 > t.y1 {
        t.swap01()
    } else {
        t
    };
    lemma_swaps(a, x, y);
    let b = if a.y0 > a.y2 {
        a.swap02()
    } else {
        a
    };
    lemma_swaps(b, x, y);
}

proof fn lemma_swaps(t: Triangle, x: int, y: int)
    ensures
        t.swap01().holds(x, y) == t.holds(x, y),
        t.swap02().holds(x, y) == t.holds(x, y),
        t.swap12().holds(x, y) == t.holds(x, y),
        t.swap01().area2() == -t.area2(),
        t.swap02().area2() == -t.area2(),
        t.swap12().area2() == -t.area2(),
{
    lemma_holds_by_edges(t, x, y);
    lemma_holds_by_edges(t.swap01(), x, y);
    lemma_holds_by_edges(t.swap02(), x, y);
    lemma_holds_by_edges(t.swap12(), x, y);
    lemma_ccw_turned(t.x0, t.y0, t.x1, t.y1, x, y);
    lemma_ccw_turned(t.x1, t.y1, t.x2, t.y2, x, y);
    lemma_ccw_turned(t.x2, t.y2, t.x0, t.y0, x, y);
}

/// Two edge functions of one sign fix the sign of the third, on the rows of
/// the segment between them: with `area * d == a * short + b * long` for a
/// row `d` rows into a segment `short` rows high, under an edge `long` rows
/// high, and with neither `a` nor `b` negative, a positive area leaves
/// `area - a - b` zero or more, and a negative area makes `a` and `b` vanish.
proof fn lemma_third_edge(area: int, a: int, b: int, short: int, long: int, d: int)
    requires
        area * d == a * short + b * long,
        0 <= d <= short,
        0 < short <= long,
        a >= 0,
        b >= 0,
    ensures
        area > 0 ==> a + b <= area,
        area < 0 ==> a == 0 && b == 0,
{
    assert(b * long >= b * short) by (nonlinear_arith)
        requires
            b >= 0,
            short <= long,
    ;
    assert((a + b) * short == a * short + b * short) by (nonlinear_arith);
    if area > 0 {
        assert(area * d <= area * short) by (nonlinear_arith)
            requires
                area > 0,
                d <= short,
        ;
        assert(a + b <= area) by (nonlinear_arith)
            requires
                (a + b) * short <= area * short,
                short > 0,
        ;
    }
    if area < 0 {
        assert(area * d <= 0) by (nonlinear_arith)
            requires
                area < 0,
                d >= 0,
        ;
        assert(a * short >= 0 && b * long >= 0) by (nonlinear_arith)
            requires
                a >= 0,
                b >= 0,
                short > 0,
                long > 0,
        ;
        assert(a == 0) by (nonlinear_arith)
            requires
                a * short == 0,
                short > 0,
        ;
        assert(b == 0) by (nonlinear_arith)
            requires
                b * long == 0,
                long > 0,
        ;
    }
}

/// How the row of a pixel shows in its edge functions.
proof fn lemma_rows_by_edges(t: Triangle, x: int, y: int)
    ensures
        ({
            let e = t.edges(x, y);
            &&& t.area2() * (y - t.y0) == e.e20 * (t.y1 - t.y0) + e.e01 * (t.y2 - t.y0)
            &&& t.area2() * (t.y2 - y) == e.e20 * (t.y2 - t.y1) + e.e12 * (t.y2 - t.y0)
        }),
{
    let e = t.edges(x, y);
    let area = t.area2();
    lemma_weights_locate(t, x, y);
    lemma_weights_are_edge_functions(t, x, y);
    assert(area * y == e.e12 * t.y0 + e.e20 * t.y1 + e.e01 * t.y2);
    assert(area == e.e01 + e.e12 + e.e20);
    assert(area * (y - t.y0) == area * y - area * t.y0) by (nonlinear_arith);
    assert(area * t.y0 == e.e01 * t.y0 + e.e12 * t.y0 + e.e20 * t.y0) by (nonlinear_arith)
        requires
            area == e.e01 + e.e12 + e.e20,
    ;
    assert(e.e20 * (t.y1 - t.y0) == e.e20 * t.y1 - e.e20 * t.y0) by (nonlinear_arith);
    assert(e.e01 * (t.y2 - t.y0) == e.e01 * t.y2 - e.e01 * t.y0) by (nonlinear_arith);
    assert(area * (t.y2 - y) == area * t.y2 - area * y) by (nonlinear_arith);
    assert(area * t.y2 == e.e01 * t.y2 + e.e12 * t.y2 + e.e20 * t.y2) by (nonlinear_arith)
        requires
            area == e.e01 + e.e12 + e.e20,
    ;
    assert(e.e20 * (t.y2 - t.y1) == e.e20 * t.y2 - e.e20 * t.y1) by (nonlinear_arith);
    assert(e.e12 * (t.y2 - t.y0) == e.e12 * t.y2 - e.e12 * t.y0) by (nonlinear_arith);
}

/// A triangle with an area spans more than one row.
proof fn lemma_area_needs_rows(t: Triangle)
    requires
        t.is_by_rows(),
        t.area2() != 0,
    ensures
        t.y0 < t.y2,
{
    if t.y0 == t.y2 {
        assert(t.area2() == 0) by (nonlinear_arith)
            requires
                t.area2() == (t.x1 - t.x0) * (t.y2 - t.y0) - (t.y1 - t.y0) * (t.x2 - t.x0),
                t.y2 - t.y0 == 0,
                t.y1 - t.y0 == 0,
        ;
    }
}

/// For a triangle ordered by rows, lying between the crossings of two edges
/// is having edge functions of one sign, or none, on these edges.
proof fn lemma_between_by_edges(t: Triangle, x: int, y: int)
    requires
        t.is_by_rows(),
        t.y0 < t.y2,
        t.y0 <= y <= t.y2,
    ensures
        ({
            let e = t.edges(x, y);
            let other = if t.in_lower_segment(y) {
                e.e12
            } else {
                e.e01
            };
            between(t.long_crossing(y), t.short_crossing(y), x) <==> (e.e20 >= 0 && other >= 0)
                || (e.e20 <= 0 && other <= 0)
        }),
{
    lemma_crossing_is_edge_function(t.x0, t.y0, t.x2, t.y2, x, y);
    lemma_ccw_turned(t.x0, t.y0, t.x2, t.y2, x, y);
    if t.in_lower_segment(y) {
        lemma_crossing_is_edge_function(t.x1, t.y1, t.x2, t.y2, x, y);
    } else {
        lemma_crossing_is_edge_function(t.x0, t.y0, t.x1, t.y1, x, y);
    }
}

/// On a triangle ordered by rows the sweep fills exactly the pixels of the
/// closed triangle.
pub proof fn lemma_sweep_of_ordered(t: Triangle, x: int, y: int)
    requires
        t.is_by_rows(),
    ensures
        t.in_sweep(x, y) == t.holds(x, y),
{
    let e = t.edges(x, y);
    let area = t.area2();
    lemma_holds_by_edges(t, x, y);
    if t.holds(x, y) {
        lemma_triangle_in_box(t, x, y);
    }
    if area != 0 && t.y0 <= y <= t.y2 {
        lemma_area_needs_rows(t);
        lemma_between_by_edges(t, x, y);
        lemma_rows_by_edges(t, x, y);
        let long = t.y2 - t.y0;
        if t.in_lower_segment(y) {
            let short = t.y2 - t.y1;
            let d = t.y2 - y;
            if e.e20 >= 0 && e.e12 >= 0 {
                lemma_third_edge(area, e.e20, e.e12, short, long, d);
            }
            if e.e20 <= 0 && e.e12 <= 0 {
                assert((-area) * d == (-e.e20) * short + (-e.e12) * long) by (nonlinear_arith)
                    requires
                        area * d == e.e20 * short + e.e12 * long,
                ;
                lemma_third_edge(-area, -e.e20, -e.e12, short, long, d);
            }
        } else {
            let short = t.y1 - t.y0;
            let d = y - t.y0;
            if e.e20 >= 0 && e.e01 >= 0 {
                lemma_third_edge(area, e.e20, e.e01, short, long, d);
            }
            if e.e20 <= 0 && e.e01 <= 0 {
                assert((-area) * d == (-e.e20) * short + (-e.e01) * long) by (nonlinear_arith)
                    requires
                        area * d == e.e20 * short + e.e01 * long,
                ;
                lemma_third_edge(-area, -e.e20, -e.e01, short, long, d);
            }
        }
    }
}

/// The scanline sweep fills exactly the pixels of the closed triangle, as
/// the bounding box fill does.
pub proof fn lemma_sweep_is_closed_triangle(t: Triangle, x: int, y: int)
    ensures
        t.sweeps(x, y) == t.holds(x, y),
{
    lemma_holds_whatever_the_order(t, x, y);
    lemma_sweep_of_ordered(t.by_rows(), x, y);
}

/// The scanline sweep fills no pixel outside the bounding box of the
/// vertices.
pub proof fn lemma_sweep_in_box(t: Triangle, x: int, y: int)
    requires
        t.sweeps(x, y),
    ensures
        t.in_box(x, y),
{
    lemma_sweep_is_closed_triangle(t, x, y);
    lemma_triangle_in_box(t, x, y);
}

/// A crossing as the sweep holds it.
struct Cut {
    num: i128,
    den: i128,
}

impl Cut {
    spec fn model(self) -> Crossing {
        Crossing { num: self.num as int, den: self.den as int }
    }

    spec fn wf(self) -> bool {
        &&& 0 < self.den <= 0x1_0000_0000
        &&& -0x2_0000_0000_0000_0000 <= self.num <= 0x2_0000_0000_0000_0000
    }

    /// Where the edge from `(xa, ya)` down to `(xb, yb)` crosses row `y`.
    fn of(xa: i64, ya: i64, xb: i64, yb: i64, y: i64) -> (cut: Cut)
        requires
            small(xa as int),
            small(ya as int),
            small(xb as int),
            small(yb as int),
            ya < yb,
            ya <= y <= yb,
        ensures
            cut.wf(),
            cut.model() == Crossing::of(xa as int, ya as int, xb as int, yb as int, y as int),
    {
        let den = (yb - ya) as i128;
        let run = (xb - xa) as i128;
        let down = (y - ya) as i128;
        assert(-0x8000_0000_0000_0000 <= xa * den <= 0x8000_0000_0000_0000) by (nonlinear_arith)
            requires
                -0x8000_0000 <= xa <= 0x8000_0000,
                0 <= den <= 0x1_0000_0000,
        ;
        assert(-0x1_0000_0000_0000_0000 <= run * down <= 0x1_0000_0000_0000_0000)
            by (nonlinear_arith)
            requires
                -0x1_0000_0000 <= run <= 0x1_0000_0000,
                0 <= down <= 0x1_0000_0000,
        ;
        Cut { num: xa as i128 * den + run * down, den }
    }

    /// The first column at the crossing or right of it.
    fn first_column(&self) -> (x: i128)
        requires
            self.wf(),
        ensures
            x == ceil(self.num as int, self.den as int),
    {
        ceil_div(self.num, self.den)
    }

    /// The last column at the crossing or left of it.
    fn last_column(&self) -> (x: i128)
        requires
            self.wf(),
        ensures
            x == self.num as int / self.den as int,
    {
        floor_div(self.num, self.den)
    }

    /// Whether column `x` lies between this crossing and `other`.
    fn holds_between(&self, other: &Cut, x: i64) -> (inside: bool)
        requires
            self.wf(),
            other.wf(),
            0 <= x < 0x1_0000_0000,
        ensures
            inside == between(self.model(), other.model(), x as int),
    {
        assert(0 <= x * self.den <= 0x1_0000_0000_0000_0000) by (nonlinear_arith)
            requires
                0 <= x < 0x1_0000_0000,
                0 < self.den <= 0x1_0000_0000,
        ;
        assert(0 <= x * other.den <= 0x1_0000_0000_0000_0000) by (nonlinear_arith)
            requires
                0 <= x < 0x1_0000_0000,
                0 < other.den <= 0x1_0000_0000,
        ;
        let here = x as i128 * self.den;
        let there = x as i128 * other.den;
        (self.num <= here && there <= other.num) || (other.num <= there && here <= self.num)
    }
}

impl Corners {
    /// The corners in the order of their rows.
    fn by_rows(&self) -> (sorted: Corners)
        requires
            self.wf(),
        ensures
            sorted.wf(),
            sorted.model() == self.model().by_rows(),
    {
        let a = if self.y0 > self.y1 {
            Corners {
                x0: self.x1,
                y0: self.y1,
                x1: self.x0,
                y1: self.y0,
                x2: self.x2,
                y2: self.y2,
            }
        } else {
            Corners {
                x0: self.x0,
                y0: self.y0,
                x1: self.x1,
                y1: self.y1,
                x2: self.x2,
                y2: self.y2,
            }
        };
        let b = if a.y0 > a.y2 {
            Corners { x0: a.x2, y0: a.y2, x1: a.x1, y1: a.y1, x2: a.x0, y2: a.y0 }
        } else {
            a
        };
        if b.y1 > b.y2 {
            Corners { x0: b.x0, y0: b.y0, x1: b.x2, y1: b.y2, x2: b.x1, y2: b.y1 }
        } else {
            b
        }
    }
}

/// The columns of a row that the sweep fills lie between the first column
/// right of the left crossing and the last column left of the right one.
proof fn lemma_between_columns(a: Crossing, b: Crossing, x: int)
    requires
        a.den > 0,
        b.den > 0,
    ensures
        between(a, b, x) <==> (ceil(a.num, a.den) <= x <= b.num / b.den) || (ceil(b.num, b.den)
            <= x <= a.num / a.den),
{
    lemma_floor(a.num, a.den, x);
    lemma_floor(b.num, b.den, x);
    lemma_ceil(a.num, a.den, x);
    lemma_ceil(b.num, b.den, x);
}

/// Fills the triangle `c` row by row.
pub(crate) fn sweep(c: &Corners, image: &mut Image, color: Color)
    requires
        c.wf(),
    ensures
        final(image)@ == old(image)@.paint(|x: int, y: int| c.model().sweeps(x, y), color),
{
    let ghost before = image@;
    let width = image.width();
    let height = image.height();
    let s = c.by_rows();
    let ghost t = s.model();
    proof {
        image.lemma_view();
        lemma_holds_whatever_the_order(c.model(), 0, 0);
    }
    if s.area2() != 0 {
        proof {
            lemma_area_needs_rows(t);
        }
        let y_lo = if s.y0 < 0 {
            0
        } else {
            s.y0
        };
        let y_hi = if s.y2 >= height as i64 {
            height as i64 - 1
        } else {
            s.y2
        };
        let mut y = y_lo;
        while y <= y_hi
            invariant
                s.wf(),
                t == s.model(),
                t.is_by_rows(),
                t.area2() != 0,
                t.y0 < t.y2,
                0 <= y_lo,
                y_hi < height,
                y_lo == if t.y0 < 0 { 0 } else { t.y0 },
                y_hi == if t.y2 >= height { height - 1 } else { t.y2 },
                y_lo <= y,
                y_lo <= y_hi ==> y <= y_hi + 1,
                before.wf(),
                image@.wf(),
                image@.width == before.width == width,
                image@.height == before.height == height,
                forall|px: int, py: int|
                    before.contains(px, py) ==> #[trigger] image@.at(px, py) == if t.in_sweep(
                        px,
                        py,
                    ) && py < y {
                        color
                    } else {
                        before.at(px, py)
                    },
            decreases y_hi + 1 - y,
        {
            let long = Cut::of(s.x0, s.y0, s.x2, s.y2, y);
            let short = if y > s.y1 || s.y1 == s.y0 {
                Cut::of(s.x1, s.y1, s.x2, s.y2, y)
            } else {
                Cut::of(s.x0, s.y0, s.x1, s.y1, y)
            };
            let long_first = long.first_column();
            let short_first = short.first_column();
            let long_last = long.last_column();
            let short_last = short.last_column();
            let left = if long_first < short_first {
                long_first
            } else {
                short_first
            };
            let right = if long_last > short_last {
                long_last
            } else {
                short_last
            };
            let x_lo: i64 = if left < 0 {
                0
            } else if left > width as i128 {
                width as i64
            } else {
                left as i64
            };
            let x_hi: i64 = if right >= width as i128 {
                width as i64 - 1
            } else if right < -1 {
                -1
            } else {
                right as i64
            };
            proof {
                assert(long.model() == t.long_crossing(y as int));
                assert(short.model() == t.short_crossing(y as int));
                assert forall|px: int| 0 <= px < width && t.in_sweep(px, y as int) implies x_lo
                    <= px <= x_hi by {
                    lemma_between_columns(long.model(), short.model(), px);
                }
            }
            let mut x = x_lo;
            while x <= x_hi
                invariant
                    s.wf(),
                    t == s.model(),
                    t.is_by_rows(),
                    t.area2() != 0,
                    t.y0 < t.y2,
                    t.y0 <= y <= t.y2,
                    0 <= y < height,
                    long.wf(),
                    short.wf(),
                    long.model() == t.long_crossing(y as int),
                    short.model() == t.short_crossing(y as int),
                    0 <= x_lo <= x,
                    x_hi < width,
                    x_lo <= x_hi ==> x <= x_hi + 1,
                    forall|px: int|
                        0 <= px < width && t.in_sweep(px, y as int) ==> x_lo <= px <= x_hi,
                    before.wf(),
                    image@.wf(),
                    image@.width == before.width == width,
                    image@.height == before.height == height,
                    forall|px: int, py: int|
                        before.contains(px, py) ==> #[trigger] image@.at(px, py) == if t.in_sweep(
                            px,
                            py,
                        ) && (py < y || (py == y && px < x)) {
                            color
                        } else {
                            before.at(px, py)
                        },
                decreases x_hi + 1 - x,
            {
                let ghost painted = image@;
                if long.holds_between(&short, x) {
                    image.set(x as u32, y as u32, color);
                }
                proof {
                    image.lemma_view();
                    assert forall|px: int, py: int|
                        before.contains(px, py) implies #[trigger] image@.at(px, py)
                        == if t.in_sweep(px, py) && (py < y || (py == y && px < x + 1)) {
                        color
                    } else {
                        before.at(px, py)
                    } by {
                        lemma_set_at(painted, x as int, y as int, color, px, py);
                    }
                }
                x += 1;
            }
            y += 1;
        }
    }
    proof {
        let mask = |px: int, py: int| c.model().sweeps(px, py);
        let target = before.paint(mask, color);
        assert forall|px: int, py: int| image@.contains(px, py) implies image@.at(px, py)
            == target.at(px, py) by {
            lemma_paint_at(before, mask, color, px, py);
        }
        lemma_grid_ext(image@, target);
    }
}

} // verus!
