//! Filled triangles, by one of three interchangeable strategies.

use crate::color::Color;
use crate::grid::lemma_paint_same;
use crate::image::Image;
use crate::sweep::{lemma_sweep_in_box, lemma_sweep_is_closed_triangle, sweep};
use crate::triangle::{
    ccw, in_triangle, lemma_fill_rules_agree, lemma_flat_triangle_is_empty, lemma_triangle_in_box,
    scan, Corners, Triangle,
};
use crate::vec::Vec2;
use vstd::prelude::*;

verus! {

/// How the pixels of a triangle are chosen.
#[derive(Debug, Clone, Copy, PartialEq, Eq, Structural)]
pub enum FillStrategy {
    /// Every pixel of the bounding box whose barycentric weights are all
    /// zero or more: the interior and the edges.
    BoundingBoxBarycentric,
    /// Every pixel at which the three edge functions have one strict sign:
    /// the interior without the edges.
    HalfPlaneSign,
    /// Row by row, every pixel between the crossings of two edges with the
    /// row: the interior and the edges of a triangle with an area.
    ScanlineSweep,
}

impl Default for FillStrategy {
    fn default() -> (strategy: Self)
        ensures
            strategy == FillStrategy::BoundingBoxBarycentric,
    {
        FillStrategy::BoundingBoxBarycentric
    }
}

impl Triangle {
    /// Whether `strategy` fills the pixel `(x, y)`.
    pub open spec fn covers(self, strategy: FillStrategy, x: int, y: int) -> bool {
        match strategy {
            FillStrategy::BoundingBoxBarycentric => self.holds(x, y),
            FillStrategy::HalfPlaneSign => self.holds_strictly(x, y),
            FillStrategy::ScanlineSweep => self.sweeps(x, y),
        }
    }

    /// Whether the pixel `(x, y)` lies on the line through one of the edges.
    pub open spec fn on_edge_line(self, x: int, y: int) -> bool {
        ||| ccw(self.x0, self.y0, self.x1, self.y1, x, y) == 0
        ||| ccw(self.x1, self.y1, self.x2, self.y2, x, y) == 0
        ||| ccw(self.x2, self.y2, self.x0, self.y0, x, y) == 0
    }
}

/// The three strategies fill the same pixels, but for ties on the edges:
/// the bounding box fill and the scanline sweep fill the same pixels, the
/// half-plane fill fills none but theirs, and what it leaves out of theirs
/// lies on the line through an edge. A triangle without area has no pixels
/// under any of them.
pub proof fn lemma_strategies_agree(t: Triangle, x: int, y: int)
    ensures
        t.covers(FillStrategy::ScanlineSweep, x, y) == t.covers(
            FillStrategy::BoundingBoxBarycentric,
            x,
            y,
        ),
        t.covers(FillStrategy::HalfPlaneSign, x, y) ==> t.covers(
            FillStrategy::BoundingBoxBarycentric,
            x,
            y,
        ),
        t.covers(FillStrategy::BoundingBoxBarycentric, x, y) && !t.covers(
            FillStrategy::HalfPlaneSign,
            x,
            y,
        ) ==> t.on_edge_line(x, y),
        t.area2() == 0 ==> !t.covers(FillStrategy::BoundingBoxBarycentric, x, y) && !t.covers(
            FillStrategy::HalfPlaneSign,
            x,
            y,
        ) && !t.covers(FillStrategy::ScanlineSweep, x, y),
{
    lemma_sweep_is_closed_triangle(t, x, y);
    lemma_fill_rules_agree(t, x, y);
    if t.area2() == 0 {
        lemma_flat_triangle_is_empty(t, x, y);
    }
}

/// No strategy fills a pixel outside the bounding box of the vertices.
pub proof fn lemma_fill_stays_in_box(t: Triangle, strategy: FillStrategy, x: int, y: int)
    requires
        t.covers(strategy, x, y),
    ensures
        t.in_box(x, y),
{
    match strategy {
        FillStrategy::BoundingBoxBarycentric => {
            lemma_triangle_in_box(t, x, y);
        },
        FillStrategy::HalfPlaneSign => {
            lemma_fill_rules_agree(t, x, y);
            lemma_triangle_in_box(t, x, y);
        },
        FillStrategy::ScanlineSweep => {
            lemma_sweep_in_box(t, x, y);
        },
    }
}

/// Fills the triangle `pts` with `color`, choosing its pixels by `strategy`.
/// Pixels outside the buffer are passed over, and a triangle without area has
/// no pixels.
pub fn fill_triangle(strategy: FillStrategy, pts: [Vec2<i32>; 3], image: &mut Image, color: Color)
    ensures
        final(image)@ == old(image)@.paint(
            |x: int, y: int| Triangle::of(pts).covers(strategy, x, y),
            color,
        ),
{
    let c = Corners::of(&pts);
    proof {
        image.lemma_view();
    }
    match strategy {
        FillStrategy::BoundingBoxBarycentric => {
            proof {
                lemma_paint_same(
                    image@,
                    |x: int, y: int| c.model().holds_by(false, x, y),
                    |x: int, y: int| Triangle::of(pts).covers(strategy, x, y),
                    color,
                );
            }
            scan(false, &c, image, color);
        },
        FillStrategy::HalfPlaneSign => {
            proof {
                lemma_paint_same(
                    image@,
                    |x: int, y: int| c.model().holds_by(true, x, y),
                    |x: int, y: int| Triangle::of(pts).covers(strategy, x, y),
                    color,
                );
            }
            scan(true, &c, image, color);
        },
        FillStrategy::ScanlineSweep => {
            proof {
                lemma_paint_same(
                    image@,
                    |x: int, y: int| c.model().sweeps(x, y),
                    |x: int, y: int| Triangle::of(pts).covers(strategy, x, y),
                    color,
                );
            }
            sweep(&c, image, color);
        },
    }
}

/// Fills the closed triangle `pts` with `color`: every pixel of the bounding
/// box of the vertices whose barycentric weights are all zero or more.
/// Pixels outside the buffer are passed over, and a triangle without area has
/// no pixels.
pub fn triangle(pts: [Vec2<i32>; 3], image: &mut Image, color: Color)
    ensures
        final(image)@ == old(image)@.paint(|x: int, y: int| in_triangle(pts, x, y), color),
{
    let c = Corners::of(&pts);
    proof {
        image.lemma_view();
        lemma_paint_same(
            image@,
            |x: int, y: int| c.model().holds_by(false, x, y),
            |x: int, y: int| in_triangle(pts, x, y),
            color,
        );
    }
    scan(false, &c, image, color);
}

} // verus!
