//! Straight lines on the pixel grid.

use crate::arith::lemma_floor;
use crate::color::Color;
use crate::grid::{lemma_grid_ext, lemma_paint_at, lemma_set_at, Grid};
use crate::image::Image;
use crate::vec::Vec2;
use vstd::arithmetic::div_mod::{lemma_fundamental_div_mod, lemma_fundamental_div_mod_converse};
use vstd::prelude::*;

verus! {

/// The distance of `v` from zero.
pub open spec fn abs(v: int) -> int {
    if v < 0 {
        -v
    } else {
        v
    }
}

/// How far a line has moved along its minor axis after `k` unit steps along
/// its major axis, when it covers `rise` on the minor axis over `run` on the
/// major axis: the integer nearest to `k * rise / run`, an exact half rounded
/// down.
pub open spec fn minor_steps(k: int, rise: int, run: int) -> int {
    if run == 0 {
        0
    } else {
        (2 * (rise * k) + run - 1) / (2 * run)
    }
}

/// A line laid along its major axis, the axis on which its end points lie
/// further apart, and ordered so that it starts at the smaller major
/// coordinate.
pub struct Run {
    /// Whether the major axis is the y axis.
    pub steep: bool,
    /// The major coordinate of the first pixel.
    pub start: int,
    /// The minor coordinate of the first pixel.
    pub from: int,
    /// The major coordinate of the last pixel.
    pub end: int,
    /// The minor coordinate of the last pixel.
    pub to: int,
}

impl Run {
    /// The run of the line between `(x0, y0)` and `(x1, y1)`.
    pub open spec fn between(x0: int, y0: int, x1: int, y1: int) -> Run {
        let steep = abs(x0 - x1) < abs(y0 - y1);
        let (a0, b0, a1, b1) = if steep {
            (y0, x0, y1, x1)
        } else {
            (x0, y0, x1, y1)
        };
        if a0 > a1 {
            Run { steep, start: a1, from: b1, end: a0, to: b0 }
        } else {
            Run { steep, start: a0, from: b0, end: a1, to: b1 }
        }
    }

    /// The minor coordinate of the pixel at major coordinate `a`.
    pub open spec fn minor_at(self, a: int) -> int {
        let steps = minor_steps(a - self.start, abs(self.to - self.from), self.end - self.start);
        if self.to > self.from {
            self.from + steps
        } else {
            self.from - steps
        }
    }

    /// The major coordinate of the position `(x, y)`.
    pub open spec fn major_of(self, x: int, y: int) -> int {
        if self.steep {
            y
        } else {
            x
        }
    }

    /// The minor coordinate of the position `(x, y)`.
    pub open spec fn minor_of(self, x: int, y: int) -> int {
        if self.steep {
            x
        } else {
            y
        }
    }

    /// Whether the pixel `(x, y)` belongs to the line.
    pub open spec fn covers(self, x: int, y: int) -> bool {
        &&& self.start <= self.major_of(x, y) <= self.end
        &&& self.minor_of(x, y) == self.minor_at(self.major_of(x, y))
    }
}

/// Whether the pixel `(x, y)` belongs to the line between `v0` and `v1`.
pub open spec fn on_line(v0: Vec2<isize>, v1: Vec2<isize>, x: int, y: int) -> bool {
    Run::between(v0.0 as int, v0.1 as int, v1.0 as int, v1.1 as int).covers(x, y)
}

/// An error term within half a step of the ideal line fixes the number of
/// minor steps taken.
proof fn lemma_steps_from_error(k: int, rise: int, run: int, n: int, error: int)
    requires
        0 < run,
        error == 2 * (rise * k) - 2 * (run * n),
        -run < error <= run,
    ensures
        n == minor_steps(k, rise, run),
{
    assert(2 * (rise * k) + run - 1 == n * (2 * run) + (error + run - 1)) by (nonlinear_arith)
        requires
            error == 2 * (rise * k) - 2 * (run * n),
    ;
    lemma_fundamental_div_mod_converse(
        2 * (rise * k) + run - 1,
        2 * run,
        n,
        error + run - 1,
    );
}

fn put(image: &mut Image, x: i128, y: i128, color: Color)
    ensures
        final(image)@ == old(image)@.set(x as int, y as int, color),
{
    proof {
        image.lemma_view();
    }
    if 0 <= x && x <= u32::MAX as i128 && 0 <= y && y <= u32::MAX as i128 {
        image.set(x as u32, y as u32, color);
    }
}

/// Draws the line between `v0` and `v1` in `color`: one pixel for every
/// coordinate on the major axis between the two end points, at the minor
/// coordinate nearest to the ideal line. Pixels outside the buffer are passed
/// over.
pub fn line(v0: Vec2<isize>, v1: Vec2<isize>, image: &mut Image, color: Color)
    ensures
        final(image)@ == old(image)@.paint(|x: int, y: int| on_line(v0, v1, x, y), color),
{
    let x0 = v0.0 as i128;
    let y0 = v0.1 as i128;
    let x1 = v1.0 as i128;
    let y1 = v1.1 as i128;
    let width_x = if x0 < x1 { x1 - x0 } else { x0 - x1 };
    let width_y = if y0 < y1 { y1 - y0 } else { y0 - y1 };
    let steep = width_x < width_y;
    let (a0, b0, a1, b1) = if steep {
        (y0, x0, y1, x1)
    } else {
        (x0, y0, x1, y1)
    };
    let (a0, b0, a1, b1) = if a0 > a1 {
        (a1, b1, a0, b0)
    } else {
        (a0, b0, a1, b1)
    };
    let run = a1 - a0;
    let rise = if b0 < b1 { b1 - b0 } else { b0 - b1 };
    let ghost before = image@;
    let ghost r = Run::between(x0 as int, y0 as int, x1 as int, y1 as int);
    proof {
        image.lemma_view();
        assert(r == Run { steep, start: a0 as int, from: b0 as int, end: a1 as int, to: b1 as int });
    }
    let derror2 = rise * 2;
    let mut error2: i128 = 0;
    let mut b = b0;
    let mut a = a0;
    let ghost mut n: int = 0;
    while a <= a1
        invariant
            r == (Run { steep, start: a0 as int, from: b0 as int, end: a1 as int, to: b1 as int }),
            isize::MIN <= a0 <= a1 <= isize::MAX,
            isize::MIN <= b0 <= isize::MAX,
            isize::MIN <= b1 <= isize::MAX,
            run == a1 - a0,
            rise == abs(b1 - b0),
            0 <= rise <= run,
            derror2 == 2 * rise,
            a0 <= a <= a1 + 1,
            0 <= n <= a - a0,
            b == if b1 > b0 { b0 + n } else { b0 - n },
            error2 == 2 * (rise * (a - a0)) - 2 * (run * n),
            -run < error2 <= run || (error2 == 0 && n == 0),
            before.wf(),
            image@.wf(),
            image@.width == before.width,
            image@.height == before.height,
            forall|x: int, y: int|
                before.contains(x, y) ==> #[trigger] image@.at(x, y) == if r.covers(x, y)
                    && r.major_of(x, y) < a {
                    color
                } else {
                    before.at(x, y)
                },
        decreases a1 + 1 - a,
    {
        proof {
            if run > 0 {
                if error2 == 0 && n == 0 {
                    assert(rise * (a - a0) == 0);
                }
                lemma_steps_from_error(a - a0, rise as int, run as int, n, error2 as int);
            } else {
                assert(n == 0);
            }
            assert(b == r.minor_at(a as int));
        }
        let ghost painted = image@;
        if steep {
            put(image, b, a, color);
        } else {
            put(image, a, b, color);
        }
        proof {
            let px: int = if steep { b as int } else { a as int };
            let py: int = if steep { a as int } else { b as int };
            image.lemma_view();
            assert(image@ == painted.set(px, py, color));
            assert(r.covers(px, py));
            assert forall|x: int, y: int| before.contains(x, y) implies #[trigger] image@.at(x, y)
                == if r.covers(x, y) && r.major_of(x, y) < a + 1 {
                color
            } else {
                before.at(x, y)
            } by {
                lemma_set_at(painted, px, py, color, x, y);
            }
            assert(rise * (a + 1 - a0) == rise * (a - a0) + rise) by (nonlinear_arith);
            assert(run * (n + 1) == run * n + run) by (nonlinear_arith);
            assert(0 <= rise * (a - a0)) by (nonlinear_arith)
                requires
                    0 <= rise,
                    0 <= a - a0,
            ;
        }
        error2 += derror2;
        if error2 > run {
            b = if b1 > b0 {
                b + 1
            } else {
                b - 1
            };
            error2 -= run * 2;
            proof {
                n = n + 1;
            }
        }
        a += 1;
    }
    proof {
        let mask = |x: int, y: int| on_line(v0, v1, x, y);
        let target = before.paint(mask, color);
        assert forall|x: int, y: int| image@.contains(x, y) implies image@.at(x, y) == target.at(
            x,
            y,
        ) by {
            lemma_paint_at(before, mask, color, x, y);
        }
        lemma_grid_ext(image@, target);
    }
}

/// The run of a line does not depend on the order of its end points.
pub proof fn lemma_run_symmetric(x0: int, y0: int, x1: int, y1: int)
    ensures
        Run::between(x0, y0, x1, y1) == Run::between(x1, y1, x0, y0),
{
}

/// A line drawn from `v0` to `v1` and the line drawn from `v1` to `v0` hold
/// the same pixels.
pub proof fn lemma_line_symmetric(v0: Vec2<isize>, v1: Vec2<isize>)
    ensures
        forall|x: int, y: int| on_line(v0, v1, x, y) == on_line(v1, v0, x, y),
{
    lemma_run_symmetric(v0.0 as int, v0.1 as int, v1.0 as int, v1.1 as int);
}

/// Drawing a line from `v0` to `v1` and drawing it from `v1` to `v0` give the
/// same buffer.
pub proof fn lemma_line_symmetric_on(g: Grid<Color>, v0: Vec2<isize>, v1: Vec2<isize>, color: Color)
    ensures
        g.paint(|x: int, y: int| on_line(v0, v1, x, y), color) == g.paint(
            |x: int, y: int| on_line(v1, v0, x, y),
            color,
        ),
{
    lemma_line_symmetric(v0, v1);
    let forth = g.paint(|x: int, y: int| on_line(v0, v1, x, y), color);
    let back = g.paint(|x: int, y: int| on_line(v1, v0, x, y), color);
    assert(forth.cells =~= back.cells);
}

/// The minor axis is the one on which the end points lie closer: a run never
/// rises more than it runs.
pub proof fn lemma_run_is_flat(x0: int, y0: int, x1: int, y1: int)
    ensures
        ({
            let r = Run::between(x0, y0, x1, y1);
            r.start <= r.end && abs(r.to - r.from) <= r.end - r.start
        }),
{
}

/// A line starts and ends on its end points.
pub proof fn lemma_line_holds_end_points(v0: Vec2<isize>, v1: Vec2<isize>)
    ensures
        on_line(v0, v1, v0.0 as int, v0.1 as int),
        on_line(v0, v1, v1.0 as int, v1.1 as int),
{
    let r = Run::between(v0.0 as int, v0.1 as int, v1.0 as int, v1.1 as int);
    let run = r.end - r.start;
    let rise = abs(r.to - r.from);
    lemma_run_is_flat(v0.0 as int, v0.1 as int, v1.0 as int, v1.1 as int);
    if run > 0 {
        assert(rise * 0 == 0);
        lemma_steps_from_error(0, rise, run, 0, 0);
        assert(2 * (rise * run) - 2 * (run * rise) == 0) by (nonlinear_arith);
        lemma_steps_from_error(run, rise, run, rise, 0);
    }
    assert(r.minor_at(r.start) == r.from);
    assert(r.minor_at(r.end) == r.to);
}

/// A line has exactly one pixel for every coordinate on its major axis
/// between its end points, and none elsewhere.
pub proof fn lemma_line_one_pixel_per_step(v0: Vec2<isize>, v1: Vec2<isize>, a: int)
    ensures
        ({
            let r = Run::between(v0.0 as int, v0.1 as int, v1.0 as int, v1.1 as int);
            forall|x: int, y: int|
                r.major_of(x, y) == a ==> (on_line(v0, v1, x, y) <==> r.start <= a <= r.end
                    && r.minor_of(x, y) == r.minor_at(a))
        }),
{
}

/// From one step along the major axis to the next, a line stays on its minor
/// coordinate or moves by one towards its end: it has no gaps.
pub proof fn lemma_line_is_connected(v0: Vec2<isize>, v1: Vec2<isize>, a: int)
    requires
        Run::between(v0.0 as int, v0.1 as int, v1.0 as int, v1.1 as int).start <= a,
        a < Run::between(v0.0 as int, v0.1 as int, v1.0 as int, v1.1 as int).end,
    ensures
        ({
            let r = Run::between(v0.0 as int, v0.1 as int, v1.0 as int, v1.1 as int);
            let step = r.minor_at(a + 1) - r.minor_at(a);
            if r.to > r.from {
                step == 0 || step == 1
            } else {
                step == 0 || step == -1
            }
        }),
{
    let r = Run::between(v0.0 as int, v0.1 as int, v1.0 as int, v1.1 as int);
    let run = r.end - r.start;
    let rise = abs(r.to - r.from);
    let k = a - r.start;
    lemma_run_is_flat(v0.0 as int, v0.1 as int, v1.0 as int, v1.1 as int);
    let x = 2 * (rise * k) + run - 1;
    let q = x / (2 * run);
    let m = x % (2 * run);
    lemma_fundamental_div_mod(x, 2 * run);
    assert(rise * (k + 1) == rise * k + rise) by (nonlinear_arith);
    let next = 2 * (rise * (k + 1)) + run - 1;
    assert((2 * run) * q == q * (2 * run)) by (nonlinear_arith);
    if m + 2 * rise < 2 * run {
        lemma_fundamental_div_mod_converse(
            next,
            2 * run,
            q,
            m + 2 * rise,
        );
    } else {
        assert((q + 1) * (2 * run) == q * (2 * run) + 2 * run) by (nonlinear_arith);
        lemma_fundamental_div_mod_converse(
            next,
            2 * run,
            q + 1,
            m + 2 * rise - 2 * run,
        );
    }
}

/// A line never leaves the bounding box of its end points.
pub proof fn lemma_line_in_box(v0: Vec2<isize>, v1: Vec2<isize>, x: int, y: int)
    requires
        on_line(v0, v1, x, y),
    ensures
        v0.0 <= x <= v1.0 || v1.0 <= x <= v0.0,
        v0.1 <= y <= v1.1 || v1.1 <= y <= v0.1,
{
    let r = Run::between(v0.0 as int, v0.1 as int, v1.0 as int, v1.1 as int);
    let run = r.end - r.start;
    let rise = abs(r.to - r.from);
    let k = r.major_of(x, y) - r.start;
    lemma_run_is_flat(v0.0 as int, v0.1 as int, v1.0 as int, v1.1 as int);
    if run > 0 {
        let top = 2 * (rise * k) + run - 1;
        assert(0 <= rise * k <= rise * run) by (nonlinear_arith)
            requires
                0 <= rise,
                0 <= k <= run,
        ;
        assert(rise * (2 * run) == 2 * (rise * run)) by (nonlinear_arith);
        lemma_floor(top, 2 * run, rise + 1);
        assert((rise + 1) * (2 * run) == rise * (2 * run) + 2 * run) by (nonlinear_arith);
        lemma_floor(top, 2 * run, 0);
    }
    assert(0 <= minor_steps(k, rise, run) <= rise);
}

} // verus!
