//! The mathematical model of the buffers: a grid of cells stored row by row.

use vstd::arithmetic::div_mod::{lemma_fundamental_div_mod, lemma_fundamental_div_mod_converse};
use vstd::prelude::*;

verus! {

/// The mathematical model of a buffer with one cell per pixel: `width`
/// columns, `height` rows, and the cells row by row, so that the cell of
/// column `x` in row `y` has index `y * width + x`.
pub struct Grid<T> {
    pub width: nat,
    pub height: nat,
    pub cells: Seq<T>,
}

impl<T> Grid<T> {
    /// There is exactly one cell per position.
    pub open spec fn wf(self) -> bool {
        self.cells.len() == self.width * self.height
    }

    /// Whether column `x` of row `y` lies in the grid.
    pub open spec fn contains(self, x: int, y: int) -> bool {
        0 <= x < self.width && 0 <= y < self.height
    }

    /// The cell at column `x` of row `y`.
    pub open spec fn at(self, x: int, y: int) -> T {
        self.cells[y * self.width + x]
    }

    /// The grid of the given size with every cell holding `value`.
    pub open spec fn filled(width: nat, height: nat, value: T) -> Grid<T> {
        Grid { width, height, cells: Seq::new(width * height, |i: int| value) }
    }

    /// The grid with `value` written at `(x, y)`; a position outside the grid
    /// changes nothing.
    pub open spec fn set(self, x: int, y: int, value: T) -> Grid<T> {
        if self.contains(x, y) {
            Grid { cells: self.cells.update(y * self.width + x, value), ..self }
        } else {
            self
        }
    }

    /// The grid that holds `value(x, y)` at every position `(x, y)` that
    /// `mask` holds of; the other cells are kept.
    pub open spec fn overlay(
        self,
        mask: spec_fn(int, int) -> bool,
        value: spec_fn(int, int) -> T,
    ) -> Grid<T> {
        Grid {
            cells: Seq::new(
                self.cells.len(),
                |i: int|
                    if mask(i % (self.width as int), i / (self.width as int)) {
                        value(i % (self.width as int), i / (self.width as int))
                    } else {
                        self.cells[i]
                    },
            ),
            ..self
        }
    }

    /// The grid with `value` at every position that `mask` holds of; the other
    /// cells are kept.
    pub open spec fn paint(self, mask: spec_fn(int, int) -> bool, value: T) -> Grid<T> {
        self.overlay(mask, |x: int, y: int| value)
    }

    /// The grid with its rows in reverse order.
    pub open spec fn flip_vertically(self) -> Grid<T> {
        Grid {
            cells: Seq::new(
                self.cells.len(),
                |i: int|
                    self.at(i % (self.width as int), self.height - 1 - i / (self.width as int)),
            ),
            ..self
        }
    }

    /// The grid with the columns of every row in reverse order.
    pub open spec fn flip_horizontally(self) -> Grid<T> {
        Grid {
            cells: Seq::new(
                self.cells.len(),
                |i: int|
                    self.at(self.width - 1 - i % (self.width as int), i / (self.width as int)),
            ),
            ..self
        }
    }
}

/// A position inside a grid has an index inside its cells.
pub proof fn lemma_index_in_range(x: int, y: int, width: int, height: int)
    requires
        0 <= x < width,
        0 <= y < height,
    ensures
        0 <= y * width + x < width * height,
        (y * width + x) / width == y,
        (y * width + x) % width == x,
{
    assert(0 <= y * width && y * width + width <= width * height) by (nonlinear_arith)
        requires
            0 <= y < height,
            0 < width,
    ;
    lemma_fundamental_div_mod_converse(y * width + x, width, y, x);
}

/// An index inside the cells of a grid belongs to a position inside it.
pub proof fn lemma_position_in_range(i: int, width: int, height: int)
    requires
        0 <= i < width * height,
        0 < width,
    ensures
        0 <= i % width < width,
        0 <= i / width < height,
        (i / width) * width + i % width == i,
{
    lemma_fundamental_div_mod(i, width);
    assert(0 <= i / width < height) by (nonlinear_arith)
        requires
            0 <= i < width * height,
            0 < width,
            i == width * (i / width) + i % width,
            0 <= i % width < width,
    ;
    assert((i / width) * width == width * (i / width)) by (nonlinear_arith);
}

/// Two well-formed grids of one size that agree at every position are equal.
pub proof fn lemma_grid_ext<T>(a: Grid<T>, b: Grid<T>)
    requires
        a.wf(),
        b.wf(),
        a.width == b.width,
        a.height == b.height,
        forall|x: int, y: int| a.contains(x, y) ==> a.at(x, y) == b.at(x, y),
    ensures
        a == b,
{
    assert forall|i: int| 0 <= i < a.cells.len() implies a.cells[i] == b.cells[i] by {
        if a.width > 0 {
            lemma_position_in_range(i, a.width as int, a.height as int);
            let x = i % (a.width as int);
            let y = i / (a.width as int);
            assert(a.contains(x, y));
            assert(a.at(x, y) == b.at(x, y));
        } else {
            assert(a.width * a.height == 0) by (nonlinear_arith)
                requires
                    a.width == 0,
            ;
        }
    }
    assert(a.cells =~= b.cells);
}

/// Writing a pixel changes that pixel and no other.
pub proof fn lemma_set_at<T>(g: Grid<T>, x: int, y: int, value: T, px: int, py: int)
    requires
        g.wf(),
        g.contains(px, py),
    ensures
        g.set(x, y, value).wf(),
        g.set(x, y, value).width == g.width,
        g.set(x, y, value).height == g.height,
        g.set(x, y, value).at(px, py) == if px == x && py == y {
            value
        } else {
            g.at(px, py)
        },
{
    lemma_index_in_range(px, py, g.width as int, g.height as int);
    if g.contains(x, y) {
        lemma_index_in_range(x, y, g.width as int, g.height as int);
    }
}

/// An overlay changes the positions under the mask and no other.
pub proof fn lemma_overlay_at<T>(
    g: Grid<T>,
    mask: spec_fn(int, int) -> bool,
    value: spec_fn(int, int) -> T,
    x: int,
    y: int,
)
    requires
        g.wf(),
        g.contains(x, y),
    ensures
        g.overlay(mask, value).wf(),
        g.overlay(mask, value).at(x, y) == if mask(x, y) {
            value(x, y)
        } else {
            g.at(x, y)
        },
{
    lemma_index_in_range(x, y, g.width as int, g.height as int);
}

/// Painting changes the positions under the mask and no other.
pub proof fn lemma_paint_at<T>(g: Grid<T>, mask: spec_fn(int, int) -> bool, value: T, x: int, y: int)
    requires
        g.wf(),
        g.contains(x, y),
    ensures
        g.paint(mask, value).wf(),
        g.paint(mask, value).at(x, y) == if mask(x, y) {
            value
        } else {
            g.at(x, y)
        },
{
    lemma_overlay_at(g, mask, |x: int, y: int| value, x, y);
}

/// Two masks that hold of the same positions, with values that agree under
/// them, give the same overlay.
pub proof fn lemma_overlay_same<T>(
    g: Grid<T>,
    first: spec_fn(int, int) -> bool,
    first_value: spec_fn(int, int) -> T,
    second: spec_fn(int, int) -> bool,
    second_value: spec_fn(int, int) -> T,
)
    requires
        g.wf(),
        forall|x: int, y: int| g.contains(x, y) ==> first(x, y) == second(x, y),
        forall|x: int, y: int|
            g.contains(x, y) && first(x, y) ==> first_value(x, y) == second_value(x, y),
    ensures
        g.overlay(first, first_value) == g.overlay(second, second_value),
{
    assert forall|i: int| 0 <= i < g.cells.len() implies g.overlay(first, first_value).cells[i]
        == g.overlay(second, second_value).cells[i] by {
        if g.width > 0 {
            lemma_position_in_range(i, g.width as int, g.height as int);
            assert(g.contains(i % (g.width as int), i / (g.width as int)));
        } else {
            assert(g.width * g.height == 0) by (nonlinear_arith)
                requires
                    g.width == 0,
            ;
        }
    }
    assert(g.overlay(first, first_value).cells =~= g.overlay(second, second_value).cells);
}

/// Two masks that hold of the same positions paint the same grid.
pub proof fn lemma_paint_same<T>(
    g: Grid<T>,
    first: spec_fn(int, int) -> bool,
    second: spec_fn(int, int) -> bool,
    value: T,
)
    requires
        g.wf(),
        forall|x: int, y: int| g.contains(x, y) ==> first(x, y) == second(x, y),
    ensures
        g.paint(first, value) == g.paint(second, value),
{
    assert forall|i: int| 0 <= i < g.cells.len() implies g.paint(first, value).cells[i] == g.paint(
        second,
        value,
    ).cells[i] by {
        if g.width > 0 {
            lemma_position_in_range(i, g.width as int, g.height as int);
            assert(g.contains(i % (g.width as int), i / (g.width as int)));
        } else {
            assert(g.width * g.height == 0) by (nonlinear_arith)
                requires
                    g.width == 0,
            ;
        }
    }
    assert(g.paint(first, value).cells =~= g.paint(second, value).cells);
}

/// Reading a cell that was just written gives the value written.
pub proof fn lemma_set_then_get<T>(g: Grid<T>, x: int, y: int, value: T)
    requires
        g.wf(),
        g.contains(x, y),
    ensures
        g.set(x, y, value).at(x, y) == value,
{
    lemma_set_at(g, x, y, value, x, y);
}

/// The vertical flip moves row `y` to row `height - 1 - y`.
pub proof fn lemma_flip_vertically_at<T>(g: Grid<T>, x: int, y: int)
    requires
        g.wf(),
        g.contains(x, y),
    ensures
        g.flip_vertically().wf(),
        g.flip_vertically().at(x, y) == g.at(x, g.height - 1 - y),
{
    lemma_index_in_range(x, y, g.width as int, g.height as int);
}

/// The horizontal flip moves column `x` to column `width - 1 - x`.
pub proof fn lemma_flip_horizontally_at<T>(g: Grid<T>, x: int, y: int)
    requires
        g.wf(),
        g.contains(x, y),
    ensures
        g.flip_horizontally().wf(),
        g.flip_horizontally().at(x, y) == g.at(g.width - 1 - x, y),
{
    lemma_index_in_range(x, y, g.width as int, g.height as int);
}

/// Flipping a buffer vertically twice gives the buffer back.
pub proof fn lemma_flip_vertically_involution<T>(g: Grid<T>)
    requires
        g.wf(),
    ensures
        g.flip_vertically().flip_vertically() == g,
{
    let f = g.flip_vertically();
    let ff = f.flip_vertically();
    assert forall|x: int, y: int| ff.contains(x, y) implies ff.at(x, y) == g.at(x, y) by {
        lemma_flip_vertically_at(f, x, y);
        lemma_flip_vertically_at(g, x, g.height - 1 - y);
    }
    lemma_grid_ext(ff, g);
}

/// Flipping a buffer horizontally twice gives the buffer back.
pub proof fn lemma_flip_horizontally_involution<T>(g: Grid<T>)
    requires
        g.wf(),
    ensures
        g.flip_horizontally().flip_horizontally() == g,
{
    let f = g.flip_horizontally();
    let ff = f.flip_horizontally();
    assert forall|x: int, y: int| ff.contains(x, y) implies ff.at(x, y) == g.at(x, y) by {
        lemma_flip_horizontally_at(f, x, y);
        lemma_flip_horizontally_at(g, g.width - 1 - x, y);
    }
    lemma_grid_ext(ff, g);
}

} // verus!
