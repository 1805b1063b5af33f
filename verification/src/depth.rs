//! The depth buffer: one depth per pixel, the nearest drawn so far.

use crate::grid::{lemma_index_in_range, Grid};
use crate::image::{coord_to_idx, Error, Image};
use vstd::prelude::*;

verus! {

/// A depth buffer: `width` columns and `height` rows of depths, none of the
/// two zero, stored row by row. A larger depth is nearer to the viewer, and
/// a cell that nothing was drawn to holds `DepthBuffer::EMPTY`.
#[derive(Debug)]
pub struct DepthBuffer {
    width: u32,
    height: u32,
    data: Vec<i64>,
}

impl View for DepthBuffer {
    type V = Grid<i64>;

    closed spec fn view(&self) -> Grid<i64> {
        Grid {
            width: self.width as nat,
            height: self.height as nat,
            cells: Seq::new(self.width as nat * self.height as nat, |i: int| self.data@[i]),
        }
    }
}

impl DepthBuffer {
    /// The depth of a cell that nothing was drawn to. It lies below the depth
    /// of every vertex, so that whatever is drawn first is nearer.
    pub const EMPTY: i64 = i64::MIN;

    #[verifier::type_invariant]
    spec fn inv(self) -> bool {
        &&& self.width > 0
        &&& self.height > 0
        &&& self.data@.len() == self.width * self.height
    }

    /// The model of every buffer is well formed and fits the machine.
    pub proof fn lemma_view(self)
        ensures
            self@.wf(),
            self@.width <= u32::MAX,
            self@.height <= u32::MAX,
    {
    }

    proof fn lemma_cells(self)
        requires
            self.inv(),
        ensures
            self@.cells == self.data@,
            self@.width == self.width,
            self@.height == self.height,
    {
        assert(self@.cells =~= self.data@);
    }

    /// A buffer of the given size that nothing was drawn to.
    pub fn new(width: u32, height: u32) -> (made: Result<Self, Error>)
        ensures
            made is Ok <==> width > 0 && height > 0 && width * height <= usize::MAX,
            made matches Ok(depths) ==> depths@ == Grid::filled(
                width as nat,
                height as nat,
                i64::MIN,
            ),
            made matches Err(e) ==> e == Error::InvalidDimension,
    {
        if width == 0 || height == 0 {
            return Err(Error::InvalidDimension);
        }
        assert(0 < width * height <= u32::MAX * u32::MAX) by (nonlinear_arith)
            requires
                0 < width <= u32::MAX,
                0 < height <= u32::MAX,
        ;
        let cells: u64 = width as u64 * height as u64;
        if cells > usize::MAX as u64 {
            return Err(Error::InvalidDimension);
        }
        let len = cells as usize;
        let mut data: Vec<i64> = Vec::with_capacity(len);
        let mut i: usize = 0;
        while i < len
            invariant
                i <= len,
                data@.len() == i,
                forall|j: int| 0 <= j < i ==> data@[j] == i64::MIN,
            decreases len - i,
        {
            data.push(DepthBuffer::EMPTY);
            i += 1;
        }
        let depths = DepthBuffer { width, height, data };
        proof {
            depths.lemma_cells();
            assert(depths@.cells =~= Grid::filled(width as nat, height as nat, i64::MIN).cells);
        }
        Ok(depths)
    }

    /// A buffer of the size of `image` that nothing was drawn to.
    pub fn for_image(image: &Image) -> (depths: Self)
        ensures
            depths@ == Grid::filled(image@.width, image@.height, i64::MIN),
    {
        let width = image.width();
        let height = image.height();
        let len = image.data().len();
        proof {
            image.lemma_view();
        }
        let mut data: Vec<i64> = Vec::with_capacity(len);
        let mut i: usize = 0;
        while i < len
            invariant
                i <= len,
                data@.len() == i,
                forall|j: int| 0 <= j < i ==> data@[j] == i64::MIN,
            decreases len - i,
        {
            data.push(DepthBuffer::EMPTY);
            i += 1;
        }
        let depths = DepthBuffer { width, height, data };
        proof {
            depths.lemma_cells();
            assert(depths@.cells =~= Grid::filled(image@.width, image@.height, i64::MIN).cells);
        }
        depths
    }

    /// The number of columns.
    pub fn width(&self) -> (w: u32)
        ensures
            w == self@.width,
            w > 0,
    {
        proof {
            use_type_invariant(self);
        }
        self.width
    }

    /// The number of rows.
    pub fn height(&self) -> (h: u32)
        ensures
            h == self@.height,
            h > 0,
    {
        proof {
            use_type_invariant(self);
        }
        self.height
    }

    /// The depth at column `x` of row `y`, or `IndexOutOfRange` for a position
    /// outside the buffer.
    pub fn get(&self, x: u32, y: u32) -> (depth: Result<i64, Error>)
        ensures
            depth == if self@.contains(x as int, y as int) {
                Ok::<i64, Error>(self@.at(x as int, y as int))
            } else {
                Err::<i64, Error>(Error::IndexOutOfRange)
            },
    {
        proof {
            use_type_invariant(self);
            self.lemma_cells();
        }
        if x < self.width && y < self.height {
            proof {
                lemma_index_in_range(x as int, y as int, self.width as int, self.height as int);
            }
            let ghost len = self.data.len();
            Ok(self.data[coord_to_idx(x, y, self.width)])
        } else {
            Err(Error::IndexOutOfRange)
        }
    }

    /// Writes `depth` at column `x` of row `y`. A position outside the buffer
    /// is passed over: nothing is written.
    pub fn set(&mut self, x: u32, y: u32, depth: i64)
        ensures
            final(self)@ == old(self)@.set(x as int, y as int, depth),
    {
        proof {
            use_type_invariant(&*self);
            self.lemma_cells();
        }
        if x < self.width && y < self.height {
            proof {
                lemma_index_in_range(x as int, y as int, self.width as int, self.height as int);
            }
            let ghost len = self.data.len();
            let idx = coord_to_idx(x, y, self.width);
            self.data[idx] = depth;
            proof {
                self.lemma_cells();
            }
        }
    }
}

} // verus!
