//! The pixel buffer: a fixed grid of colors stored row by row.

use crate::color::Color;
use crate::grid::{
    lemma_flip_horizontally_at, lemma_flip_vertically_at, lemma_grid_ext, lemma_index_in_range,
    lemma_set_at, Grid,
};
use vstd::prelude::*;

verus! {

/// Why a buffer could not be made or a pixel could not be reached.
#[derive(Debug, Clone, Copy, PartialEq, Eq, Structural)]
pub enum Error {
    /// A buffer was asked for with no columns or no rows, with more cells
    /// than can be addressed, or with pixel data of the wrong length.
    InvalidDimension,
    /// A pixel outside the buffer was addressed through a strict accessor.
    IndexOutOfRange,
}

impl Grid<Color> {
    /// Row `y` as raw bytes: four per pixel, red, green, blue, alpha.
    pub open spec fn row_bytes(self, y: int) -> Seq<u8> {
        Seq::new(4 * self.width, |i: int| self.at(i / 4, y).0[i % 4])
    }

    /// All cells as raw bytes, row by row: four per pixel, red, green, blue,
    /// alpha.
    pub open spec fn bytes(self) -> Seq<u8> {
        Seq::new(4 * self.cells.len(), |i: int| self.cells[i / 4].0[i % 4])
    }

    /// The grid of the given size whose cells are read from raw bytes, four
    /// per pixel: red, green, blue, alpha.
    pub open spec fn from_bytes(width: nat, height: nat, bytes: Seq<u8>) -> Grid<Color> {
        Grid {
            width,
            height,
            cells: Seq::new(
                width * height,
                |i: int| Color([bytes[4 * i], bytes[4 * i + 1], bytes[4 * i + 2], bytes[4 * i + 3]]),
            ),
        }
    }
}

impl Grid<Color> {
    /// The grid of the given size whose cells are read from raw bytes without
    /// alpha, three per pixel: red, green, blue. Every cell is opaque.
    pub open spec fn from_rgb_bytes(width: nat, height: nat, bytes: Seq<u8>) -> Grid<Color> {
        Grid {
            width,
            height,
            cells: Seq::new(
                width * height,
                |i: int| Color([bytes[3 * i], bytes[3 * i + 1], bytes[3 * i + 2], 255u8]),
            ),
        }
    }
}

/// Reading back the raw bytes of a grid gives the grid.
pub proof fn lemma_bytes_round_trip(g: Grid<Color>)
    requires
        g.wf(),
    ensures
        Grid::from_bytes(g.width, g.height, g.bytes()) == g,
{
    let back = Grid::from_bytes(g.width, g.height, g.bytes());
    assert forall|i: int| 0 <= i < g.cells.len() implies back.cells[i] == g.cells[i] by {
        assert(back.cells[i].0 =~= g.cells[i].0);
    }
    assert(back.cells =~= g.cells);
}

/// The index of column `x` of row `y` in a buffer `width` columns wide.
pub(crate) fn coord_to_idx(x: u32, y: u32, width: u32) -> (idx: usize)
    requires
        y * width + x <= usize::MAX,
    ensures
        idx == y * width + x,
{
    assert(0 <= y * width) by (nonlinear_arith);
    y as usize * width as usize + x as usize
}

/// A pixel buffer: `width` columns and `height` rows of colors, none of the
/// two zero, stored row by row.
#[derive(Debug)]
pub struct Image {
    width: u32,
    height: u32,
    data: Vec<Color>,
}

impl View for Image {
    type V = Grid<Color>;

    closed spec fn view(&self) -> Grid<Color> {
        Grid {
            width: self.width as nat,
            height: self.height as nat,
            cells: Seq::new(self.width as nat * self.height as nat, |i: int| self.data@[i]),
        }
    }
}

impl Clone for Image {
    fn clone(&self) -> (copy: Self)
        ensures
            copy@ == self@,
    {
        proof {
            use_type_invariant(self);
            self.lemma_cells();
        }
        let data = self.data.clone();
        assert(data@ =~= self.data@);
        let copy = Image { width: self.width, height: self.height, data };
        proof {
            copy.lemma_cells();
        }
        copy
    }
}

impl Image {
    #[verifier::type_invariant]
    spec fn inv(self) -> bool {
        &&& self.width > 0
        &&& self.height > 0
        &&& self.data@.len() == self.width * self.height
    }

    /// The model of every buffer is well formed and fits the machine.
    pub proof fn lemma_view(self)
        ensures
            self@.wf(),
            self@.width <= u32::MAX,
            self@.height <= u32::MAX,
    {
    }

    proof fn lemma_cells(self)
        requires
            self.inv(),
        ensures
            self@.cells == self.data@,
            self@.width == self.width,
            self@.height == self.height,
    {
        assert(self@.cells =~= self.data@);
    }

    /// A buffer of the given size with every pixel transparent black.
    pub fn new(width: u32, height: u32) -> (made: Result<Self, Error>)
        ensures
            made is Ok <==> width > 0 && height > 0 && width * height <= usize::MAX,
            made matches Ok(image) ==> image@ == Grid::filled(
                width as nat,
                height as nat,
                Color([0u8, 0u8, 0u8, 0u8]),
            ),
            made matches Err(e) ==> e == Error::InvalidDimension,
    {
        Image::with_background(width, height, Color::new())
    }

    /// A buffer of the given size with every pixel holding `color`.
    pub fn with_background(width: u32, height: u32, color: Color) -> (made: Result<Self, Error>)
        ensures
            made is Ok <==> width > 0 && height > 0 && width * height <= usize::MAX,
            made matches Ok(image) ==> image@ == Grid::filled(width as nat, height as nat, color),
            made matches Err(e) ==> e == Error::InvalidDimension,
    {
        if width == 0 || height == 0 {
            return Err(Error::InvalidDimension);
        }
        assert(0 < width * height <= u32::MAX * u32::MAX) by (nonlinear_arith)
            requires
                0 < width <= u32::MAX,
                0 < height <= u32::MAX,
        ;
        let cells: u64 = width as u64 * height as u64;
        if cells > usize::MAX as u64 {
            return Err(Error::InvalidDimension);
        }
        let len = cells as usize;
        let mut data: Vec<Color> = Vec::with_capacity(len);
        let mut i: usize = 0;
        while i < len
            invariant
                i <= len,
                data@.len() == i,
                forall|j: int| 0 <= j < i ==> data@[j] == color,
            decreases len - i,
        {
            data.push(color);
            i += 1;
        }
        let image = Image { width, height, data };
        proof {
            image.lemma_cells();
            assert(image@.cells =~= Grid::filled(width as nat, height as nat, color).cells);
        }
        Ok(image)
    }

    /// A buffer of the given size over pixel data given row by row.
    pub fn from_pixels(width: u32, height: u32, data: Vec<Color>) -> (made: Result<Self, Error>)
        ensures
            made is Ok <==> width > 0 && height > 0 && data@.len() == width * height,
            made matches Ok(image) ==> image@ == (Grid {
                width: width as nat,
                height: height as nat,
                cells: data@,
            }),
            made matches Err(e) ==> e == Error::InvalidDimension,
    {
        if width == 0 || height == 0 {
            return Err(Error::InvalidDimension);
        }
        assert(0 < width * height <= u32::MAX * u32::MAX) by (nonlinear_arith)
            requires
                0 < width <= u32::MAX,
                0 < height <= u32::MAX,
        ;
        let cells: u64 = width as u64 * height as u64;
        if data.len() as u64 != cells {
            return Err(Error::InvalidDimension);
        }
        let image = Image { width, height, data };
        proof {
            image.lemma_cells();
        }
        Ok(image)
    }

    /// A buffer of the given size over raw bytes given row by row, four per
    /// pixel: red, green, blue, alpha.
    pub fn from_bytes(width: u32, height: u32, bytes: &[u8]) -> (made: Result<Self, Error>)
        ensures
            made is Ok <==> width > 0 && height > 0 && bytes@.len() == 4 * (width * height),
            made matches Ok(image) ==> image@ == Grid::from_bytes(
                width as nat,
                height as nat,
                bytes@,
            ),
            made matches Err(e) ==> e == Error::InvalidDimension,
    {
        if width == 0 || height == 0 {
            return Err(Error::InvalidDimension);
        }
        assert(0 < width * height <= u32::MAX * u32::MAX) by (nonlinear_arith)
            requires
                0 < width <= u32::MAX,
                0 < height <= u32::MAX,
        ;
        let cells: u128 = width as u128 * height as u128;
        if bytes.len() as u128 != 4 * cells {
            return Err(Error::InvalidDimension);
        }
        let len = bytes.len() / 4;
        let mut data: Vec<Color> = Vec::with_capacity(len);
        let mut i: usize = 0;
        while i < len
            invariant
                i <= len,
                bytes@.len() == 4 * len,
                4 * len <= usize::MAX,
                data@.len() == i,
                forall|j: int|
                    0 <= j < i ==> data@[j] == Color(
                        [bytes@[4 * j], bytes@[4 * j + 1], bytes@[4 * j + 2], bytes@[4 * j + 3]],
                    ),
            decreases len - i,
        {
            data.push(
                Color::from_rgba(bytes[4 * i], bytes[4 * i + 1], bytes[4 * i + 2], bytes[4 * i + 3]),
            );
            i += 1;
        }
        let image = Image { width, height, data };
        proof {
            image.lemma_cells();
            assert(image@.cells =~= Grid::from_bytes(width as nat, height as nat, bytes@).cells);
        }
        Ok(image)
    }

    /// A buffer of the given size over raw bytes without alpha given row by
    /// row, three per pixel: red, green, blue. Every pixel is opaque.
    pub fn from_rgb_bytes(width: u32, height: u32, bytes: &[u8]) -> (made: Result<Self, Error>)
        ensures
            made is Ok <==> width > 0 && height > 0 && bytes@.len() == 3 * (width * height),
            made matches Ok(image) ==> image@ == Grid::from_rgb_bytes(
                width as nat,
                height as nat,
                bytes@,
            ),
            made matches Err(e) ==> e == Error::InvalidDimension,
    {
        if width == 0 || height == 0 {
            return Err(Error::InvalidDimension);
        }
        assert(0 < width * height <= u32::MAX * u32::MAX) by (nonlinear_arith)
            requires
                0 < width <= u32::MAX,
                0 < height <= u32::MAX,
        ;
        let cells: u128 = width as u128 * height as u128;
        if bytes.len() as u128 != 3 * cells {
            return Err(Error::InvalidDimension);
        }
        let len = bytes.len() / 3;
        let mut data: Vec<Color> = Vec::with_capacity(len);
        let mut i: usize = 0;
        while i < len
            invariant
                i <= len,
                bytes@.len() == 3 * len,
                3 * len <= usize::MAX,
                data@.len() == i,
                forall|j: int|
                    0 <= j < i ==> data@[j] == Color(
                        [bytes@[3 * j], bytes@[3 * j + 1], bytes@[3 * j + 2], 255u8],
                    ),
            decreases len - i,
        {
            data.push(Color::from_rgba(bytes[3 * i], bytes[3 * i + 1], bytes[3 * i + 2], 255));
            i += 1;
        }
        let image = Image { width, height, data };
        proof {
            image.lemma_cells();
            assert(image@.cells =~= Grid::from_rgb_bytes(width as nat, height as nat, bytes@).cells);
        }
        Ok(image)
    }

    /// The number of columns.
    pub fn width(&self) -> (w: u32)
        ensures
            w == self@.width,
            w > 0,
    {
        proof {
            use_type_invariant(self);
        }
        self.width
    }

    /// The number of rows.
    pub fn height(&self) -> (h: u32)
        ensures
            h == self@.height,
            h > 0,
    {
        proof {
            use_type_invariant(self);
        }
        self.height
    }

    /// The pixels, row by row.
    pub fn data(&self) -> (pixels: &Vec<Color>)
        ensures
            pixels@ == self@.cells,
    {
        proof {
            use_type_invariant(self);
            self.lemma_cells();
        }
        &self.data
    }

    /// The color at column `x` of row `y`, or `IndexOutOfRange` for a position
    /// outside the buffer.
    pub fn get(&self, x: u32, y: u32) -> (pixel: Result<Color, Error>)
        ensures
            pixel == if self@.contains(x as int, y as int) {
                Ok::<Color, Error>(self@.at(x as int, y as int))
            } else {
                Err::<Color, Error>(Error::IndexOutOfRange)
            },
    {
        proof {
            use_type_invariant(self);
            self.lemma_cells();
        }
        if x < self.width && y < self.height {
            proof {
                lemma_index_in_range(x as int, y as int, self.width as int, self.height as int);
            }
            let ghost len = self.data.len();
            Ok(self.data[coord_to_idx(x, y, self.width)])
        } else {
            Err(Error::IndexOutOfRange)
        }
    }

    /// Writes `color` at column `x` of row `y`. A position outside the buffer
    /// is passed over: nothing is written.
    pub fn set(&mut self, x: u32, y: u32, color: Color) -> (ret: &mut Self)
        ensures
            ret@ == old(self)@.set(x as int, y as int, color),
            *final(self) == *final(ret),
    {
        proof {
            use_type_invariant(&*self);
            self.lemma_cells();
        }
        if x < self.width && y < self.height {
            proof {
                lemma_index_in_range(x as int, y as int, self.width as int, self.height as int);
            }
            let ghost len = self.data.len();
            let idx = coord_to_idx(x, y, self.width);
            self.data[idx] = color;
            proof {
                self.lemma_cells();
            }
        }
        self
    }

    /// Writes `color` at column `x` of row `y`, or reports `IndexOutOfRange`
    /// for a position outside the buffer and writes nothing.
    pub fn set_strict(&mut self, x: u32, y: u32, color: Color) -> (done: Result<(), Error>)
        ensures
            done == if old(self)@.contains(x as int, y as int) {
                Ok::<(), Error>(())
            } else {
                Err::<(), Error>(Error::IndexOutOfRange)
            },
            final(self)@ == old(self)@.set(x as int, y as int, color),
    {
        proof {
            use_type_invariant(&*self);
            self.lemma_cells();
        }
        if x < self.width && y < self.height {
            self.set(x, y, color);
            Ok(())
        } else {
            Err(Error::IndexOutOfRange)
        }
    }

    /// The color at a position inside the buffer.
    pub(crate) fn peek(&self, x: u32, y: u32) -> (pixel: Color)
        requires
            self@.contains(x as int, y as int),
        ensures
            pixel == self@.at(x as int, y as int),
    {
        proof {
            use_type_invariant(self);
            self.lemma_cells();
            lemma_index_in_range(x as int, y as int, self.width as int, self.height as int);
        }
        let ghost len = self.data.len();
        self.data[coord_to_idx(x, y, self.width)]
    }

    fn poke(&mut self, x: u32, y: u32, color: Color)
        requires
            old(self)@.contains(x as int, y as int),
        ensures
            final(self)@ == old(self)@.set(x as int, y as int, color),
    {
        self.set(x, y, color);
    }

    fn swap_pixels(&mut self, x0: u32, y0: u32, x1: u32, y1: u32)
        requires
            old(self)@.contains(x0 as int, y0 as int),
            old(self)@.contains(x1 as int, y1 as int),
        ensures
            final(self)@.wf(),
            final(self)@.width == old(self)@.width,
            final(self)@.height == old(self)@.height,
            forall|x: int, y: int|
                old(self)@.contains(x, y) ==> #[trigger] final(self)@.at(x, y) == if x == x0 && y
                    == y0 {
                    old(self)@.at(x1 as int, y1 as int)
                } else if x == x1 && y == y1 {
                    old(self)@.at(x0 as int, y0 as int)
                } else {
                    old(self)@.at(x, y)
                },
    {
        let first = self.peek(x0, y0);
        let second = self.peek(x1, y1);
        let ghost before = self@;
        self.poke(x0, y0, second);
        let ghost between = self@;
        self.poke(x1, y1, first);
        proof {
            old(self).lemma_view();
            assert forall|x: int, y: int| before.contains(x, y) implies #[trigger] self@.at(x, y)
                == if x == x0 && y == y0 {
                before.at(x1 as int, y1 as int)
            } else if x == x1 && y == y1 {
                before.at(x0 as int, y0 as int)
            } else {
                before.at(x, y)
            } by {
                lemma_set_at(before, x0 as int, y0 as int, second, x, y);
                lemma_set_at(between, x1 as int, y1 as int, first, x, y);
            }
            lemma_set_at(before, x0 as int, y0 as int, second, x0 as int, y0 as int);
            lemma_set_at(between, x1 as int, y1 as int, first, x0 as int, y0 as int);
        }
    }

    /// Reverses the order of the rows: row 0 changes places with the last
    /// row, row 1 with the one before it, and so on.
    pub fn flip_vertically(&mut self) -> (ret: &mut Self)
        ensures
            ret@ == old(self)@.flip_vertically(),
            *final(self) == *final(ret),
    {
        let width = self.width();
        let height = self.height();
        let half = height / 2;
        let ghost before = self@;
        proof {
            self.lemma_view();
        }
        let mut y: u32 = 0;
        while y < half
            invariant
                y <= half,
                half == height / 2,
                before.wf(),
                self@.wf(),
                self@.width == before.width == width,
                self@.height == before.height == height,
                forall|c: int, r: int|
                    before.contains(c, r) ==> #[trigger] self@.at(c, r) == if r < y || r >= height - y {
                        before.at(c, height - 1 - r)
                    } else {
                        before.at(c, r)
                    },
            decreases half - y,
        {
            let mut x: u32 = 0;
            while x < width
                invariant
                    x <= width,
                    y < half,
                    half == height / 2,
                    before.wf(),
                    self@.wf(),
                    self@.width == before.width == width,
                    self@.height == before.height == height,
                    forall|c: int, r: int|
                        before.contains(c, r) ==> #[trigger] self@.at(c, r) == if r < y || r >= height - y
                            || ((r == y || r == height - 1 - y) && c < x) {
                            before.at(c, height - 1 - r)
                        } else {
                            before.at(c, r)
                        },
                decreases width - x,
            {
                let ghost row = self@;
                assert(row.contains(x as int, y as int));
                assert(row.contains(x as int, height - 1 - y));
                self.swap_pixels(x, y, x, height - 1 - y);
                x += 1;
            }
            y += 1;
        }
        proof {
            assert forall|c: int, r: int| self@.contains(c, r) implies self@.at(c, r)
                == before.flip_vertically().at(c, r) by {
                assert(before.contains(c, r));
                lemma_flip_vertically_at(before, c, r);
            }
            assert(before.width > 0);
            lemma_flip_vertically_at(before, 0, 0);
            lemma_grid_ext(self@, before.flip_vertically());
        }
        self
    }

    /// Reverses the order of the columns within every row.
    pub fn flip_horizontally(&mut self) -> (ret: &mut Self)
        ensures
            ret@ == old(self)@.flip_horizontally(),
            *final(self) == *final(ret),
    {
        let width = self.width();
        let height = self.height();
        let half = width / 2;
        let ghost before = self@;
        proof {
            self.lemma_view();
        }
        let mut y: u32 = 0;
        while y < height
            invariant
                y <= height,
                half == width / 2,
                before.wf(),
                self@.wf(),
                self@.width == before.width == width,
                self@.height == before.height == height,
                forall|c: int, r: int|
                    before.contains(c, r) ==> #[trigger] self@.at(c, r) == if r < y {
                        before.at(width - 1 - c, r)
                    } else {
                        before.at(c, r)
                    },
            decreases height - y,
        {
            let mut x: u32 = 0;
            while x < half
                invariant
                    x <= half,
                    y < height,
                    half == width / 2,
                    before.wf(),
                    self@.wf(),
                    self@.width == before.width == width,
                    self@.height == before.height == height,
                    forall|c: int, r: int|
                        before.contains(c, r) ==> #[trigger] self@.at(c, r) == if r < y || (r == y && (c < x
                            || c >= width - x)) {
                            before.at(width - 1 - c, r)
                        } else {
                            before.at(c, r)
                        },
                decreases half - x,
            {
                let ghost row = self@;
                assert(row.contains(x as int, y as int));
                assert(row.contains(width - 1 - x, y as int));
                self.swap_pixels(x, y, width - 1 - x, y);
                x += 1;
            }
            y += 1;
        }
        proof {
            assert forall|c: int, r: int| self@.contains(c, r) implies self@.at(c, r)
                == before.flip_horizontally().at(c, r) by {
                assert(before.contains(c, r));
                lemma_flip_horizontally_at(before, c, r);
            }
            lemma_flip_horizontally_at(before, 0, 0);
            lemma_grid_ext(self@, before.flip_horizontally());
        }
        self
    }

    /// The rows as raw bytes for an encoder, top row first: four bytes per
    /// pixel, red, green, blue, alpha.
    pub fn to_rows(&self) -> (rows: Vec<Vec<u8>>)
        ensures
            rows@.len() == self@.height,
            forall|y: int| 0 <= y < self@.height ==> (#[trigger] rows@[y])@ == self@.row_bytes(y),
    {
        let width = self.width();
        let height = self.height();
        let mut rows: Vec<Vec<u8>> = Vec::new();
        let mut y: u32 = 0;
        while y < height
            invariant
                y <= height,
                width == self@.width,
                height == self@.height,
                rows@.len() == y,
                forall|r: int| 0 <= r < y ==> (#[trigger] rows@[r])@ == self@.row_bytes(r),
            decreases height - y,
        {
            let mut row: Vec<u8> = Vec::new();
            let mut x: u32 = 0;
            while x < width
                invariant
                    x <= width,
                    y < height,
                    width == self@.width,
                    height == self@.height,
                    row@.len() == 4 * x,
                    forall|i: int| 0 <= i < 4 * x ==> #[trigger] row@[i] == self@.row_bytes(y as int)[i],
                decreases width - x,
            {
                let pixel = self.peek(x, y);
                row.push(pixel.0[0]);
                row.push(pixel.0[1]);
                row.push(pixel.0[2]);
                row.push(pixel.0[3]);
                x += 1;
            }
            assert(row@ =~= self@.row_bytes(y as int));
            rows.push(row);
            y += 1;
        }
        rows
    }

    /// All pixels as raw bytes, row by row: four bytes per pixel, red, green,
    /// blue, alpha.
    pub fn to_bytes(&self) -> (bytes: Vec<u8>)
        ensures
            bytes@ == self@.bytes(),
    {
        proof {
            use_type_invariant(self);
            self.lemma_cells();
        }
        let mut bytes: Vec<u8> = Vec::new();
        let mut i: usize = 0;
        while i < self.data.len()
            invariant
                i <= self.data@.len(),
                self.data@ == self@.cells,
                bytes@.len() == 4 * i,
                forall|k: int| 0 <= k < 4 * i ==> #[trigger] bytes@[k] == self@.bytes()[k],
            decreases self.data@.len() - i,
        {
            let pixel = self.data[i];
            bytes.push(pixel.0[0]);
            bytes.push(pixel.0[1]);
            bytes.push(pixel.0[2]);
            bytes.push(pixel.0[3]);
            i += 1;
        }
        assert(bytes@ =~= self@.bytes());
        bytes
    }
}

} // verus!
