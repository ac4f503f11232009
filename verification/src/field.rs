use vstd::prelude::*;
use crate::grid::{
    empty_rows, grid_default, grid_fits, grid_get, grid_put, grid_rows, grid_shape,
    grid_shape_of, rows_match, TileGrid,
};
use crate::side::{
    cell_at, in_side_range, lemma_put_cell, lemma_side_index, spec_height_from_side,
    spec_index_from_side, spec_width_from_side,
};
use crate::tile::{Side, Tile};

verus! {

/// A two-dimensional array of plain values in row-major order: the value at
/// `(row, column)` is `cells[row * cols + column]`.
#[derive(Clone, Debug, PartialEq, Eq)]
pub struct Grid<T> {
    pub rows: usize,
    pub cols: usize,
    pub cells: Vec<T>,
}

impl<T> Grid<T> {
    /// The grid holds exactly `rows * cols` values.
    pub open spec fn wf(&self) -> bool {
        self.cells.len() == self.rows * self.cols
    }
}

/// The index `row * cols + col` of a cell inside a row-major array of `rows * cols` cells.
pub proof fn lemma_row_major_index(row: int, col: int, rows: int, cols: int)
    requires
        0 <= row < rows,
        0 <= col < cols,
    ensures
        0 <= row * cols + col < rows * cols,
        row * cols + col + 1 <= (row + 1) * cols,
        (row + 1) * cols <= rows * cols,
        (row + 1) * cols == row * cols + cols,
{
    assert(0 <= row * cols) by (nonlinear_arith)
        requires
            0 <= row,
            0 <= col < cols,
    ;
    assert((row + 1) * cols == row * cols + cols) by (nonlinear_arith);
    assert((row + 1) * cols <= rows * cols) by (nonlinear_arith)
        requires
            row + 1 <= rows,
            0 <= cols,
    ;
}

/// The field of the game: a grid of cells, each empty or holding a tile.
pub struct Field(TileGrid);

impl Field {
    /// The shape of the field: `(rows, columns)`, that is `(height, width)`.
    pub closed spec fn shape(&self) -> (usize, usize) {
        grid_shape(self.0)
    }

    /// The rows of the field: `self.rows()[row][column]` is a cell.
    pub closed spec fn rows(&self) -> Seq<Seq<Option<Tile>>> {
        grid_rows(self.0)
    }

    /// The cell `(x, y)` as seen from the side.
    pub open spec fn side_cell(&self, side: Side, x: int, y: int) -> Option<Tile> {
        cell_at(self.rows(), self.shape(), side, x, y)
    }

    /// The shape of the field, with which its rows agree.
    pub(crate) fn shape_of(&self) -> (s: (usize, usize))
        ensures
            s == self.shape(),
            rows_match(self.rows(), s),
    {
        grid_shape_of(&self.0)
    }

    /// Whether a field of the given width and height can be made (see [`grid_fits`]).
    pub fn fits(width: usize, height: usize) -> (r: bool)
        ensures
            r == grid_fits(height, width),
    {
        let rows: usize = if height == 0 { 1 } else { height };
        let cols: usize = if width == 0 { 1 } else { width };
        let axes_fit = match rows.checked_mul(cols) {
            Some(n) => n <= isize::MAX as usize,
            None => false,
        };
        if !axes_fit {
            return false;
        }
        let size = core::mem::size_of::<Option<Tile>>();
        let cells = height * width;
        proof {
            assert(height * width <= rows * cols) by (nonlinear_arith)
                requires
                    height <= rows,
                    width <= cols,
            ;
        }
        match cells.checked_mul(size) {
            Some(bytes) => bytes <= isize::MAX as usize,
            None => false,
        }
    }

    /// An empty field of the given width and height.
    pub fn new(width: usize, height: usize) -> (f: Self)
        requires
            grid_fits(height, width),
        ensures
            f.shape() == (height, width),
            f.rows() == empty_rows(height, width),
    {
        Field(grid_default(height, width))
    }

    /// The number of lines that run toward the side.
    pub(crate) fn width_from_side(&self, side: Side) -> (r: usize)
        ensures
            r == spec_width_from_side(side, self.shape()),
    {
        let shape = self.shape_of();
        match side {
            Side::Up | Side::Down => shape.1,
            Side::Left | Side::Right => shape.0,
        }
    }

    /// The length of the lines that run toward the side.
    pub(crate) fn height_from_side(&self, side: Side) -> (r: usize)
        ensures
            r == spec_height_from_side(side, self.shape()),
    {
        let shape = self.shape_of();
        match side {
            Side::Up | Side::Down => shape.0,
            Side::Left | Side::Right => shape.1,
        }
    }

    /// The width of the field: its number of columns.
    pub fn width(&self) -> (r: usize)
        ensures
            r == self.shape().1,
    {
        self.width_from_side(Side::Up)
    }

    /// The height of the field: its number of rows.
    pub fn height(&self) -> (r: usize)
        ensures
            r == self.shape().0,
    {
        self.height_from_side(Side::Up)
    }

    /// The array index `(row, column)` of the cell `(x, y)` as seen from the side.
    fn index_from_side(&self, side: Side, x: usize, y: usize) -> (r: (usize, usize))
        requires
            in_side_range(side, self.shape(), x as int, y as int),
        ensures
            (r.0 as int, r.1 as int) == spec_index_from_side(side, self.shape(), x as int, y as int),
            r.0 < self.shape().0,
            r.1 < self.shape().1,
    {
        proof {
            lemma_side_index(side, self.shape());
            assert(in_side_range(side, self.shape(), x as int, y as int));
        }
        match side {
            Side::Up => (y, x),
            Side::Down => (self.height() - 1 - y, self.width() - 1 - x),
            Side::Left => (self.height() - 1 - x, y),
            Side::Right => (x, self.width() - 1 - y),
        }
    }

    /// The cell `(x, y)` as seen from the side.
    pub fn get_from_side(&self, side: Side, x: usize, y: usize) -> (r: Option<Tile>)
        requires
            in_side_range(side, self.shape(), x as int, y as int),
        ensures
            r == self.side_cell(side, x as int, y as int),
    {
        let (row, col) = self.index_from_side(side, x, y);
        grid_get(&self.0, row, col)
    }

    /// Writes the cell `(x, y)` as seen from the side: that cell becomes `tile`, every
    /// other cell stays.
    pub(crate) fn put_from_side(&mut self, side: Side, x: usize, y: usize, tile: Option<Tile>)
        requires
            in_side_range(side, old(self).shape(), x as int, y as int),
            rows_match(old(self).rows(), old(self).shape()),
        ensures
            final(self).shape() == old(self).shape(),
            rows_match(final(self).rows(), final(self).shape()),
            ({
                let (r, c) = spec_index_from_side(side, old(self).shape(), x as int, y as int);
                final(self).rows() == old(self).rows().update(r, old(self).rows()[r].update(c, tile))
            }),
            forall|x2: int, y2: int| in_side_range(side, old(self).shape(), x2, y2) ==>
                #[trigger] cell_at(final(self).rows(), old(self).shape(), side, x2, y2) == if x2 == x
                    && y2 == y {
                    tile
                } else {
                    cell_at(old(self).rows(), old(self).shape(), side, x2, y2)
                },
    {
        proof {
            lemma_put_cell(self.rows(), self.shape(), side, x as int, y as int, tile);
        }
        let (row, col) = self.index_from_side(side, x, y);
        grid_put(&mut self.0, row, col, tile);
    }

    /// The cell at column `x` and row `y`.
    pub fn get(&self, x: usize, y: usize) -> (r: Option<Tile>)
        requires
            x < self.shape().1,
            y < self.shape().0,
        ensures
            r == self.rows()[y as int][x as int],
    {
        self.get_from_side(Side::Up, x, y)
    }

    /// Writes the cell at array index `(row, col)`.
    pub(crate) fn put(&mut self, row: usize, col: usize, tile: Option<Tile>)
        requires
            row < old(self).shape().0,
            col < old(self).shape().1,
        ensures
            final(self).shape() == old(self).shape(),
            final(self).rows() == old(self).rows().update(
                row as int,
                old(self).rows()[row as int].update(col as int, tile),
            ),
    {
        grid_put(&mut self.0, row, col, tile);
    }
}

} // verus!
