use vstd::prelude::*;
use ndarray::Array2;
use crate::tile::Tile;

verus! {

/// The cells of a field, held in a two-dimensional `ndarray` array (`Array2`) in
/// row-major order: the array index of a cell is `(row, column)`.
#[verifier::external_body]
pub struct TileGrid {
    cells: Array2<Option<Tile>>,
}

/// The rows of a grid: `grid_rows(g)[r][c]` is the cell at array index `(r, c)`.
pub uninterp spec fn grid_rows(g: TileGrid) -> Seq<Seq<Option<Tile>>>;

/// The shape `(rows, columns)` that the grid was made with.
pub uninterp spec fn grid_shape(g: TileGrid) -> (usize, usize);

/// The length of an axis, with an empty axis counted as 1.
pub open spec fn nonzero_len(d: usize) -> int {
    if d == 0 {
        1
    } else {
        d as int
    }
}

/// A grid of the given shape can be made: the product of its non-empty axis lengths
/// fits in an `isize`, and its cells take at most `isize::MAX` bytes.
pub open spec fn grid_fits(rows: usize, cols: usize) -> bool {
    &&& nonzero_len(rows) * nonzero_len(cols) <= isize::MAX
    &&& rows * cols * vstd::layout::size_of::<Option<Tile>>() <= isize::MAX
}

/// The rows of a grid of the given shape whose cells are all empty.
pub open spec fn empty_rows(rows: usize, cols: usize) -> Seq<Seq<Option<Tile>>> {
    Seq::new(rows as nat, |r: int| Seq::new(cols as nat, |c: int| None::<Tile>))
}

/// The rows agree with the shape: `rows` rows of `cols` cells each.
pub open spec fn rows_match(rows: Seq<Seq<Option<Tile>>>, shape: (usize, usize)) -> bool {
    &&& rows.len() == shape.0
    &&& forall|r: int| 0 <= r < rows.len() ==> #[trigger] rows[r].len() == shape.1
}

/// `Array2::default((rows, cols))`: a grid of the given shape with every cell empty.
/// `ndarray` panics when the product of the non-empty axis lengths overflows `isize`, and
/// the allocation of the cells panics when their size in bytes does; `requires` leaves
/// both out.
#[verifier::external_body]
pub(crate) fn grid_default(rows: usize, cols: usize) -> (g: TileGrid)
    requires
        grid_fits(rows, cols),
    ensures
        grid_shape(g) == (rows, cols),
        grid_rows(g) == empty_rows(rows, cols),
{
    TileGrid { cells: Array2::default((rows, cols)) }
}

/// `Array2::shape`: the shape of the grid, with which its rows agree.
#[verifier::external_body]
pub(crate) fn grid_shape_of(g: &TileGrid) -> (s: (usize, usize))
    ensures
        s == grid_shape(*g),
        rows_match(grid_rows(*g), s),
{
    let shape = g.cells.shape();
    (shape[0], shape[1])
}

/// `Array2::get` on an index inside the shape: the cell at `(row, col)`.
#[verifier::external_body]
pub(crate) fn grid_get(g: &TileGrid, row: usize, col: usize) -> (t: Option<Tile>)
    requires
        row < grid_shape(*g).0,
        col < grid_shape(*g).1,
    ensures
        t == grid_rows(*g)[row as int][col as int],
{
    *g.cells.get((row, col)).unwrap()
}

/// `Array2::get_mut` on an index inside the shape, then a write of `t` through it:
/// the cell at `(row, col)` becomes `t`, the rest of the grid stays.
#[verifier::external_body]
pub(crate) fn grid_put(g: &mut TileGrid, row: usize, col: usize, t: Option<Tile>)
    requires
        row < grid_shape(*old(g)).0,
        col < grid_shape(*old(g)).1,
    ensures
        grid_shape(*final(g)) == grid_shape(*old(g)),
        grid_rows(*final(g)) == grid_rows(*old(g)).update(
            row as int,
            grid_rows(*old(g))[row as int].update(col as int, t),
        ),
{
    *g.cells.get_mut((row, col)).unwrap() = t;
}

} // verus!
