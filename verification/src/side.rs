use vstd::prelude::*;
use crate::tile::{Origin, Side, Tile};

verus! {

// Every side of the field has its own coordinates: `x` runs along the side, `y` runs
// away from it, and `(x, 0)` lies at the side. These functions translate them to the
// array index `(row, column)` of a field of the given shape `(rows, columns)`.

/// The number of lines that run toward the side: the number of values of `x`.
pub open spec fn spec_width_from_side(side: Side, shape: (usize, usize)) -> usize {
    match side {
        Side::Up | Side::Down => shape.1,
        Side::Left | Side::Right => shape.0,
    }
}

/// The length of a line that runs toward the side: the number of values of `y`.
pub open spec fn spec_height_from_side(side: Side, shape: (usize, usize)) -> usize {
    match side {
        Side::Up | Side::Down => shape.0,
        Side::Left | Side::Right => shape.1,
    }
}

/// The array index `(row, column)` of the cell `(x, y)` as seen from the side.
pub open spec fn spec_index_from_side(side: Side, shape: (usize, usize), x: int, y: int) -> (
    int,
    int,
) {
    match side {
        Side::Up => (y, x),
        Side::Down => (shape.0 - 1 - y, shape.1 - 1 - x),
        Side::Left => (shape.0 - 1 - x, y),
        Side::Right => (x, shape.1 - 1 - y),
    }
}

/// `(x, y)` lies on the field as seen from the side.
pub open spec fn in_side_range(side: Side, shape: (usize, usize), x: int, y: int) -> bool {
    0 <= x < spec_width_from_side(side, shape) && 0 <= y < spec_height_from_side(side, shape)
}

/// The cell `(x, y)` as seen from the side.
pub open spec fn cell_at(rows: Seq<Seq<Option<Tile>>>, shape: (usize, usize), side: Side, x: int, y: int) -> Option<Tile> {
    let (r, c) = spec_index_from_side(side, shape, x, y);
    rows[r][c]
}

/// The line `x` as seen from the side: its cells from the side on.
pub open spec fn column_at(rows: Seq<Seq<Option<Tile>>>, shape: (usize, usize), side: Side, x: int) -> Seq<Option<Tile>> {
    Seq::new(spec_height_from_side(side, shape) as nat, |y: int| cell_at(rows, shape, side, x, y))
}

/// The tile of a cell marked as holding its place at `(x, y)`.
pub open spec fn hold_at(t: Option<Tile>, x: int, y: int) -> Option<Tile> {
    match t {
        Some(tile) => Some(Tile(tile.0, Origin::Hold(x as usize, y as usize))),
        None => None,
    }
}

/// The line `x` as seen from the side with every tile marked as holding its place.
pub open spec fn held_column_at(rows: Seq<Seq<Option<Tile>>>, shape: (usize, usize), side: Side, x: int) -> Seq<Option<Tile>> {
    Seq::new(spec_height_from_side(side, shape) as nat, |y: int| hold_at(cell_at(rows, shape, side, x, y), x, y))
}

/// The side coordinates of the array index `(r, c)`: the inverse of `spec_index_from_side`.
pub open spec fn spec_side_of_index(side: Side, shape: (usize, usize), r: int, c: int) -> (int, int) {
    match side {
        Side::Up => (c, r),
        Side::Down => (shape.1 - 1 - c, shape.0 - 1 - r),
        Side::Left => (shape.0 - 1 - r, c),
        Side::Right => (r, shape.1 - 1 - c),
    }
}

/// Every cell of the field as seen from a side lies on the field, and the translation
/// from side coordinates to array indices is one to one and onto.
pub proof fn lemma_side_index(side: Side, shape: (usize, usize))
    ensures
        forall|x: int, y: int| #[trigger] in_side_range(side, shape, x, y) ==> {
            let (r, c) = spec_index_from_side(side, shape, x, y);
            &&& 0 <= r < shape.0
            &&& 0 <= c < shape.1
            &&& spec_side_of_index(side, shape, r, c) == (x, y)
        },
        forall|r: int, c: int| 0 <= r < shape.0 && 0 <= c < shape.1 ==> {
            let (x, y) = #[trigger] spec_side_of_index(side, shape, r, c);
            &&& in_side_range(side, shape, x, y)
            &&& spec_index_from_side(side, shape, x, y) == (r, c)
        },
{
}

/// Writing the array cell of the side cell `(x, y)` changes that side cell and no other.
pub proof fn lemma_put_cell(
    rows: Seq<Seq<Option<Tile>>>,
    shape: (usize, usize),
    side: Side,
    x: int,
    y: int,
    v: Option<Tile>,
)
    requires
        in_side_range(side, shape, x, y),
        rows.len() == shape.0,
        forall|r: int| 0 <= r < rows.len() ==> #[trigger] rows[r].len() == shape.1,
    ensures
        ({
            let (r, c) = spec_index_from_side(side, shape, x, y);
            let rows2 = rows.update(r, rows[r].update(c, v));
            &&& rows2.len() == shape.0
            &&& forall|r2: int| 0 <= r2 < rows2.len() ==> #[trigger] rows2[r2].len() == shape.1
            &&& forall|x2: int, y2: int| in_side_range(side, shape, x2, y2) ==>
                #[trigger] cell_at(rows2, shape, side, x2, y2) == if x2 == x && y2 == y {
                    v
                } else {
                    cell_at(rows, shape, side, x2, y2)
                }
        }),
{
    lemma_side_index(side, shape);
    let (r, c) = spec_index_from_side(side, shape, x, y);
    let rows2 = rows.update(r, rows[r].update(c, v));
    assert forall|x2: int, y2: int| in_side_range(side, shape, x2, y2) implies
        #[trigger] cell_at(rows2, shape, side, x2, y2) == if x2 == x && y2 == y {
            v
        } else {
            cell_at(rows, shape, side, x2, y2)
        } by {
        let (r2, c2) = spec_index_from_side(side, shape, x2, y2);
        assert(spec_side_of_index(side, shape, r2, c2) == (x2, y2));
        assert(spec_side_of_index(side, shape, r, c) == (x, y));
    }
}

} // verus!
