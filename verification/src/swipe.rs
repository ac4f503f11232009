use vstd::prelude::*;
use crate::column::{
    column_weight, lemma_merge_pass_weight, lemma_slide_pass_weight, merge_pass, merge_phase,
    slide_pass, slide_phase, swipe_column,
};
use crate::field::Field;
use crate::grid::rows_match;
use crate::side::{cell_at, lemma_side_index, spec_side_of_index, column_at, held_column_at, hold_at, in_side_range,
    spec_height_from_side, spec_width_from_side};
use crate::tile::{join_tiles, JoinResult, Origin, Side, Tile};

verus! {

/// An optional `usize` as an optional `nat`.
pub open spec fn opt_nat(o: Option<usize>) -> Option<nat> {
    match o {
        Some(s) => Some(s as nat),
        None => None,
    }
}

/// The rows of a field of the given shape after a swipe toward `side`: the cell at
/// `(row, column)` is the cell of the swiped line that it lies on as seen from the side.
pub open spec fn spec_swipe(rows: Seq<Seq<Option<Tile>>>, shape: (usize, usize), side: Side) -> Seq<
    Seq<Option<Tile>>,
> {
    Seq::new(
        shape.0 as nat,
        |r: int|
            Seq::new(
                shape.1 as nat,
                |c: int|
                    {
                        let (x, y) = spec_side_of_index(side, shape, r, c);
                        swipe_column(held_column_at(rows, shape, side, x)).0[y]
                    },
            ),
    )
}

/// Some line of the field, swiped toward `side`, would merge two tiles of the highest level.
pub open spec fn swipe_overflows(rows: Seq<Seq<Option<Tile>>>, shape: (usize, usize), side: Side) -> bool {
    exists|x: int|
        0 <= x < spec_width_from_side(side, shape) && (#[trigger] swipe_column(
            held_column_at(rows, shape, side, x),
        )).1
}

impl Field {
    /// The merge phase on the line `x` as seen from the side.
    fn merge_line(&mut self, side: Side, x: usize, height: usize)
        requires
            x < spec_width_from_side(side, old(self).shape()),
            height == spec_height_from_side(side, old(self).shape()),
            height > 0,
            rows_match(old(self).rows(), old(self).shape()),
            !merge_phase(column_at(old(self).rows(), old(self).shape(), side, x as int), 0).1,
        ensures
            final(self).shape() == old(self).shape(),
            rows_match(final(self).rows(), final(self).shape()),
            column_at(final(self).rows(), final(self).shape(), side, x as int) == merge_phase(
                column_at(old(self).rows(), old(self).shape(), side, x as int),
                0,
            ).0,
            forall|x2: int, y2: int|
                in_side_range(side, old(self).shape(), x2, y2) && x2 != x ==> #[trigger] cell_at(
                    final(self).rows(),
                    old(self).shape(),
                    side,
                    x2,
                    y2,
                ) == cell_at(old(self).rows(), old(self).shape(), side, x2, y2),
    {
        let ghost shape = self.shape();
        let ghost rows0 = self.rows();
        let ghost col0 = column_at(rows0, shape, side, x as int);
        let ghost target = merge_phase(col0, 0);
        let mut repeat_start_from: Option<usize> = Some(0);
        while repeat_start_from.is_some()
            invariant
                self.shape() == shape,
                rows_match(self.rows(), shape),
                x < spec_width_from_side(side, shape),
                height == spec_height_from_side(side, shape),
                height > 0,
                forall|x2: int, y2: int|
                    in_side_range(side, shape, x2, y2) && x2 != x ==> #[trigger] cell_at(
                        self.rows(),
                        shape,
                        side,
                        x2,
                        y2,
                    ) == cell_at(rows0, shape, side, x2, y2),
                match repeat_start_from {
                    Some(s) => s < height && merge_phase(
                        column_at(self.rows(), shape, side, x as int),
                        s as nat,
                    ).0 == target.0 && !merge_phase(
                        column_at(self.rows(), shape, side, x as int),
                        s as nat,
                    ).1,
                    None => column_at(self.rows(), shape, side, x as int) == target.0,
                },
            decreases
                2 * column_weight(column_at(self.rows(), shape, side, x as int)) + if repeat_start_from is Some {
                    1int
                } else {
                    0int
                },
        {
            let start_from = repeat_start_from.unwrap();
            repeat_start_from = None;
            let ghost pcol = column_at(self.rows(), shape, side, x as int);
            let ghost ptarget = merge_pass(pcol, start_from as nat, None);
            proof {
                lemma_merge_pass_weight(pcol, start_from as nat, None);
            }
            let mut y = start_from;
            while y + 1 < height
                invariant
                    self.shape() == shape,
                    rows_match(self.rows(), shape),
                    x < spec_width_from_side(side, shape),
                    height == spec_height_from_side(side, shape),
                    start_from <= y < height,
                    forall|x2: int, y2: int|
                        in_side_range(side, shape, x2, y2) && x2 != x ==> #[trigger] cell_at(
                            self.rows(),
                            shape,
                            side,
                            x2,
                            y2,
                        ) == cell_at(rows0, shape, side, x2, y2),
                    repeat_start_from is Some ==> repeat_start_from.unwrap() < height,
                    merge_pass(
                        column_at(self.rows(), shape, side, x as int),
                        y as nat,
                        opt_nat(repeat_start_from),
                    ).0 == ptarget.0,
                    merge_pass(
                        column_at(self.rows(), shape, side, x as int),
                        y as nat,
                        opt_nat(repeat_start_from),
                    ).1 == ptarget.1,
                    !merge_pass(
                        column_at(self.rows(), shape, side, x as int),
                        y as nat,
                        opt_nat(repeat_start_from),
                    ).2,
                decreases height - y,
            {
                let ghost cur = column_at(self.rows(), shape, side, x as int);
                let mut up = self.get_from_side(side, x, y);
                let mut down = self.get_from_side(side, x, y + 1);
                assert(up == cur[y as int]);
                assert(down == cur[y + 1int]);
                if let Some(join_result) = join_tiles(&mut up, &mut down) {
                    self.put_from_side(side, x, y, up);
                    self.put_from_side(side, x, y + 1, down);
                    assert(column_at(self.rows(), shape, side, x as int) =~= cur.update(
                        y as int,
                        up,
                    ).update(y + 1int, down));
                    if repeat_start_from.is_none() {
                        match join_result {
                            JoinResult::TileMerged => {
                                repeat_start_from = Some(y + 1);
                            },
                            JoinResult::TileMoved => repeat_start_from = Some(y),
                        }
                    }
                }
                y += 1;
            }
        }
    }

    /// The slide phase on the line `x` as seen from the side.
    fn slide_line(&mut self, side: Side, x: usize, height: usize)
        requires
            x < spec_width_from_side(side, old(self).shape()),
            height == spec_height_from_side(side, old(self).shape()),
            height > 0,
            rows_match(old(self).rows(), old(self).shape()),
            !slide_phase(column_at(old(self).rows(), old(self).shape(), side, x as int)).1,
        ensures
            final(self).shape() == old(self).shape(),
            rows_match(final(self).rows(), final(self).shape()),
            column_at(final(self).rows(), final(self).shape(), side, x as int) == slide_phase(
                column_at(old(self).rows(), old(self).shape(), side, x as int),
            ).0,
            forall|x2: int, y2: int|
                in_side_range(side, old(self).shape(), x2, y2) && x2 != x ==> #[trigger] cell_at(
                    final(self).rows(),
                    old(self).shape(),
                    side,
                    x2,
                    y2,
                ) == cell_at(old(self).rows(), old(self).shape(), side, x2, y2),
    {
        let ghost shape = self.shape();
        let ghost rows0 = self.rows();
        let ghost col0 = column_at(rows0, shape, side, x as int);
        let ghost target = slide_phase(col0);
        let mut repeat_start_from: Option<usize> = Some(0);
        while repeat_start_from.is_some()
            invariant
                self.shape() == shape,
                rows_match(self.rows(), shape),
                x < spec_width_from_side(side, shape),
                height == spec_height_from_side(side, shape),
                height > 0,
                forall|x2: int, y2: int|
                    in_side_range(side, shape, x2, y2) && x2 != x ==> #[trigger] cell_at(
                        self.rows(),
                        shape,
                        side,
                        x2,
                        y2,
                    ) == cell_at(rows0, shape, side, x2, y2),
                repeat_start_from is Some ==> repeat_start_from == Some(0usize),
                repeat_start_from is Some ==> slide_phase(
                    column_at(self.rows(), shape, side, x as int),
                ).0 == target.0 && !slide_phase(column_at(self.rows(), shape, side, x as int)).1,
                repeat_start_from is None ==> column_at(self.rows(), shape, side, x as int)
                    == target.0,
            decreases
                2 * column_weight(column_at(self.rows(), shape, side, x as int)) + if repeat_start_from is Some {
                    1int
                } else {
                    0int
                },
        {
            let start_from = repeat_start_from.unwrap();
            repeat_start_from = None;
            let ghost pcol = column_at(self.rows(), shape, side, x as int);
            let ghost ptarget = slide_pass(pcol, 0, false);
            proof {
                lemma_slide_pass_weight(pcol, 0, false);
            }
            let mut y = start_from;
            while y + 1 < height
                invariant
                    self.shape() == shape,
                    rows_match(self.rows(), shape),
                    x < spec_width_from_side(side, shape),
                    height == spec_height_from_side(side, shape),
                    y < height,
                    forall|x2: int, y2: int|
                        in_side_range(side, shape, x2, y2) && x2 != x ==> #[trigger] cell_at(
                            self.rows(),
                            shape,
                            side,
                            x2,
                            y2,
                        ) == cell_at(rows0, shape, side, x2, y2),
                    repeat_start_from is Some ==> repeat_start_from == Some(0usize),
                    slide_pass(
                        column_at(self.rows(), shape, side, x as int),
                        y as nat,
                        repeat_start_from is Some,
                    ).0 == ptarget.0,
                    slide_pass(
                        column_at(self.rows(), shape, side, x as int),
                        y as nat,
                        repeat_start_from is Some,
                    ).1 == ptarget.1,
                    !slide_pass(
                        column_at(self.rows(), shape, side, x as int),
                        y as nat,
                        repeat_start_from is Some,
                    ).2,
                decreases height - y,
            {
                let ghost cur = column_at(self.rows(), shape, side, x as int);
                let mut up = self.get_from_side(side, x, y);
                let mut down = self.get_from_side(side, x, y + 1);
                assert(up == cur[y as int]);
                assert(down == cur[y + 1int]);
                if let Some(JoinResult::TileMoved) = join_tiles(&mut up, &mut down) {
                    self.put_from_side(side, x, y, up);
                    self.put_from_side(side, x, y + 1, down);
                    assert(column_at(self.rows(), shape, side, x as int) =~= cur.update(
                        y as int,
                        up,
                    ).update(y + 1int, down));
                    repeat_start_from = Some(0);
                }
                y += 1;
            }
        }
    }

    /// Swipes the field toward `side`. Every tile is first marked as holding its place
    /// (with its coordinates as seen from the side); then every line that runs toward the
    /// side is swiped on its own (see [`swipe_column`]).
    ///
    /// A field whose lines toward the side are empty but not absent cannot be swiped, and
    /// two tiles of the highest level have no level to merge into: `requires` leaves both
    /// out (`Field::top_level_free` tests for the second).
    pub fn swipe(&mut self, side: Side)
        requires
            spec_height_from_side(side, old(self).shape()) > 0 || spec_width_from_side(
                side,
                old(self).shape(),
            ) == 0,
            !swipe_overflows(old(self).rows(), old(self).shape(), side),
        ensures
            final(self).shape() == old(self).shape(),
            final(self).rows() == spec_swipe(old(self).rows(), old(self).shape(), side),
            forall|x: int, y: int|
                #[trigger] in_side_range(side, old(self).shape(), x, y) ==> final(self).side_cell(
                    side,
                    x,
                    y,
                ) == swipe_column(held_column_at(old(self).rows(), old(self).shape(), side, x)).0[y],
    {
        let width = self.width_from_side(side);
        let height = self.height_from_side(side);
        let _ = self.shape_of();
        let ghost shape = self.shape();
        let ghost rows0 = self.rows();
        let mut x: usize = 0;
        while x < width
            invariant
                self.shape() == shape,
                rows_match(self.rows(), shape),
                width == spec_width_from_side(side, shape),
                height == spec_height_from_side(side, shape),
                x <= width,
                forall|x2: int, y2: int|
                    in_side_range(side, shape, x2, y2) ==> #[trigger] cell_at(
                        self.rows(),
                        shape,
                        side,
                        x2,
                        y2,
                    ) == if x2 < x {
                        hold_at(cell_at(rows0, shape, side, x2, y2), x2, y2)
                    } else {
                        cell_at(rows0, shape, side, x2, y2)
                    },
            decreases width - x,
        {
            let mut y: usize = 0;
            while y < height
                invariant
                    self.shape() == shape,
                    rows_match(self.rows(), shape),
                    width == spec_width_from_side(side, shape),
                    height == spec_height_from_side(side, shape),
                    x < width,
                    y <= height,
                    forall|x2: int, y2: int|
                        in_side_range(side, shape, x2, y2) ==> #[trigger] cell_at(
                            self.rows(),
                            shape,
                            side,
                            x2,
                            y2,
                        ) == if x2 < x || (x2 == x && y2 < y) {
                            hold_at(cell_at(rows0, shape, side, x2, y2), x2, y2)
                        } else {
                            cell_at(rows0, shape, side, x2, y2)
                        },
                decreases height - y,
            {
                if let Some(tile) = self.get_from_side(side, x, y) {
                    self.put_from_side(side, x, y, Some(Tile(tile.0, Origin::Hold(x, y))));
                }
                y += 1;
            }
            x += 1;
        }
        let ghost rows1 = self.rows();
        assert forall|x2: int| 0 <= x2 < width implies column_at(rows1, shape, side, x2)
            == held_column_at(rows0, shape, side, x2) by {
            assert(column_at(rows1, shape, side, x2) =~= held_column_at(rows0, shape, side, x2)) by {
                assert forall|y2: int| 0 <= y2 < height implies column_at(rows1, shape, side, x2)[y2]
                    == held_column_at(rows0, shape, side, x2)[y2] by {
                    assert(in_side_range(side, shape, x2, y2));
                }
            }
        }
        let mut x: usize = 0;
        while x < width
            invariant
                self.shape() == shape,
                rows_match(self.rows(), shape),
                width == spec_width_from_side(side, shape),
                height == spec_height_from_side(side, shape),
                height > 0 || width == 0,
                x <= width,
                forall|x2: int|
                    0 <= x2 < width ==> !(#[trigger] swipe_column(
                        held_column_at(rows0, shape, side, x2),
                    )).1,
                forall|x2: int| 0 <= x2 < width ==> column_at(rows1, shape, side, x2)
                    == held_column_at(rows0, shape, side, x2),
                forall|x2: int, y2: int|
                    in_side_range(side, shape, x2, y2) ==> #[trigger] cell_at(
                        self.rows(),
                        shape,
                        side,
                        x2,
                        y2,
                    ) == if x2 < x {
                        swipe_column(held_column_at(rows0, shape, side, x2)).0[y2]
                    } else {
                        cell_at(rows1, shape, side, x2, y2)
                    },
            decreases width - x,
        {
            let ghost before = self.rows();
            let ghost col = held_column_at(rows0, shape, side, x as int);
            assert(column_at(before, shape, side, x as int) =~= col) by {
                assert forall|y2: int| 0 <= y2 < height implies column_at(before, shape, side, x as int)[y2]
                    == col[y2] by {
                    assert(in_side_range(side, shape, x as int, y2));
                    assert(column_at(rows1, shape, side, x as int)[y2] == col[y2]);
                }
            }
            assert(!swipe_column(col).1);
            self.merge_line(side, x, height);
            self.slide_line(side, x, height);
            let ghost after = self.rows();
            assert forall|x2: int, y2: int| in_side_range(side, shape, x2, y2) implies
                #[trigger] cell_at(after, shape, side, x2, y2) == if x2 < x + 1 {
                    swipe_column(held_column_at(rows0, shape, side, x2)).0[y2]
                } else {
                    cell_at(rows1, shape, side, x2, y2)
                } by {
                if x2 == x {
                    assert(column_at(after, shape, side, x2)[y2] == cell_at(after, shape, side, x2, y2));
                } else {
                    assert(cell_at(before, shape, side, x2, y2) == cell_at(after, shape, side, x2, y2));
                }
            }
            x += 1;
        }
        proof {
            lemma_side_index(side, shape);
            let target = spec_swipe(rows0, shape, side);
            let fin = self.rows();
            assert forall|r: int| 0 <= r < shape.0 implies fin[r] =~= target[r] by {
                assert forall|c: int| 0 <= c < shape.1 implies fin[r][c] == target[r][c] by {
                    let (x2, y2) = spec_side_of_index(side, shape, r, c);
                    assert(in_side_range(side, shape, x2, y2));
                    assert(cell_at(fin, shape, side, x2, y2) == fin[r][c]);
                }
            }
            assert(fin =~= target);
        }
    }
}

} // verus!
