use vstd::prelude::*;
use vstd::arithmetic::power2::{lemma2_to64, lemma_pow2_pos, lemma_pow2_strictly_increases, lemma_pow2_unfold};
use crate::array::{is_tile_value, lemma_log2_of_pow2, levels_fit, log2_floor, tile_of_value, value_of_tile};
use crate::field::{Field, Grid};
use crate::grid::rows_match;
use crate::column::{
    lemma_merge_pass_weight, lemma_slide_pass_weight, merge_pass, merge_phase, slide_pass,
    slide_phase, swipe_column,
};
use crate::side::{cell_at, column_at, held_column_at, in_side_range, lemma_side_index, spec_height_from_side, spec_side_of_index, spec_width_from_side};
use crate::swipe::{spec_swipe, swipe_overflows};
use crate::totals::{cells_total, lemma_side_total, lemma_sum_add, lemma_sum_ext, lemma_sum_update, line_sum, side_total};
use crate::tile::{is_movable, join_overflows, spec_join, JoinResult, Origin, Side, Tile};

verus! {

/// The sum of the values that the cells of a line show.
pub open spec fn column_value(col: Seq<Option<Tile>>) -> nat
    decreases col.len(),
{
    if col.len() == 0 {
        0
    } else {
        column_value(col.drop_last()) + value_of_tile(col.last())
    }
}

/// Lines whose cells show the same values have the same sum.
proof fn lemma_value_pointwise(a: Seq<Option<Tile>>, b: Seq<Option<Tile>>)
    requires
        a.len() == b.len(),
        forall|i: int| 0 <= i < a.len() ==> value_of_tile(#[trigger] a[i]) == value_of_tile(b[i]),
    ensures
        column_value(a) == column_value(b),
    decreases a.len(),
{
    if a.len() > 0 {
        lemma_value_pointwise(a.drop_last(), b.drop_last());
    }
}

/// Changing one cell changes the sum by the change of that cell's value.
proof fn lemma_value_update(col: Seq<Option<Tile>>, i: int, v: Option<Tile>)
    requires
        0 <= i < col.len(),
    ensures
        column_value(col.update(i, v)) + value_of_tile(col[i]) == column_value(col) + value_of_tile(v),
    decreases col.len(),
{
    let c2 = col.update(i, v);
    if i == col.len() - 1 {
        assert(c2.drop_last() =~= col.drop_last());
    } else {
        assert(c2.drop_last() =~= col.drop_last().update(i, v));
        lemma_value_update(col.drop_last(), i, v);
    }
}

/// A join that does not overflow keeps the sum of the two cells.
proof fn lemma_join_value(col: Seq<Option<Tile>>, y: int)
    requires
        0 <= y,
        y + 1 < col.len(),
        !join_overflows(col[y], col[y + 1]),
    ensures
        ({
            let j = spec_join(col[y], col[y + 1]);
            column_value(col.update(y, j.0).update(y + 1, j.1)) == column_value(col)
        }),
{
    let j = spec_join(col[y], col[y + 1]);
    let c1 = col.update(y, j.0);
    lemma_value_update(col, y, j.0);
    lemma_value_update(c1, y + 1, j.1);
    if j.2 == Some(JoinResult::TileMerged) {
        let l = col[y].unwrap().0;
        assert(l < u32::MAX);
        lemma_pow2_unfold(l as nat + 1);
    }
}

/// A merge pass that does not overflow keeps the sum of the line.
proof fn lemma_merge_pass_value(col: Seq<Option<Tile>>, y: nat, restart: Option<nat>)
    requires
        !merge_pass(col, y, restart).2,
    ensures
        column_value(merge_pass(col, y, restart).0) == column_value(col),
    decreases col.len() - y,
{
    if y + 1 < col.len() {
        let j = spec_join(col[y as int], col[y + 1int]);
        lemma_join_value(col, y as int);
        match j.2 {
            Some(jr) => {
                let c2 = col.update(y as int, j.0).update(y + 1int, j.1);
                let r2 = match restart {
                    Some(s) => Some(s),
                    None => Some(if jr is TileMerged { y + 1 } else { y }),
                };
                lemma_merge_pass_value(c2, y + 1, r2);
            },
            None => {
                lemma_merge_pass_value(col, y + 1, restart);
            },
        }
    }
}

/// The merge phase, when it does not overflow, keeps the sum of the line.
proof fn lemma_merge_phase_value(col: Seq<Option<Tile>>, start: nat)
    requires
        !merge_phase(col, start).1,
    ensures
        column_value(merge_phase(col, start).0) == column_value(col),
    decreases crate::column::column_weight(col),
{
    let p = merge_pass(col, start, None);
    lemma_merge_pass_value(col, start, None);
    if let Some(s) = p.1 {
        lemma_merge_pass_weight(col, start, None);
        lemma_merge_phase_value(p.0, s);
    }
}

/// A slide pass that does not overflow keeps the sum of the line.
proof fn lemma_slide_pass_value(col: Seq<Option<Tile>>, y: nat, moved: bool)
    requires
        !slide_pass(col, y, moved).2,
    ensures
        column_value(slide_pass(col, y, moved).0) == column_value(col),
    decreases col.len() - y,
{
    if y + 1 < col.len() {
        let j = spec_join(col[y as int], col[y + 1int]);
        if j.2 == Some(JoinResult::TileMoved) {
            lemma_join_value(col, y as int);
            lemma_slide_pass_value(col.update(y as int, j.0).update(y + 1int, j.1), y + 1, true);
        } else {
            lemma_slide_pass_value(col, y + 1, moved);
        }
    }
}

/// The slide phase, when it does not overflow, keeps the sum of the line.
proof fn lemma_slide_phase_value(col: Seq<Option<Tile>>)
    requires
        !slide_phase(col).1,
    ensures
        column_value(slide_phase(col).0) == column_value(col),
    decreases crate::column::column_weight(col),
{
    let p = slide_pass(col, 0, false);
    lemma_slide_pass_value(col, 0, false);
    if p.1 {
        lemma_slide_pass_weight(col, 0, false);
        lemma_slide_phase_value(p.0);
    }
}

/// Swiping a line that does not overflow keeps the sum of the values of its tiles.
pub proof fn law_swipe_column_keeps_value(col: Seq<Option<Tile>>)
    requires
        !swipe_column(col).1,
    ensures
        column_value(swipe_column(col).0) == column_value(col),
{
    lemma_merge_phase_value(col, 0);
    lemma_slide_phase_value(merge_phase(col, 0).0);
}

/// The merge phase keeps the length of the line.
proof fn lemma_merge_phase_len(col: Seq<Option<Tile>>, start: nat)
    ensures
        merge_phase(col, start).0.len() == col.len(),
    decreases crate::column::column_weight(col),
{
    let p = merge_pass(col, start, None);
    lemma_merge_pass_weight(col, start, None);
    if let Some(s) = p.1 {
        lemma_merge_phase_len(p.0, s);
    }
}

/// The slide phase keeps the length of the line.
proof fn lemma_slide_phase_len(col: Seq<Option<Tile>>)
    ensures
        slide_phase(col).0.len() == col.len(),
    decreases crate::column::column_weight(col),
{
    let p = slide_pass(col, 0, false);
    lemma_slide_pass_weight(col, 0, false);
    if p.1 {
        lemma_slide_phase_len(p.0);
    }
}

/// Swiping keeps the length of a line.
pub proof fn lemma_swipe_column_len(col: Seq<Option<Tile>>)
    ensures
        swipe_column(col).0.len() == col.len(),
{
    lemma_merge_phase_len(col, 0);
    lemma_slide_phase_len(merge_phase(col, 0).0);
}

/// A line of the swiped field is the swiped line of the field with its tiles held.
pub proof fn lemma_column_of_swipe(rows: Seq<Seq<Option<Tile>>>, shape: (usize, usize), side: Side, x: int)
    requires
        0 <= x < spec_width_from_side(side, shape),
    ensures
        column_at(spec_swipe(rows, shape, side), shape, side, x) == swipe_column(
            held_column_at(rows, shape, side, x),
        ).0,
{
    lemma_side_index(side, shape);
    let held = held_column_at(rows, shape, side, x);
    lemma_swipe_column_len(held);
    let col = column_at(spec_swipe(rows, shape, side), shape, side, x);
    assert forall|y: int| 0 <= y < col.len() implies col[y] == swipe_column(held).0[y] by {
        assert(in_side_range(side, shape, x, y));
    }
    assert(col =~= swipe_column(held).0);
}

/// A swipe keeps, on every line that runs toward the side, the sum of the values that
/// its cells show.
pub proof fn law_swipe_keeps_line_value(rows: Seq<Seq<Option<Tile>>>, shape: (usize, usize), side: Side, x: int)
    requires
        0 <= x < spec_width_from_side(side, shape),
        !swipe_column(held_column_at(rows, shape, side, x)).1,
    ensures
        column_value(column_at(spec_swipe(rows, shape, side), shape, side, x)) == column_value(
            column_at(rows, shape, side, x),
        ),
{
    let held = held_column_at(rows, shape, side, x);
    lemma_column_of_swipe(rows, shape, side, x);
    law_swipe_column_keeps_value(held);
    lemma_value_pointwise(held, column_at(rows, shape, side, x));
}

/// Reading the values of the field that a grid of values makes gives back that grid:
/// every cell shows the value it was made from, and its tile's value fits in a `u32`.
pub proof fn law_value_round_trip(v: u32, row: int, col: int)
    requires
        is_tile_value(v),
    ensures
        value_of_tile(tile_of_value(v, row, col)) == v,
        tile_of_value(v, row, col) is Some ==> tile_of_value(v, row, col).unwrap().0 < 32,
{
    if v != 0 {
        lemma2_to64();
        let k = log2_floor(v as nat);
        if k > 32 {
            lemma_pow2_strictly_increases(32, k);
        }
    }
}

/// Making a field from the values of a field gives back its tiles, each holding its place.
pub proof fn law_tile_round_trip(t: Option<Tile>, row: int, col: int)
    requires
        0 <= row <= usize::MAX,
        0 <= col <= usize::MAX,
        t is Some ==> t.unwrap().0 < 32,
    ensures
        value_of_tile(t) <= u32::MAX,
        is_tile_value(value_of_tile(t) as u32),
        tile_of_value(value_of_tile(t) as u32, row, col) == match t {
            Some(tile) => Some(Tile(tile.0, Origin::Hold(col as usize, row as usize))),
            None => None,
        },
{
    if let Some(tile) = t {
        let l = tile.0 as nat;
        lemma2_to64();
        lemma_pow2_pos(l);
        if l < 31 {
            lemma_pow2_strictly_increases(l, 31);
        }
        lemma_log2_of_pow2(l);
    }
}

/// No tile of the line has just appeared.
pub open spec fn no_appear(col: Seq<Option<Tile>>) -> bool {
    forall|i: int| 0 <= i < col.len() && #[trigger] col[i] is Some ==> !(col[i].unwrap().1 is Appear)
}

/// The tiles of the line lie together at its start: no empty cell comes before a tile.
pub open spec fn packed(col: Seq<Option<Tile>>) -> bool {
    forall|i: int, j: int| 0 <= i < j < col.len() && (#[trigger] col[j]) is Some ==> (#[trigger] col[i]) is Some
}

/// A join keeps a line free of tiles that have just appeared.
proof fn lemma_join_no_appear(col: Seq<Option<Tile>>, y: int)
    requires
        0 <= y,
        y + 1 < col.len(),
        no_appear(col),
    ensures
        ({
            let j = spec_join(col[y], col[y + 1]);
            no_appear(col.update(y, j.0).update(y + 1, j.1))
        }),
{
    let j = spec_join(col[y], col[y + 1]);
    let c2 = col.update(y, j.0).update(y + 1, j.1);
    assert forall|i: int| 0 <= i < c2.len() && #[trigger] c2[i] is Some implies !(c2[i].unwrap().1 is Appear) by {
        if i != y && i != y + 1 {
            assert(c2[i] == col[i]);
        } else {
            assert(col[y] is Some ==> !(col[y].unwrap().1 is Appear));
            assert(col[y + 1] is Some ==> !(col[y + 1].unwrap().1 is Appear));
        }
    }
}

/// The merge phase keeps a line free of tiles that have just appeared.
proof fn lemma_merge_pass_no_appear(col: Seq<Option<Tile>>, y: nat, restart: Option<nat>)
    requires
        no_appear(col),
    ensures
        no_appear(merge_pass(col, y, restart).0),
    decreases col.len() - y,
{
    if y + 1 < col.len() {
        let j = spec_join(col[y as int], col[y + 1int]);
        match j.2 {
            Some(jr) => {
                lemma_join_no_appear(col, y as int);
                let c2 = col.update(y as int, j.0).update(y + 1int, j.1);
                let r2 = match restart {
                    Some(s) => Some(s),
                    None => Some(if jr is TileMerged { y + 1 } else { y }),
                };
                lemma_merge_pass_no_appear(c2, y + 1, r2);
            },
            None => {
                lemma_merge_pass_no_appear(col, y + 1, restart);
            },
        }
    }
}

/// The merge phase keeps a line free of tiles that have just appeared.
proof fn lemma_merge_phase_no_appear(col: Seq<Option<Tile>>, start: nat)
    requires
        no_appear(col),
    ensures
        no_appear(merge_phase(col, start).0),
    decreases crate::column::column_weight(col),
{
    let p = merge_pass(col, start, None);
    lemma_merge_pass_no_appear(col, start, None);
    if let Some(s) = p.1 {
        lemma_merge_pass_weight(col, start, None);
        lemma_merge_phase_no_appear(p.0, s);
    }
}

/// A slide pass keeps a line free of tiles that have just appeared; when no tile moves in
/// it, the line stays as it is and no empty cell comes right before a tile.
proof fn lemma_slide_pass_shape(col: Seq<Option<Tile>>, y: nat, moved: bool)
    requires
        no_appear(col),
    ensures
        no_appear(slide_pass(col, y, moved).0),
        !slide_pass(col, y, moved).1 ==> slide_pass(col, y, moved).0 == col && forall|k: int|
            y <= k && k + 1 < col.len() && (#[trigger] col[k + 1]) is Some ==> col[k] is Some,
        moved ==> slide_pass(col, y, moved).1,
    decreases col.len() - y,
{
    if y + 1 < col.len() {
        let j = spec_join(col[y as int], col[y + 1int]);
        if j.2 == Some(JoinResult::TileMoved) {
            lemma_join_no_appear(col, y as int);
            lemma_slide_pass_shape(col.update(y as int, j.0).update(y + 1int, j.1), y + 1, true);
        } else {
            lemma_slide_pass_shape(col, y + 1, moved);
            if col[y + 1int] is Some {
                assert(!(col[y + 1int].unwrap().1 is Appear));
            }
        }
    }
}

/// The slide phase leaves the tiles of a line free of tiles that have just appeared
/// together at its start.
proof fn lemma_slide_phase_packed(col: Seq<Option<Tile>>)
    requires
        no_appear(col),
    ensures
        packed(slide_phase(col).0),
    decreases crate::column::column_weight(col),
{
    let p = slide_pass(col, 0, false);
    lemma_slide_pass_shape(col, 0, false);
    if p.1 {
        lemma_slide_pass_weight(col, 0, false);
        lemma_slide_phase_packed(p.0);
    } else {
        lemma_adjacent_packed(col);
    }
}

/// A line in which no empty cell comes right before a tile is packed.
proof fn lemma_adjacent_packed(col: Seq<Option<Tile>>)
    requires
        forall|k: int| 0 <= k && k + 1 < col.len() && (#[trigger] col[k + 1]) is Some ==> col[k] is Some,
    ensures
        packed(col),
{
    assert forall|i: int, j: int| 0 <= i < j < col.len() && (#[trigger] col[j]) is Some implies (#[trigger] col[i]) is Some by {
        lemma_adjacent_packed_from(col, i, j);
    }
}

/// Walking down from a tile at `j` to `i`, every cell holds a tile.
proof fn lemma_adjacent_packed_from(col: Seq<Option<Tile>>, i: int, j: int)
    requires
        forall|k: int| 0 <= k && k + 1 < col.len() && (#[trigger] col[k + 1]) is Some ==> col[k] is Some,
        0 <= i <= j < col.len(),
        col[j] is Some,
    ensures
        col[i] is Some,
    decreases j - i,
{
    if i < j {
        assert(col[(j - 1) + 1] is Some);
        lemma_adjacent_packed_from(col, i, j - 1);
    }
}

/// After a swipe, the tiles of every line that runs toward the side lie together at the
/// side: no empty cell comes before a tile.
pub proof fn law_swipe_packs_lines(rows: Seq<Seq<Option<Tile>>>, shape: (usize, usize), side: Side, x: int)
    requires
        0 <= x < spec_width_from_side(side, shape),
    ensures
        packed(column_at(spec_swipe(rows, shape, side), shape, side, x)),
{
    let held = held_column_at(rows, shape, side, x);
    lemma_column_of_swipe(rows, shape, side, x);
    assert(no_appear(held));
    lemma_merge_phase_no_appear(held, 0);
    lemma_slide_phase_packed(merge_phase(held, 0).0);
}

/// The number of tiles on a line.
pub open spec fn column_count(col: Seq<Option<Tile>>) -> nat
    decreases col.len(),
{
    if col.len() == 0 {
        0
    } else {
        column_count(col.drop_last()) + if col.last() is Some { 1nat } else { 0nat }
    }
}

/// Changing one cell changes the count by the change of that cell.
proof fn lemma_count_update(col: Seq<Option<Tile>>, i: int, v: Option<Tile>)
    requires
        0 <= i < col.len(),
    ensures
        column_count(col.update(i, v)) + (if col[i] is Some { 1int } else { 0int }) == column_count(col)
            + (if v is Some { 1int } else { 0int }),
    decreases col.len(),
{
    let c2 = col.update(i, v);
    if i == col.len() - 1 {
        assert(c2.drop_last() =~= col.drop_last());
    } else {
        assert(c2.drop_last() =~= col.drop_last().update(i, v));
        lemma_count_update(col.drop_last(), i, v);
    }
}

/// A join never adds a tile.
proof fn lemma_join_count(col: Seq<Option<Tile>>, y: int)
    requires
        0 <= y,
        y + 1 < col.len(),
    ensures
        ({
            let j = spec_join(col[y], col[y + 1]);
            column_count(col.update(y, j.0).update(y + 1, j.1)) <= column_count(col)
        }),
{
    let j = spec_join(col[y], col[y + 1]);
    lemma_count_update(col, y, j.0);
    lemma_count_update(col.update(y, j.0), y + 1, j.1);
}

/// A merge pass never adds a tile.
proof fn lemma_merge_pass_count(col: Seq<Option<Tile>>, y: nat, restart: Option<nat>)
    ensures
        column_count(merge_pass(col, y, restart).0) <= column_count(col),
    decreases col.len() - y,
{
    if y + 1 < col.len() {
        let j = spec_join(col[y as int], col[y + 1int]);
        match j.2 {
            Some(jr) => {
                lemma_join_count(col, y as int);
                let c2 = col.update(y as int, j.0).update(y + 1int, j.1);
                let r2 = match restart {
                    Some(s) => Some(s),
                    None => Some(if jr is TileMerged { y + 1 } else { y }),
                };
                lemma_merge_pass_count(c2, y + 1, r2);
            },
            None => {
                lemma_merge_pass_count(col, y + 1, restart);
            },
        }
    }
}

/// The merge phase never adds a tile.
proof fn lemma_merge_phase_count(col: Seq<Option<Tile>>, start: nat)
    ensures
        column_count(merge_phase(col, start).0) <= column_count(col),
    decreases crate::column::column_weight(col),
{
    let p = merge_pass(col, start, None);
    lemma_merge_pass_count(col, start, None);
    if let Some(s) = p.1 {
        lemma_merge_pass_weight(col, start, None);
        lemma_merge_phase_count(p.0, s);
    }
}

/// A slide pass never adds a tile.
proof fn lemma_slide_pass_count(col: Seq<Option<Tile>>, y: nat, moved: bool)
    ensures
        column_count(slide_pass(col, y, moved).0) <= column_count(col),
    decreases col.len() - y,
{
    if y + 1 < col.len() {
        let j = spec_join(col[y as int], col[y + 1int]);
        if j.2 == Some(JoinResult::TileMoved) {
            lemma_join_count(col, y as int);
            lemma_slide_pass_count(col.update(y as int, j.0).update(y + 1int, j.1), y + 1, true);
        } else {
            lemma_slide_pass_count(col, y + 1, moved);
        }
    }
}

/// The slide phase never adds a tile.
proof fn lemma_slide_phase_count(col: Seq<Option<Tile>>)
    ensures
        column_count(slide_phase(col).0) <= column_count(col),
    decreases crate::column::column_weight(col),
{
    let p = slide_pass(col, 0, false);
    lemma_slide_pass_count(col, 0, false);
    if p.1 {
        lemma_slide_pass_weight(col, 0, false);
        lemma_slide_phase_count(p.0);
    }
}

/// Lines with tiles at the same cells have the same count.
proof fn lemma_count_pointwise(a: Seq<Option<Tile>>, b: Seq<Option<Tile>>)
    requires
        a.len() == b.len(),
        forall|i: int| 0 <= i < a.len() ==> (#[trigger] a[i] is Some) == (b[i] is Some),
    ensures
        column_count(a) == column_count(b),
    decreases a.len(),
{
    if a.len() > 0 {
        lemma_count_pointwise(a.drop_last(), b.drop_last());
    }
}

/// A swipe never adds a tile to a line that runs toward the side.
pub proof fn law_swipe_never_adds_tiles(rows: Seq<Seq<Option<Tile>>>, shape: (usize, usize), side: Side, x: int)
    requires
        0 <= x < spec_width_from_side(side, shape),
    ensures
        column_count(column_at(spec_swipe(rows, shape, side), shape, side, x)) <= column_count(
            column_at(rows, shape, side, x),
        ),
{
    let held = held_column_at(rows, shape, side, x);
    lemma_column_of_swipe(rows, shape, side, x);
    lemma_merge_phase_count(held, 0);
    lemma_slide_phase_count(merge_phase(held, 0).0);
    lemma_count_pointwise(held, column_at(rows, shape, side, x));
}

/// The index `i` of a row-major array of `rows * cols` cells is the cell
/// `(i / cols, i % cols)`.
proof fn lemma_row_major_cell(i: int, rows: int, cols: int)
    requires
        0 <= i < rows * cols,
        0 < cols,
    ensures
        0 <= i / cols < rows,
        0 <= i % cols < cols,
        (i / cols) * cols + i % cols == i,
{
    vstd::arithmetic::div_mod::lemma_fundamental_div_mod(i, cols);
    assert((i / cols) * cols == cols * (i / cols)) by (nonlinear_arith);
    assert(0 <= i / cols) by (nonlinear_arith)
        requires
            0 <= i,
            0 < cols,
    ;
    assert(i / cols < rows) by (nonlinear_arith)
        requires
            0 <= i < rows * cols,
            0 < cols,
            (i / cols) * cols + i % cols == i,
            0 <= i % cols,
    ;
}

/// Turning a grid of values into a field (`f`, as `Field::from_array` makes it) and
/// reading the values of that field back (`b`, as `Field::into_array` reads them) gives the
/// grid again; on the way every tile's value fits in a `u32`, so the values can be read.
pub proof fn law_array_round_trip(a: Grid<u32>, f: Field, b: Grid<u32>)
    requires
        a.wf(),
        forall|i: int| 0 <= i < a.cells.len() ==> is_tile_value(#[trigger] a.cells[i]),
        f.shape() == (a.rows, a.cols),
        rows_match(f.rows(), f.shape()),
        forall|r: int, c: int|
            0 <= r < a.rows && 0 <= c < a.cols ==> #[trigger] f.rows()[r][c] == tile_of_value(
                a.cells[r * a.cols + c],
                r,
                c,
            ),
        b.rows == f.shape().0,
        b.cols == f.shape().1,
        b.wf(),
        forall|r: int, c: int|
            0 <= r < b.rows && 0 <= c < b.cols ==> b.cells[r * b.cols + c] as nat == value_of_tile(
                #[trigger] f.rows()[r][c],
            ),
    ensures
        levels_fit(f.rows()),
        b.rows == a.rows,
        b.cols == a.cols,
        b.cells@ == a.cells@,
{
    assert forall|r: int, c: int|
        0 <= r < f.rows().len() && 0 <= c < f.rows()[r].len() && #[trigger] f.rows()[r][c] is Some
            implies f.rows()[r][c].unwrap().0 < 32 by {
        crate::field::lemma_row_major_index(r, c, a.rows as int, a.cols as int);
        law_value_round_trip(a.cells[r * a.cols + c], r, c);
    }
    assert forall|i: int| 0 <= i < a.cells.len() implies b.cells[i] == a.cells[i] by {
        let r = i / a.cols as int;
        let c = i % a.cols as int;
        lemma_row_major_cell(i, a.rows as int, a.cols as int);
        let _ = f.rows()[r][c];
        law_value_round_trip(a.cells[i], r, c);
    }
    assert(b.cells@ =~= a.cells@);
}

/// 1 for a tile, 0 for an empty cell.
pub open spec fn counts() -> spec_fn(Option<Tile>) -> int {
    |t: Option<Tile>| if t is Some { 1int } else { 0int }
}

/// 1 for a tile that two tiles merged into, 0 for any other cell.
pub open spec fn merges() -> spec_fn(Option<Tile>) -> int {
    |t: Option<Tile>|
        match t {
            Some(tile) => if tile.1 is Merged { 1int } else { 0int },
            None => 0int,
        }
}

/// The value that a cell shows.
pub open spec fn values() -> spec_fn(Option<Tile>) -> int {
    |t: Option<Tile>| value_of_tile(t) as int
}

/// A cell counted once as a tile and once more when it is a merge.
spec fn weights() -> spec_fn(Option<Tile>) -> int {
    |t: Option<Tile>| counts()(t) + merges()(t)
}

/// Changing one cell of a line changes its sum by the change of that cell.
proof fn lemma_line_update(col: Seq<Option<Tile>>, i: int, v: Option<Tile>, g: spec_fn(Option<Tile>) -> int)
    requires
        0 <= i < col.len(),
    ensures
        line_sum(col.update(i, v), g) + g(col[i]) == line_sum(col, g) + g(v),
{
    lemma_sum_update(col.len(), |y: int| g(col[y]), |y: int| g(col.update(i, v)[y]), i);
}

/// The weight of a line is its number of tiles plus its number of merges.
proof fn lemma_line_weight_split(col: Seq<Option<Tile>>)
    ensures
        line_sum(col, weights()) == line_sum(col, counts()) + line_sum(col, merges()),
{
    let p = |y: int| counts()(col[y]);
    let q = |y: int| merges()(col[y]);
    lemma_sum_add(col.len(), p, q);
    lemma_sum_ext(col.len(), |y: int| weights()(col[y]), |i: int| p(i) + q(i));
    lemma_sum_ext(col.len(), p, |y: int| counts()(col[y]));
    lemma_sum_ext(col.len(), q, |y: int| merges()(col[y]));
}

/// A join keeps the weight of a line: a move keeps its tile, a merge turns two tiles into
/// one merge.
proof fn lemma_join_weight(col: Seq<Option<Tile>>, y: int)
    requires
        0 <= y,
        y + 1 < col.len(),
    ensures
        ({
            let j = spec_join(col[y], col[y + 1]);
            line_sum(col.update(y, j.0).update(y + 1, j.1), weights()) == line_sum(col, weights())
        }),
{
    let j = spec_join(col[y], col[y + 1]);
    let c1 = col.update(y, j.0);
    lemma_line_update(col, y, j.0, weights());
    lemma_line_update(c1, y + 1, j.1, weights());
    assert(weights()(j.0) + weights()(j.1) == weights()(col[y]) + weights()(col[y + 1]));
}

/// A merge pass keeps the weight of a line.
proof fn lemma_merge_pass_weight_sum(col: Seq<Option<Tile>>, y: nat, restart: Option<nat>)
    ensures
        line_sum(merge_pass(col, y, restart).0, weights()) == line_sum(col, weights()),
    decreases col.len() - y,
{
    if y + 1 < col.len() {
        let j = spec_join(col[y as int], col[y + 1int]);
        match j.2 {
            Some(jr) => {
                lemma_join_weight(col, y as int);
                let c2 = col.update(y as int, j.0).update(y + 1int, j.1);
                let r2 = match restart {
                    Some(s) => Some(s),
                    None => Some(if jr is TileMerged { y + 1 } else { y }),
                };
                lemma_merge_pass_weight_sum(c2, y + 1, r2);
            },
            None => {
                lemma_merge_pass_weight_sum(col, y + 1, restart);
            },
        }
    }
}

/// The merge phase keeps the weight of a line.
proof fn lemma_merge_phase_weight_sum(col: Seq<Option<Tile>>, start: nat)
    ensures
        line_sum(merge_phase(col, start).0, weights()) == line_sum(col, weights()),
    decreases crate::column::column_weight(col),
{
    let p = merge_pass(col, start, None);
    lemma_merge_pass_weight_sum(col, start, None);
    if let Some(s) = p.1 {
        lemma_merge_pass_weight(col, start, None);
        lemma_merge_phase_weight_sum(p.0, s);
    }
}

/// A slide pass keeps the weight of a line.
proof fn lemma_slide_pass_weight_sum(col: Seq<Option<Tile>>, y: nat, moved: bool)
    ensures
        line_sum(slide_pass(col, y, moved).0, weights()) == line_sum(col, weights()),
    decreases col.len() - y,
{
    if y + 1 < col.len() {
        let j = spec_join(col[y as int], col[y + 1int]);
        if j.2 == Some(JoinResult::TileMoved) {
            lemma_join_weight(col, y as int);
            lemma_slide_pass_weight_sum(col.update(y as int, j.0).update(y + 1int, j.1), y + 1, true);
        } else {
            lemma_slide_pass_weight_sum(col, y + 1, moved);
        }
    }
}

/// The slide phase keeps the weight of a line.
proof fn lemma_slide_phase_weight_sum(col: Seq<Option<Tile>>)
    ensures
        line_sum(slide_phase(col).0, weights()) == line_sum(col, weights()),
    decreases crate::column::column_weight(col),
{
    let p = slide_pass(col, 0, false);
    lemma_slide_pass_weight_sum(col, 0, false);
    if p.1 {
        lemma_slide_pass_weight(col, 0, false);
        lemma_slide_phase_weight_sum(p.0);
    }
}

/// The slide phase keeps a line free of tiles that have just appeared.
proof fn lemma_slide_phase_no_appear(col: Seq<Option<Tile>>)
    requires
        no_appear(col),
    ensures
        no_appear(slide_phase(col).0),
    decreases crate::column::column_weight(col),
{
    let p = slide_pass(col, 0, false);
    lemma_slide_pass_shape(col, 0, false);
    if p.1 {
        lemma_slide_pass_weight(col, 0, false);
        lemma_slide_phase_no_appear(p.0);
    }
}

/// The tiles of line `x` after a swipe plus its merges are the tiles it had before.
proof fn lemma_line_count_after_swipe(rows: Seq<Seq<Option<Tile>>>, shape: (usize, usize), side: Side, x: int)
    requires
        0 <= x < spec_width_from_side(side, shape),
    ensures
        line_sum(column_at(spec_swipe(rows, shape, side), shape, side, x), counts()) + line_sum(
            column_at(spec_swipe(rows, shape, side), shape, side, x),
            merges(),
        ) == line_sum(column_at(rows, shape, side, x), counts()),
{
    let held = held_column_at(rows, shape, side, x);
    let after = swipe_column(held).0;
    lemma_column_of_swipe(rows, shape, side, x);
    lemma_merge_phase_weight_sum(held, 0);
    lemma_slide_phase_weight_sum(merge_phase(held, 0).0);
    lemma_line_weight_split(after);
    lemma_sum_ext(
        held.len(),
        |y: int| weights()(held[y]),
        |y: int| counts()(column_at(rows, shape, side, x)[y]),
    );
}

/// A swipe removes one tile for each merge it makes and places no new tile: the tiles
/// after the swipe, plus the tiles that are merges, are as many as the tiles before, and no
/// tile after the swipe is marked as having just appeared.
pub proof fn law_swipe_keeps_tile_count(rows: Seq<Seq<Option<Tile>>>, shape: (usize, usize), side: Side)
    ensures
        cells_total(spec_swipe(rows, shape, side), shape, counts()) + cells_total(
            spec_swipe(rows, shape, side),
            shape,
            merges(),
        ) == cells_total(rows, shape, counts()),
        forall|r: int, c: int|
            0 <= r < shape.0 && 0 <= c < shape.1 && #[trigger] spec_swipe(rows, shape, side)[r][c] is Some
                ==> !(spec_swipe(rows, shape, side)[r][c].unwrap().1 is Appear),
{
    let after = spec_swipe(rows, shape, side);
    let w = spec_width_from_side(side, shape) as nat;
    lemma_side_total(after, shape, side, counts());
    lemma_side_total(after, shape, side, merges());
    lemma_side_total(rows, shape, side, counts());
    let p = |x: int| line_sum(column_at(after, shape, side, x), counts());
    let q = |x: int| line_sum(column_at(after, shape, side, x), merges());
    lemma_sum_add(w, p, q);
    lemma_sum_ext(w, p, |x: int| line_sum(column_at(after, shape, side, x), counts()));
    lemma_sum_ext(w, q, |x: int| line_sum(column_at(after, shape, side, x), merges()));
    assert forall|x: int| 0 <= x < w implies #[trigger] line_sum(column_at(after, shape, side, x), counts())
        + line_sum(column_at(after, shape, side, x), merges()) == line_sum(
        column_at(rows, shape, side, x),
        counts(),
    ) by {
        lemma_line_count_after_swipe(rows, shape, side, x);
    }
    lemma_sum_ext(w, |i: int| p(i) + q(i), |x: int| line_sum(column_at(rows, shape, side, x), counts()));
    assert(side_total(after, shape, side, counts()) + side_total(after, shape, side, merges())
        == side_total(rows, shape, side, counts()));
    lemma_side_index(side, shape);
    assert forall|r: int, c: int|
        0 <= r < shape.0 && 0 <= c < shape.1 && #[trigger] after[r][c] is Some implies !(
        after[r][c].unwrap().1 is Appear) by {
        let (x, y) = spec_side_of_index(side, shape, r, c);
        let held = held_column_at(rows, shape, side, x);
        assert(no_appear(held));
        lemma_merge_phase_no_appear(held, 0);
        lemma_slide_phase_no_appear(merge_phase(held, 0).0);
        lemma_swipe_column_len(held);
        assert(after[r][c] == swipe_column(held).0[y]);
    }
}

/// The value that a line shows, summed cell by cell.
proof fn lemma_column_value_sum(col: Seq<Option<Tile>>)
    ensures
        column_value(col) == line_sum(col, values()),
    decreases col.len(),
{
    if col.len() > 0 {
        let d = col.drop_last();
        lemma_column_value_sum(d);
        lemma_sum_ext(d.len(), |y: int| values()(d[y]), |y: int| values()(col[y]));
    }
}

/// A swipe keeps the total value of the field, when no two tiles of the highest level
/// merge: a merge turns two tiles that show `2^l` into one that shows `2^(l+1)`.
pub proof fn law_swipe_keeps_field_value(rows: Seq<Seq<Option<Tile>>>, shape: (usize, usize), side: Side)
    requires
        !swipe_overflows(rows, shape, side),
    ensures
        cells_total(spec_swipe(rows, shape, side), shape, values()) == cells_total(rows, shape, values()),
{
    let after = spec_swipe(rows, shape, side);
    let w = spec_width_from_side(side, shape) as nat;
    lemma_side_total(after, shape, side, values());
    lemma_side_total(rows, shape, side, values());
    assert forall|x: int| 0 <= x < w implies #[trigger] line_sum(column_at(after, shape, side, x), values())
        == line_sum(column_at(rows, shape, side, x), values()) by {
        assert(!swipe_column(held_column_at(rows, shape, side, x)).1);
        law_swipe_keeps_line_value(rows, shape, side, x);
        lemma_column_value_sum(column_at(after, shape, side, x));
        lemma_column_value_sum(column_at(rows, shape, side, x));
    }
    lemma_sum_ext(
        w,
        |x: int| line_sum(column_at(after, shape, side, x), values()),
        |x: int| line_sum(column_at(rows, shape, side, x), values()),
    );
}

/// A tile at the start of a line that can no longer move or merge stays through a merge
/// pass.
proof fn lemma_merge_pass_keeps_first(col: Seq<Option<Tile>>, y: nat, restart: Option<nat>)
    requires
        col.len() > 0,
        col[0] is Some,
        !is_movable(col[0].unwrap().1),
    ensures
        merge_pass(col, y, restart).0.len() == col.len(),
        merge_pass(col, y, restart).0[0] == col[0],
    decreases col.len() - y,
{
    if y + 1 < col.len() {
        let j = spec_join(col[y as int], col[y + 1int]);
        match j.2 {
            Some(jr) => {
                let c2 = col.update(y as int, j.0).update(y + 1int, j.1);
                assert(c2[0] == col[0]);
                let r2 = match restart {
                    Some(s) => Some(s),
                    None => Some(if jr is TileMerged { y + 1 } else { y }),
                };
                lemma_merge_pass_keeps_first(c2, y + 1, r2);
            },
            None => {
                lemma_merge_pass_keeps_first(col, y + 1, restart);
            },
        }
    }
}

/// A tile at the start of a line that can no longer move or merge stays through the merge
/// phase.
proof fn lemma_merge_phase_keeps_first(col: Seq<Option<Tile>>, start: nat)
    requires
        col.len() > 0,
        col[0] is Some,
        !is_movable(col[0].unwrap().1),
    ensures
        merge_phase(col, start).0.len() == col.len(),
        merge_phase(col, start).0[0] == col[0],
    decreases crate::column::column_weight(col),
{
    let p = merge_pass(col, start, None);
    lemma_merge_pass_keeps_first(col, start, None);
    if let Some(s) = p.1 {
        lemma_merge_pass_weight(col, start, None);
        lemma_merge_phase_keeps_first(p.0, s);
    }
}

/// A tile at the start of a line that can no longer move or merge stays through a slide
/// pass.
proof fn lemma_slide_pass_keeps_first(col: Seq<Option<Tile>>, y: nat, moved: bool)
    requires
        col.len() > 0,
        col[0] is Some,
        !is_movable(col[0].unwrap().1),
    ensures
        slide_pass(col, y, moved).0.len() == col.len(),
        slide_pass(col, y, moved).0[0] == col[0],
    decreases col.len() - y,
{
    if y + 1 < col.len() {
        let j = spec_join(col[y as int], col[y + 1int]);
        if j.2 == Some(JoinResult::TileMoved) {
            let c2 = col.update(y as int, j.0).update(y + 1int, j.1);
            assert(c2[0] == col[0]);
            lemma_slide_pass_keeps_first(c2, y + 1, true);
        } else {
            lemma_slide_pass_keeps_first(col, y + 1, moved);
        }
    }
}

/// A tile at the start of a line that can no longer move or merge stays through the slide
/// phase.
proof fn lemma_slide_phase_keeps_first(col: Seq<Option<Tile>>)
    requires
        col.len() > 0,
        col[0] is Some,
        !is_movable(col[0].unwrap().1),
    ensures
        slide_phase(col).0[0] == col[0],
    decreases crate::column::column_weight(col),
{
    let p = slide_pass(col, 0, false);
    lemma_slide_pass_keeps_first(col, 0, false);
    if p.1 {
        lemma_slide_pass_weight(col, 0, false);
        lemma_slide_phase_keeps_first(p.0);
    }
}

/// A line whose first two cells hold tiles of one level below the highest, both holding
/// their places, is swiped into a line whose first cell holds one tile of the next level,
/// the merge of those two; the level may be any.
pub proof fn law_swipe_merges_first_pair(col: Seq<Option<Tile>>, l: u32, a: (usize, usize), b: (usize, usize))
    requires
        col.len() >= 2,
        col[0] == Some(Tile(l, Origin::Hold(a.0, a.1))),
        col[1] == Some(Tile(l, Origin::Hold(b.0, b.1))),
        l < u32::MAX,
    ensures
        swipe_column(col).0[0] == Some(Tile((l + 1) as u32, Origin::Merged(a, b))),
{
    let j = spec_join(col[0], col[1]);
    let c2 = col.update(0, j.0).update(1, j.1);
    assert(c2[0] == Some(Tile((l + 1) as u32, Origin::Merged(a, b))));
    lemma_merge_pass_keeps_first(c2, 1, Some(1));
    let p = merge_pass(col, 0, None);
    assert(p.0 == merge_pass(c2, 1, Some(1)).0);
    assert(p.1 == merge_pass(c2, 1, Some(1)).1);
    lemma_merge_pass_keeps_first_restart(c2, 1, 1);
    lemma_merge_phase_keeps_first(p.0, 1);
    lemma_merge_phase_keeps_first(p.0, p.1.unwrap());
    let m = merge_phase(col, 0).0;
    assert(m[0] == c2[0]);
    lemma_slide_phase_keeps_first(m);
}

/// A pass that was given a place to restart from returns a place to restart from.
proof fn lemma_merge_pass_keeps_first_restart(col: Seq<Option<Tile>>, y: nat, s: nat)
    ensures
        merge_pass(col, y, Some(s)).1 is Some,
    decreases col.len() - y,
{
    if y + 1 < col.len() {
        let j = spec_join(col[y as int], col[y + 1int]);
        if j.2 is Some {
            lemma_merge_pass_keeps_first_restart(col.update(y as int, j.0).update(y + 1int, j.1), y + 1, s);
        } else {
            lemma_merge_pass_keeps_first_restart(col, y + 1, s);
        }
    }
}

/// A swipe merges the two tiles nearest the side on a line when they have one level below
/// the highest, whatever that level: the cell at the side then holds one tile of the next
/// level, the merge of the two.
pub proof fn law_swipe_merges_nearest_pair(
    rows: Seq<Seq<Option<Tile>>>,
    shape: (usize, usize),
    side: Side,
    x: int,
    l: u32,
)
    requires
        0 <= x < spec_width_from_side(side, shape),
        spec_height_from_side(side, shape) >= 2,
        cell_at(rows, shape, side, x, 0) is Some,
        cell_at(rows, shape, side, x, 1) is Some,
        cell_at(rows, shape, side, x, 0).unwrap().0 == l,
        cell_at(rows, shape, side, x, 1).unwrap().0 == l,
        l < u32::MAX,
    ensures
        cell_at(spec_swipe(rows, shape, side), shape, side, x, 0) == Some(
            Tile((l + 1) as u32, Origin::Merged((x as usize, 0usize), (x as usize, 1usize))),
        ),
{
    let held = held_column_at(rows, shape, side, x);
    lemma_column_of_swipe(rows, shape, side, x);
    law_swipe_merges_first_pair(held, l, (x as usize, 0usize), (x as usize, 1usize));
    assert(column_at(spec_swipe(rows, shape, side), shape, side, x)[0] == cell_at(
        spec_swipe(rows, shape, side),
        shape,
        side,
        x,
        0,
    ));
}

/// The tile `t` at cell `i` of line `x` tells truly where it came from, the line having
/// been `orig` before the swipe: a tile that holds its place lies on its own cell and has
/// the level of the tile that stood there; a tile that moved came from a cell farther from
/// the side, where a tile of its level stood; a merge came from two cells of the line, the
/// nearer no nearer to the side than the merge itself and the other farther, both of which
/// held tiles; no tile is new.
pub open spec fn traced_at(t: Option<Tile>, orig: Seq<Option<Tile>>, x: int, i: int) -> bool {
    match t {
        None => true,
        Some(tile) => match tile.1 {
            Origin::Hold(a, b) => a as int == x && b as int == i && orig[i] is Some && orig[i].unwrap().0
                == tile.0,
            Origin::Moved(a, b) => a as int == x && i < b < orig.len() && orig[b as int] is Some
                && orig[b as int].unwrap().0 == tile.0,
            Origin::Merged(p, q) => p.0 as int == x && q.0 as int == x && i <= p.1 < orig.len() && i
                < q.1 < orig.len() && orig[p.1 as int] is Some && orig[q.1 as int] is Some,
            Origin::Appear => false,
        },
    }
}

/// Every tile of the line `col`, line `x`, tells truly where it came from in `orig`.
pub open spec fn traced(col: Seq<Option<Tile>>, orig: Seq<Option<Tile>>, x: int) -> bool {
    &&& col.len() == orig.len()
    &&& forall|i: int| 0 <= i < col.len() ==> traced_at(#[trigger] col[i], orig, x, i)
}

/// A join keeps every tile of a line telling truly where it came from.
proof fn lemma_join_traced(col: Seq<Option<Tile>>, orig: Seq<Option<Tile>>, x: int, y: int)
    requires
        traced(col, orig, x),
        0 <= y,
        y + 1 < col.len(),
    ensures
        ({
            let j = spec_join(col[y], col[y + 1]);
            traced(col.update(y, j.0).update(y + 1, j.1), orig, x)
        }),
{
    let j = spec_join(col[y], col[y + 1]);
    let c2 = col.update(y, j.0).update(y + 1, j.1);
    assert(traced_at(col[y], orig, x, y));
    assert(traced_at(col[y + 1], orig, x, y + 1));
    assert forall|i: int| 0 <= i < c2.len() implies traced_at(#[trigger] c2[i], orig, x, i) by {
        if i != y && i != y + 1 {
            assert(c2[i] == col[i]);
        }
    }
}

proof fn lemma_merge_pass_traced(col: Seq<Option<Tile>>, orig: Seq<Option<Tile>>, x: int, y: nat, restart: Option<nat>)
    requires
        traced(col, orig, x),
    ensures
        traced(merge_pass(col, y, restart).0, orig, x),
    decreases col.len() - y,
{
    if y + 1 < col.len() {
        let j = spec_join(col[y as int], col[y + 1int]);
        match j.2 {
            Some(jr) => {
                lemma_join_traced(col, orig, x, y as int);
                let c2 = col.update(y as int, j.0).update(y + 1int, j.1);
                let r2 = match restart {
                    Some(s) => Some(s),
                    None => Some(if jr is TileMerged { y + 1 } else { y }),
                };
                lemma_merge_pass_traced(c2, orig, x, y + 1, r2);
            },
            None => {
                lemma_merge_pass_traced(col, orig, x, y + 1, restart);
            },
        }
    }
}

proof fn lemma_merge_phase_traced(col: Seq<Option<Tile>>, orig: Seq<Option<Tile>>, x: int, start: nat)
    requires
        traced(col, orig, x),
    ensures
        traced(merge_phase(col, start).0, orig, x),
    decreases crate::column::column_weight(col),
{
    let p = merge_pass(col, start, None);
    lemma_merge_pass_traced(col, orig, x, start, None);
    if let Some(s) = p.1 {
        lemma_merge_pass_weight(col, start, None);
        lemma_merge_phase_traced(p.0, orig, x, s);
    }
}

proof fn lemma_slide_pass_traced(col: Seq<Option<Tile>>, orig: Seq<Option<Tile>>, x: int, y: nat, moved: bool)
    requires
        traced(col, orig, x),
    ensures
        traced(slide_pass(col, y, moved).0, orig, x),
    decreases col.len() - y,
{
    if y + 1 < col.len() {
        let j = spec_join(col[y as int], col[y + 1int]);
        if j.2 == Some(JoinResult::TileMoved) {
            lemma_join_traced(col, orig, x, y as int);
            lemma_slide_pass_traced(col.update(y as int, j.0).update(y + 1int, j.1), orig, x, y + 1, true);
        } else {
            lemma_slide_pass_traced(col, orig, x, y + 1, moved);
        }
    }
}

proof fn lemma_slide_phase_traced(col: Seq<Option<Tile>>, orig: Seq<Option<Tile>>, x: int)
    requires
        traced(col, orig, x),
    ensures
        traced(slide_phase(col).0, orig, x),
    decreases crate::column::column_weight(col),
{
    let p = slide_pass(col, 0, false);
    lemma_slide_pass_traced(col, orig, x, 0, false);
    if p.1 {
        lemma_slide_pass_weight(col, 0, false);
        lemma_slide_phase_traced(p.0, orig, x);
    }
}

/// After a swipe every tile tells truly where it came from, as seen from the side of the
/// swipe on its line `x`: a tile marked as holding its place `(x, y)` lies at `(x, y)`
/// and has the level of the tile that stood there; a tile marked as moved from `(x, b)`
/// lies nearer the side than `b`, where a tile of its level stood; a merge of `(x, p)` and
/// `(x, q)` lies no farther than `p` and nearer than `q`, where tiles stood; no tile is
/// marked new.
pub proof fn law_swipe_traces_tiles(rows: Seq<Seq<Option<Tile>>>, shape: (usize, usize), side: Side, x: int, y: int)
    requires
        in_side_range(side, shape, x, y),
    ensures
        traced_at(
            cell_at(spec_swipe(rows, shape, side), shape, side, x, y),
            column_at(rows, shape, side, x),
            x,
            y,
        ),
{
    let held = held_column_at(rows, shape, side, x);
    let orig = column_at(rows, shape, side, x);
    assert forall|i: int| 0 <= i < held.len() implies traced_at(#[trigger] held[i], held, x, i) by {}
    lemma_merge_phase_traced(held, held, x, 0);
    lemma_slide_phase_traced(merge_phase(held, 0).0, held, x);
    lemma_column_of_swipe(rows, shape, side, x);
    let after = swipe_column(held).0;
    assert(after[y] == column_at(spec_swipe(rows, shape, side), shape, side, x)[y]);
    assert(traced_at(after[y], held, x, y));
    let t = after[y];
    if let Some(tile) = t {
        match tile.1 {
            Origin::Moved(a, b) => {
                assert(held[b as int] is Some);
            },
            Origin::Merged(p, q) => {
                assert(held[p.1 as int] is Some);
                assert(held[q.1 as int] is Some);
            },
            _ => {},
        }
    }
}

} // verus!
