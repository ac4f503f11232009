use vstd::prelude::*;
use crate::column::{
    column_weight, lemma_merge_pass_weight, lemma_slide_pass_weight, merge_pass, merge_phase, slide_pass,
    slide_phase, swipe_column,
};
use crate::field::Field;
use crate::side::{held_column_at, hold_at, cell_at, lemma_side_index, spec_index_from_side,
    spec_width_from_side, in_side_range};
use crate::swipe::swipe_overflows;
use crate::tile::{is_movable, spec_join, JoinResult, Side, Tile};

verus! {

// Only two movable tiles of the highest level overflow when they merge. A field without
// such a tile can therefore be swiped toward every side.

/// No tile of the column that may still move or merge has the highest level.
pub open spec fn below_top(col: Seq<Option<Tile>>) -> bool {
    forall|i: int|
        0 <= i < col.len() ==> match #[trigger] col[i] {
            Some(t) => is_movable(t.1) ==> t.0 < u32::MAX,
            None => true,
        }
}

/// No tile of the field has the highest level.
pub open spec fn no_top_tile(rows: Seq<Seq<Option<Tile>>>, shape: (usize, usize)) -> bool {
    forall|r: int, c: int|
        0 <= r < shape.0 && 0 <= c < shape.1 ==> match #[trigger] rows[r][c] {
            Some(t) => t.0 < u32::MAX,
            None => true,
        }
}

proof fn lemma_merge_pass_below_top(col: Seq<Option<Tile>>, y: nat, restart: Option<nat>)
    requires
        below_top(col),
    ensures
        below_top(merge_pass(col, y, restart).0),
        !merge_pass(col, y, restart).2,
    decreases col.len() - y,
{
    if y + 1 < col.len() {
        let next = col.update(y as int, spec_join(col[y as int], col[y + 1int]).0).update(
            y + 1int,
            spec_join(col[y as int], col[y + 1int]).1,
        );
        let a = col[y as int];
        let b = col[y + 1int];
        assert(below_top(next)) by {
            assert forall|i: int| 0 <= i < next.len() implies match #[trigger] next[i] {
                Some(t) => is_movable(t.1) ==> t.0 < u32::MAX,
                None => true,
            } by {
                if i != y && i != y + 1 {
                    assert(next[i] == col[i]);
                }
                let _ = col[y as int];
                let _ = col[y + 1int];
            }
        }
        lemma_merge_pass_below_top(next, y + 1, match restart {
            Some(s) => Some(s),
            None => Some(
                if spec_join(a, b).2 == Some(JoinResult::TileMerged) {
                    y + 1
                } else {
                    y
                },
            ),
        });
        lemma_merge_pass_below_top(col, y + 1, restart);
        let _ = col[y as int];
        let _ = col[y + 1int];
    }
}

proof fn lemma_merge_phase_below_top(col: Seq<Option<Tile>>, start: nat)
    requires
        below_top(col),
    ensures
        below_top(merge_phase(col, start).0),
        !merge_phase(col, start).1,
    decreases column_weight(col),
{
    let p = merge_pass(col, start, None);
    lemma_merge_pass_below_top(col, start, None);
    if let Some(s) = p.1 {
        lemma_merge_pass_weight(col, start, None);
        lemma_merge_phase_below_top(p.0, s);
    }
}

proof fn lemma_slide_pass_below_top(col: Seq<Option<Tile>>, y: nat, moved: bool)
    requires
        below_top(col),
    ensures
        below_top(slide_pass(col, y, moved).0),
        !slide_pass(col, y, moved).2,
    decreases col.len() - y,
{
    if y + 1 < col.len() {
        let next = col.update(y as int, spec_join(col[y as int], col[y + 1int]).0).update(
            y + 1int,
            spec_join(col[y as int], col[y + 1int]).1,
        );
        assert(below_top(next)) by {
            assert forall|i: int| 0 <= i < next.len() implies match #[trigger] next[i] {
                Some(t) => is_movable(t.1) ==> t.0 < u32::MAX,
                None => true,
            } by {
                if i != y && i != y + 1 {
                    assert(next[i] == col[i]);
                }
                let _ = col[y as int];
                let _ = col[y + 1int];
            }
        }
        lemma_slide_pass_below_top(next, y + 1, true);
        lemma_slide_pass_below_top(col, y + 1, moved);
        let _ = col[y as int];
        let _ = col[y + 1int];
    }
}

proof fn lemma_slide_phase_below_top(col: Seq<Option<Tile>>)
    requires
        below_top(col),
    ensures
        !slide_phase(col).1,
    decreases column_weight(col),
{
    let p = slide_pass(col, 0, false);
    lemma_slide_pass_below_top(col, 0, false);
    if p.1 {
        lemma_slide_pass_weight(col, 0, false);
        lemma_slide_phase_below_top(p.0);
    }
}

/// A column none of whose movable tiles has the highest level never overflows when it
/// is swiped.
pub proof fn lemma_swipe_column_below_top(col: Seq<Option<Tile>>)
    requires
        below_top(col),
    ensures
        !swipe_column(col).1,
{
    lemma_merge_phase_below_top(col, 0);
    lemma_slide_phase_below_top(merge_phase(col, 0).0);
}

/// A field on which no tile has the highest level can be swiped toward every side
/// without two tiles of the highest level merging.
pub proof fn law_swipe_without_top_tile_never_overflows(
    rows: Seq<Seq<Option<Tile>>>,
    shape: (usize, usize),
    side: Side,
)
    requires
        no_top_tile(rows, shape),
    ensures
        !swipe_overflows(rows, shape, side),
{
    lemma_side_index(side, shape);
    assert forall|x: int| 0 <= x < spec_width_from_side(side, shape) implies !(#[trigger] swipe_column(
        held_column_at(rows, shape, side, x),
    )).1 by {
        let col = held_column_at(rows, shape, side, x);
        assert forall|y: int| 0 <= y < col.len() implies match #[trigger] col[y] {
            Some(t) => is_movable(t.1) ==> t.0 < u32::MAX,
            None => true,
        } by {
            assert(in_side_range(side, shape, x, y));
            let (r, c) = spec_index_from_side(side, shape, x, y);
            assert(0 <= r < shape.0 && 0 <= c < shape.1);
            let _ = rows[r][c];
            assert(col[y] == hold_at(cell_at(rows, shape, side, x, y), x, y));
        }
        lemma_swipe_column_below_top(col);
    }
}

/// The test for a tile of the highest level fails exactly when some tile of the field has
/// level `u32::MAX`: a field all of whose tiles lie below that level passes it, whatever
/// their levels.
pub proof fn law_top_level_free_exactly(rows: Seq<Seq<Option<Tile>>>, shape: (usize, usize))
    ensures
        (forall|r: int, c: int|
            0 <= r < shape.0 && 0 <= c < shape.1 && #[trigger] rows[r][c] is Some ==> rows[r][c].unwrap().0
                < u32::MAX) ==> no_top_tile(rows, shape),
        !no_top_tile(rows, shape) <==> exists|r: int, c: int|
            0 <= r < shape.0 && 0 <= c < shape.1 && #[trigger] rows[r][c] == Some(
                Tile(u32::MAX, rows[r][c].unwrap().1),
            ),
{
    if !no_top_tile(rows, shape) {
        let (r, c) = choose|r: int, c: int|
            !(0 <= r < shape.0 && 0 <= c < shape.1 ==> match #[trigger] rows[r][c] {
                Some(t) => t.0 < u32::MAX,
                None => true,
            });
        assert(rows[r][c] == Some(Tile(u32::MAX, rows[r][c].unwrap().1)));
    }
}

impl Field {
    /// Whether no tile of the field has the highest level: then a swipe toward every
    /// side is safe.
    pub fn top_level_free(&self) -> (r: bool)
        ensures
            r == no_top_tile(self.rows(), self.shape()),
    {
        let height = self.height();
        let width = self.width();
        let mut y: usize = 0;
        while y < height
            invariant
                height == self.shape().0,
                width == self.shape().1,
                y <= height,
                forall|r: int, c: int| 0 <= r < y && 0 <= c < width ==> match #[trigger] self.rows()[r][c] {
                    Some(t) => t.0 < u32::MAX,
                    None => true,
                },
            decreases height - y,
        {
            let mut x: usize = 0;
            while x < width
                invariant
                    height == self.shape().0,
                    width == self.shape().1,
                    y < height,
                    x <= width,
                    forall|r: int, c: int| 0 <= r < y && 0 <= c < width ==> match #[trigger] self.rows()[r][c] {
                        Some(t) => t.0 < u32::MAX,
                        None => true,
                    },
                    forall|c: int| 0 <= c < x ==> match #[trigger] self.rows()[y as int][c] {
                        Some(t) => t.0 < u32::MAX,
                        None => true,
                    },
                decreases width - x,
            {
                if let Some(t) = self.get(x, y) {
                    if t.0 == u32::MAX {
                        return false;
                    }
                }
                x += 1;
            }
            y += 1;
        }
        true
    }
}

} // verus!
