use vstd::prelude::*;
use crate::tile::{join_overflows, spec_join, JoinResult, Tile};

verus! {

// A swipe works on each line of the field that runs toward the side of the swipe, one at
// a time. Such a line is a column: cell 0 lies at the side of the swipe, and tiles travel
// toward it. A swipe first merges (a merge phase), then lets the tiles slide into the gaps
// that are left (a slide phase).

/// The weight of a cell in a column: the tiles lying farther from the side weigh more.
/// Every join lowers the weight of a column, so the phases end.
pub open spec fn cell_weight(t: Option<Tile>, i: int) -> nat {
    if t is Some {
        (i + 1) as nat
    } else {
        0
    }
}

/// The weight of a column: the sum of the weights of its cells.
pub open spec fn column_weight(col: Seq<Option<Tile>>) -> nat
    decreases col.len(),
{
    if col.len() == 0 {
        0
    } else {
        column_weight(col.drop_last()) + cell_weight(col.last(), col.len() - 1)
    }
}

/// One pass of the merge phase, from cell `y` on: each cell and the next one are joined,
/// in order. `restart` is where the next pass starts: the cell of the first join of the
/// pass when it moved a tile, the cell after it when it merged two. The result holds the
/// column after the pass, where the next pass starts (none when nothing was joined), and
/// whether some join of the pass would merge two tiles of the highest level.
pub open spec fn merge_pass(col: Seq<Option<Tile>>, y: nat, restart: Option<nat>) -> (
    Seq<Option<Tile>>,
    Option<nat>,
    bool,
)
    decreases col.len() - y,
{
    if y + 1 >= col.len() {
        (col, restart, false)
    } else {
        let j = spec_join(col[y as int], col[y + 1int]);
        let bad = join_overflows(col[y as int], col[y + 1int]);
        let res = match j.2 {
            Some(jr) => merge_pass(
                col.update(y as int, j.0).update(y + 1int, j.1),
                y + 1,
                match restart {
                    Some(s) => Some(s),
                    None => Some(if jr is TileMerged { y + 1 } else { y }),
                },
            ),
            None => merge_pass(col, y + 1, restart),
        };
        (res.0, res.1, bad || res.2)
    }
}

/// The merge phase from cell `start` on: passes until a pass joins nothing. The result
/// holds the column and whether some join would merge two tiles of the highest level.
pub open spec fn merge_phase(col: Seq<Option<Tile>>, start: nat) -> (Seq<Option<Tile>>, bool)
    decreases column_weight(col),
{
    let p = merge_pass(col, start, None);
    match p.1 {
        Some(s) => {
            proof {
                lemma_merge_pass_weight(col, start, None);
            }
            let q = merge_phase(p.0, s);
            (q.0, p.2 || q.1)
        },
        None => (p.0, p.2),
    }
}

/// One pass of the slide phase, from cell `y` on: each cell and the next one are joined,
/// but only a join that moves a tile is kept. The result holds the column after the pass,
/// whether a tile moved in it (or `moved`), and whether some join would merge two tiles
/// of the highest level.
pub open spec fn slide_pass(col: Seq<Option<Tile>>, y: nat, moved: bool) -> (
    Seq<Option<Tile>>,
    bool,
    bool,
)
    decreases col.len() - y,
{
    if y + 1 >= col.len() {
        (col, moved, false)
    } else {
        let j = spec_join(col[y as int], col[y + 1int]);
        let bad = join_overflows(col[y as int], col[y + 1int]);
        let res = if j.2 == Some(JoinResult::TileMoved) {
            slide_pass(col.update(y as int, j.0).update(y + 1int, j.1), y + 1, true)
        } else {
            slide_pass(col, y + 1, moved)
        };
        (res.0, res.1, bad || res.2)
    }
}

/// The slide phase: passes from cell 0 until no tile moves.
pub open spec fn slide_phase(col: Seq<Option<Tile>>) -> (Seq<Option<Tile>>, bool)
    decreases column_weight(col),
{
    let p = slide_pass(col, 0, false);
    if p.1 {
        proof {
            lemma_slide_pass_weight(col, 0, false);
        }
        let q = slide_phase(p.0);
        (q.0, p.2 || q.1)
    } else {
        (p.0, p.2)
    }
}

/// A swiped column: the merge phase, then the slide phase. The result holds the column
/// and whether some join on the way would merge two tiles of the highest level (whose
/// level would overflow).
pub open spec fn swipe_column(col: Seq<Option<Tile>>) -> (Seq<Option<Tile>>, bool) {
    let a = merge_phase(col, 0);
    let b = slide_phase(a.0);
    (b.0, a.1 || b.1)
}

/// Changing one cell changes the weight of the column by the change of that cell's weight.
pub proof fn lemma_weight_update(col: Seq<Option<Tile>>, i: int, v: Option<Tile>)
    requires
        0 <= i < col.len(),
    ensures
        column_weight(col.update(i, v)) + cell_weight(col[i], i) == column_weight(col)
            + cell_weight(v, i),
    decreases col.len(),
{
    let c2 = col.update(i, v);
    if i == col.len() - 1 {
        assert(c2.drop_last() =~= col.drop_last());
    } else {
        assert(c2.drop_last() =~= col.drop_last().update(i, v));
        lemma_weight_update(col.drop_last(), i, v);
    }
}

/// A join that changes a column lowers its weight.
pub proof fn lemma_join_weight(col: Seq<Option<Tile>>, y: int)
    requires
        0 <= y,
        y + 1 < col.len(),
        spec_join(col[y], col[y + 1int]).2 is Some,
    ensures
        ({
            let j = spec_join(col[y], col[y + 1int]);
            column_weight(col.update(y, j.0).update(y + 1int, j.1)) < column_weight(col)
        }),
{
    let j = spec_join(col[y], col[y + 1int]);
    let c1 = col.update(y, j.0);
    lemma_weight_update(col, y, j.0);
    lemma_weight_update(c1, y + 1, j.1);
}

/// A merge pass never raises the weight, and lowers it when it joined something.
pub proof fn lemma_merge_pass_weight(col: Seq<Option<Tile>>, y: nat, restart: Option<nat>)
    ensures
        merge_pass(col, y, restart).0.len() == col.len(),
        column_weight(merge_pass(col, y, restart).0) <= column_weight(col),
        restart is None && merge_pass(col, y, restart).1 is Some ==> column_weight(
            merge_pass(col, y, restart).0,
        ) < column_weight(col),
    decreases col.len() - y,
{
    if y + 1 >= col.len() {
    } else {
        let j = spec_join(col[y as int], col[y + 1int]);
        match j.2 {
            Some(jr) => {
                let c2 = col.update(y as int, j.0).update(y + 1int, j.1);
                let r2 = match restart {
                    Some(s) => Some(s),
                    None => Some(if jr is TileMerged { y + 1 } else { y }),
                };
                lemma_join_weight(col, y as int);
                lemma_merge_pass_weight(c2, y + 1, r2);
            },
            None => {
                lemma_merge_pass_weight(col, y + 1, restart);
            },
        }
    }
}

/// A slide pass never raises the weight, and lowers it when a tile moved in it.
pub proof fn lemma_slide_pass_weight(col: Seq<Option<Tile>>, y: nat, moved: bool)
    ensures
        slide_pass(col, y, moved).0.len() == col.len(),
        column_weight(slide_pass(col, y, moved).0) <= column_weight(col),
        !moved && slide_pass(col, y, moved).1 ==> column_weight(slide_pass(col, y, moved).0)
            < column_weight(col),
    decreases col.len() - y,
{
    if y + 1 >= col.len() {
    } else {
        let j = spec_join(col[y as int], col[y + 1int]);
        if j.2 == Some(JoinResult::TileMoved) {
            let c2 = col.update(y as int, j.0).update(y + 1int, j.1);
            lemma_join_weight(col, y as int);
            lemma_slide_pass_weight(c2, y + 1, true);
        } else {
            lemma_slide_pass_weight(col, y + 1, moved);
        }
    }
}

} // verus!
