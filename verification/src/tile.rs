use vstd::prelude::*;

verus! {

/// The four directions in which the field can be swiped.
#[derive(Copy, Clone, Debug, PartialEq, Eq, Structural)]
pub enum Side {
    Down,
    Left,
    Up,
    Right,
}

/// Where a tile on the field came from during the last change of the field.
#[derive(Copy, Clone, Debug, PartialEq, Eq)]
pub enum Origin {
    /// The tile has just been placed on the field.
    Appear,
    /// The tile stayed where it was; the coordinates are its own.
    Hold(usize, usize),
    /// The tile moved here from the given coordinates.
    Moved(usize, usize),
    /// The tile is the sum of the two tiles that stood at the given coordinates.
    Merged((usize, usize), (usize, usize)),
}

/// A tile: its level (the tile shows `2^level`) and where it came from.
#[derive(Copy, Clone, Debug, PartialEq, Eq)]
pub struct Tile(pub u32, pub Origin);

impl Origin {
    /// The `Hold` origin of the cell with the array index `(row, column)`.
    pub fn hold(arr_index: (usize, usize)) -> (r: Self)
        ensures
            r == Origin::Hold(arr_index.1, arr_index.0),
    {
        Origin::Hold(arr_index.1, arr_index.0)
    }
}

/// What happened when one tile was joined into its neighbour.
#[derive(Copy, Clone, Debug, PartialEq, Eq, Structural)]
pub enum JoinResult {
    TileMoved,
    TileMerged,
}

/// A tile that may still move or merge: one that holds its place or has moved.
pub open spec fn is_movable(o: Origin) -> bool {
    o is Hold || o is Moved
}

/// The coordinates stored in a `Hold` or `Moved` origin.
pub open spec fn origin_pos(o: Origin) -> (usize, usize) {
    match o {
        Origin::Hold(x, y) => (x, y),
        Origin::Moved(x, y) => (x, y),
        _ => (0, 0),
    }
}

/// Joining would merge two tiles of the highest level, whose sum has no level.
pub open spec fn join_overflows(dst: Option<Tile>, src: Option<Tile>) -> bool {
    match (dst, src) {
        (Some(d), Some(s)) => is_movable(d.1) && is_movable(s.1) && d.0 == s.0 && d.0 == u32::MAX,
        _ => false,
    }
}

/// The result of joining the tile `src` into the cell `dst` next to it, toward the side
/// of the swipe: the new `dst`, the new `src` and what happened.
/// An empty `dst` takes the tile from `src`; two movable tiles of one level merge into
/// a tile of the next level; in every other case nothing changes.
pub open spec fn spec_join(dst: Option<Tile>, src: Option<Tile>) -> (
    Option<Tile>,
    Option<Tile>,
    Option<JoinResult>,
) {
    match (dst, src) {
        (None, Some(s)) => match s.1 {
            Origin::Hold(x, y) => (Some(Tile(s.0, Origin::Moved(x, y))), None, Some(JoinResult::TileMoved)),
            Origin::Moved(x, y) => (Some(Tile(s.0, Origin::Moved(x, y))), None, Some(JoinResult::TileMoved)),
            Origin::Merged(a, b) => (Some(Tile(s.0, Origin::Merged(a, b))), None, Some(JoinResult::TileMoved)),
            Origin::Appear => (dst, src, None),
        },
        (Some(d), Some(s)) => {
            if is_movable(d.1) && is_movable(s.1) && d.0 == s.0 {
                (
                    Some(Tile((d.0 + 1) as u32, Origin::Merged(origin_pos(d.1), origin_pos(s.1)))),
                    None,
                    Some(JoinResult::TileMerged),
                )
            } else {
                (dst, src, None)
            }
        },
        _ => (dst, src, None),
    }
}

/// Joins the tile in `src` into the neighbouring cell `dst` (see [`spec_join`]).
pub fn join_tiles(dst: &mut Option<Tile>, src: &mut Option<Tile>) -> (r: Option<JoinResult>)
    requires
        !join_overflows(*old(dst), *old(src)),
    ensures
        (*final(dst), *final(src), r) == spec_join(*old(dst), *old(src)),
{
    match (*dst, *src) {
        (None, Some(Tile(level, Origin::Hold(x, y))))
        | (None, Some(Tile(level, Origin::Moved(x, y)))) => {
            *dst = Some(Tile(level, Origin::Moved(x, y)));
            *src = None;
            Some(JoinResult::TileMoved)
        },
        (None, Some(Tile(level, Origin::Merged(a, b)))) => {
            *dst = Some(Tile(level, Origin::Merged(a, b)));
            *src = None;
            Some(JoinResult::TileMoved)
        },
        (Some(Tile(ld, Origin::Hold(xd, yd))), Some(Tile(ls, Origin::Hold(xs, ys))))
        | (Some(Tile(ld, Origin::Hold(xd, yd))), Some(Tile(ls, Origin::Moved(xs, ys))))
        | (Some(Tile(ld, Origin::Moved(xd, yd))), Some(Tile(ls, Origin::Hold(xs, ys))))
        | (Some(Tile(ld, Origin::Moved(xd, yd))), Some(Tile(ls, Origin::Moved(xs, ys)))) => {
            if ld == ls {
                *dst = Some(Tile(ld + 1, Origin::Merged((xd, yd), (xs, ys))));
                *src = None;
                Some(JoinResult::TileMerged)
            } else {
                None
            }
        },
        _ => None,
    }
}

/// Two movable tiles of one level below the highest merge, whatever their level, into a
/// tile of the next level that records where both came from; a tile that moves into an
/// empty cell keeps its level and records where it came from (a merge stays a merge); a
/// tile never merges with a merge or a new tile.
pub proof fn law_join_merges_equal_levels(l: u32, m: u32, a: (usize, usize), b: (usize, usize))
    ensures
        l < u32::MAX ==> spec_join(Some(Tile(l, Origin::Hold(a.0, a.1))), Some(Tile(l, Origin::Hold(b.0, b.1))))
            == (Some(Tile((l + 1) as u32, Origin::Merged(a, b))), None::<Tile>, Some(JoinResult::TileMerged)),
        l < u32::MAX ==> spec_join(Some(Tile(l, Origin::Moved(a.0, a.1))), Some(Tile(l, Origin::Hold(b.0, b.1))))
            == (Some(Tile((l + 1) as u32, Origin::Merged(a, b))), None::<Tile>, Some(JoinResult::TileMerged)),
        l < u32::MAX ==> spec_join(Some(Tile(l, Origin::Hold(a.0, a.1))), Some(Tile(l, Origin::Moved(b.0, b.1))))
            == (Some(Tile((l + 1) as u32, Origin::Merged(a, b))), None::<Tile>, Some(JoinResult::TileMerged)),
        l < u32::MAX ==> spec_join(Some(Tile(l, Origin::Moved(a.0, a.1))), Some(Tile(l, Origin::Moved(b.0, b.1))))
            == (Some(Tile((l + 1) as u32, Origin::Merged(a, b))), None::<Tile>, Some(JoinResult::TileMerged)),
        spec_join(None, Some(Tile(l, Origin::Hold(b.0, b.1))))
            == (Some(Tile(l, Origin::Moved(b.0, b.1))), None::<Tile>, Some(JoinResult::TileMoved)),
        spec_join(None, Some(Tile(l, Origin::Moved(b.0, b.1))))
            == (Some(Tile(l, Origin::Moved(b.0, b.1))), None::<Tile>, Some(JoinResult::TileMoved)),
        spec_join(None, Some(Tile(l, Origin::Merged(a, b))))
            == (Some(Tile(l, Origin::Merged(a, b))), None::<Tile>, Some(JoinResult::TileMoved)),
        l != m ==> spec_join(Some(Tile(l, Origin::Hold(a.0, a.1))), Some(Tile(m, Origin::Hold(b.0, b.1))))
            .2 is None,
        spec_join(Some(Tile(l, Origin::Merged(a, b))), Some(Tile(l, Origin::Hold(b.0, b.1)))).2 is None,
        spec_join(Some(Tile(l, Origin::Hold(a.0, a.1))), Some(Tile(l, Origin::Merged(a, b)))).2 is None,
        spec_join(Some(Tile(l, Origin::Hold(a.0, a.1))), Some(Tile(l, Origin::Appear))).2 is None,
        spec_join(None, Some(Tile(l, Origin::Appear))).2 is None,
{
}

} // verus!
