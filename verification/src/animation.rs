use vstd::prelude::*;
use crate::tile::Origin;

verus! {

// How the picture of the field follows a change of the field: each tile on the field at
// `(x, y)` is drawn anew, kept, moved or merged, by where it came from.

/// What becomes of the picture of one tile.
#[derive(Copy, Clone, Debug, PartialEq, Eq)]
pub enum TileAnimation {
    /// A new tile appears at the cell.
    Create(usize, usize),
    /// The tile at the cell stays.
    Keep(usize, usize),
    /// The tile moves from the first cell to the second.
    Move((usize, usize), (usize, usize)),
    /// The tiles of the first two cells move to the third and become one.
    Merge((usize, usize), (usize, usize), (usize, usize)),
}

/// The animation of the tile at `(x, y)` whose origin is `origin`: a tile that appeared
/// is created, one that held its place is kept, one that moved moves from its old cell,
/// and one that is a merge merges the two tiles it came from.
pub fn tile_animation(origin: Origin, x: usize, y: usize) -> (a: TileAnimation)
    ensures
        a == match origin {
            Origin::Appear => TileAnimation::Create(x, y),
            Origin::Hold(..) => TileAnimation::Keep(x, y),
            Origin::Moved(fx, fy) => TileAnimation::Move((fx, fy), (x, y)),
            Origin::Merged(p, q) => TileAnimation::Merge(p, q, (x, y)),
        },
{
    match origin {
        Origin::Appear => TileAnimation::Create(x, y),
        Origin::Hold(..) => TileAnimation::Keep(x, y),
        Origin::Moved(fx, fy) => TileAnimation::Move((fx, fy), (x, y)),
        Origin::Merged(p, q) => TileAnimation::Merge(p, q, (x, y)),
    }
}

} // verus!
