use vstd::prelude::*;
use crate::append::appends_tile;
use crate::field::Field;
use crate::grid::{empty_rows, grid_fits};
use crate::side::{spec_height_from_side, spec_width_from_side};
use crate::swipe::{spec_swipe, swipe_overflows};
use crate::tile::{Side, Tile};

verus! {

/// A game: its field and its score.
pub struct Game {
    field: Field,
    score: usize,
}

impl Game {
    /// A new game on an empty field of the given width and height, with score 0.
    pub fn new(width: usize, height: usize) -> (g: Self)
        requires
            grid_fits(height, width),
        ensures
            g.spec_field().shape() == (height, width),
            g.spec_field().rows() == empty_rows(height, width),
            g.spec_score() == 0,
    {
        let field = Field::new(width, height);
        let score: usize = 0;
        Self { field, score }
    }

    /// A game ready to play: an empty field of the given width and height on which two
    /// new tiles have been placed one after the other, with score 0.
    pub fn start(width: usize, height: usize) -> (g: Self)
        requires
            grid_fits(height, width),
        ensures
            g.spec_field().shape() == (height, width),
            g.spec_score() == 0,
            exists|first: bool, between: Seq<Seq<Option<Tile>>>, second: bool|
                #[trigger] appends_tile(empty_rows(height, width), (height, width), first, between)
                    && #[trigger] appends_tile(between, (height, width), second, g.spec_field().rows()),
    {
        let mut field = Field::new(width, height);
        let ghost rows0 = field.rows();
        let first = field.append_tile();
        let ghost between = field.rows();
        let second = field.append_tile();
        let score: usize = 0;
        let g = Self { field, score };
        assert(appends_tile(rows0, (height, width), first, between));
        assert(appends_tile(between, (height, width), second, g.spec_field().rows()));
        g
    }

    /// One move: the field is swiped toward `side`, then two new tiles are placed on it one
    /// after the other; the score stays. The swipe's own `requires` carry over.
    pub fn swipe(&mut self, side: Side)
        requires
            spec_height_from_side(side, old(self).spec_field().shape()) > 0 || spec_width_from_side(
                side,
                old(self).spec_field().shape(),
            ) == 0,
            !swipe_overflows(old(self).spec_field().rows(), old(self).spec_field().shape(), side),
        ensures
            final(self).spec_field().shape() == old(self).spec_field().shape(),
            final(self).spec_score() == old(self).spec_score(),
            exists|first: bool, between: Seq<Seq<Option<Tile>>>, second: bool|
                #[trigger] appends_tile(
                    spec_swipe(old(self).spec_field().rows(), old(self).spec_field().shape(), side),
                    old(self).spec_field().shape(),
                    first,
                    between,
                ) && #[trigger] appends_tile(
                    between,
                    old(self).spec_field().shape(),
                    second,
                    final(self).spec_field().rows(),
                ),
    {
        let ghost shape = self.field.shape();
        let ghost rows0 = self.field.rows();
        self.field.swipe(side);
        let ghost swiped = self.field.rows();
        assert(swiped == spec_swipe(rows0, shape, side));
        let first = self.field.append_tile();
        let ghost between = self.field.rows();
        let second = self.field.append_tile();
        assert(appends_tile(spec_swipe(rows0, shape, side), shape, first, between));
        assert(appends_tile(between, shape, second, self.spec_field().rows()));
    }

    /// The field of the game.
    pub closed spec fn spec_field(&self) -> Field {
        self.field
    }

    /// The score of the game.
    pub closed spec fn spec_score(&self) -> usize {
        self.score
    }

    /// The field of the game.
    pub fn field(&self) -> (f: &Field)
        ensures
            *f == self.spec_field(),
    {
        &self.field
    }

    /// The score of the game.
    pub fn score(&self) -> (s: usize)
        ensures
            s == self.spec_score(),
    {
        self.score
    }
}

} // verus!
