use vstd::prelude::*;
use rand::rngs::ThreadRng;
use rand::Rng;
use crate::field::Field;
use crate::side::{cell_at, in_side_range, spec_height_from_side, spec_index_from_side, spec_width_from_side};
use crate::tile::{Origin, Side, Tile};

verus! {

/// The random number generator of the current thread (`rand::rngs::ThreadRng`).
#[verifier::external_type_specification]
#[verifier::external_body]
pub struct ExThreadRng(ThreadRng);

/// `rand::thread_rng`: the random number generator of the current thread. Nothing is
/// claimed of it. On its first use in a thread it is seeded from the operating system,
/// and it panics when that fails, which depends on the machine and no `requires` can
/// rule out.
#[verifier::external_body]
fn new_thread_rng() -> ThreadRng {
    rand::thread_rng()
}

/// `Rng::gen_range` on `usize`: some number of the range `[low, high)`, drawn at random.
/// It panics when `low >= high`; `requires` leaves that out. Which number of the range
/// comes out is left open.
#[verifier::external_body]
fn gen_range(rng: &mut ThreadRng, low: usize, high: usize) -> (r: usize)
    requires
        low < high,
    ensures
        low <= r < high,
{
    rng.gen_range(low, high)
}

/// The empty cells among the first `n` cells of the line `x` as seen from below, as side
/// coordinates `(x, y)`, in the order of `y`.
pub open spec fn free_in_line(rows: Seq<Seq<Option<Tile>>>, shape: (usize, usize), x: int, n: nat) -> Seq<(usize, usize)>
    decreases n,
{
    if n == 0 {
        Seq::empty()
    } else {
        free_in_line(rows, shape, x, (n - 1) as nat) + if cell_at(rows, shape, Side::Down, x, n - 1) is None {
            seq![(x as usize, (n - 1) as usize)]
        } else {
            Seq::empty()
        }
    }
}

/// The empty cells of the first `n` lines as seen from below, as side coordinates
/// `(x, y)`, line by line.
pub open spec fn free_cells_upto(rows: Seq<Seq<Option<Tile>>>, shape: (usize, usize), n: nat) -> Seq<(usize, usize)>
    decreases n,
{
    if n == 0 {
        Seq::empty()
    } else {
        free_cells_upto(rows, shape, (n - 1) as nat) + free_in_line(
            rows,
            shape,
            n - 1,
            spec_height_from_side(Side::Down, shape) as nat,
        )
    }
}

/// The empty cells of the field, as side coordinates `(x, y)` seen from below, line by
/// line and, inside a line, from below.
pub open spec fn free_cells(rows: Seq<Seq<Option<Tile>>>, shape: (usize, usize)) -> Seq<(usize, usize)> {
    free_cells_upto(rows, shape, spec_width_from_side(Side::Down, shape) as nat)
}

/// The rows with the cell `(x, y)` as seen from the side set to `v`.
pub open spec fn with_side_cell(
    rows: Seq<Seq<Option<Tile>>>,
    shape: (usize, usize),
    side: Side,
    x: int,
    y: int,
    v: Option<Tile>,
) -> Seq<Seq<Option<Tile>>> {
    let (r, c) = spec_index_from_side(side, shape, x, y);
    rows.update(r, rows[r].update(c, v))
}

/// What placing a new tile makes of the rows `before` of a field of the given shape:
/// `ok` holds exactly when some cell is empty; then `after` is `before` with one empty cell
/// holding a new tile of level 1 or 2, else `after` is `before`.
pub open spec fn appends_tile(
    before: Seq<Seq<Option<Tile>>>,
    shape: (usize, usize),
    ok: bool,
    after: Seq<Seq<Option<Tile>>>,
) -> bool {
    &&& ok == (free_cells(before, shape).len() > 0)
    &&& !ok ==> after == before
    &&& ok ==> exists|i: int, level: u32|
        0 <= i < free_cells(before, shape).len() && 1 <= level <= 2 && after == #[trigger] with_side_cell(
            before,
            shape,
            Side::Down,
            free_cells(before, shape)[i].0 as int,
            free_cells(before, shape)[i].1 as int,
            Some(Tile(level, Origin::Appear)),
        )
}

/// The cells listed by `free_in_line` are exactly the empty ones of that part of the line.
pub proof fn lemma_free_in_line(rows: Seq<Seq<Option<Tile>>>, shape: (usize, usize), x: int, n: nat)
    requires
        0 <= x <= usize::MAX,
        n <= usize::MAX,
    ensures
        forall|p: (usize, usize)| #[trigger] free_in_line(rows, shape, x, n).contains(p) <==> (
            p.0 == x && p.1 < n && cell_at(rows, shape, Side::Down, x, p.1 as int) is None),
    decreases n,
{
    if n > 0 {
        lemma_free_in_line(rows, shape, x, (n - 1) as nat);
        let prev = free_in_line(rows, shape, x, (n - 1) as nat);
        let last = if cell_at(rows, shape, Side::Down, x, n - 1) is None {
            seq![(x as usize, (n - 1) as usize)]
        } else {
            Seq::<(usize, usize)>::empty()
        };
        assert forall|p: (usize, usize)| #[trigger] free_in_line(rows, shape, x, n).contains(p) <==> (
            p.0 == x && p.1 < n && cell_at(rows, shape, Side::Down, x, p.1 as int) is None) by {
            assert(free_in_line(rows, shape, x, n) == prev + last);
            if (prev + last).contains(p) {
                let i = choose|i: int| 0 <= i < (prev + last).len() && (prev + last)[i] == p;
                if i < prev.len() {
                    assert(prev.contains(p));
                } else {
                    assert(last[i - prev.len()] == p);
                }
            }
            if p.0 == x && p.1 < n && cell_at(rows, shape, Side::Down, x, p.1 as int) is None {
                if p.1 < n - 1 {
                    assert(prev.contains(p));
                    let i = choose|i: int| 0 <= i < prev.len() && prev[i] == p;
                    assert((prev + last)[i] == p);
                } else {
                    assert((prev + last)[prev.len() as int] == p);
                }
            }
        }
    }
}

/// The cells listed by `free_cells_upto` are exactly the empty ones of those lines.
pub proof fn lemma_free_cells_upto(rows: Seq<Seq<Option<Tile>>>, shape: (usize, usize), n: nat)
    requires
        n <= usize::MAX,
    ensures
        forall|p: (usize, usize)| #[trigger] free_cells_upto(rows, shape, n).contains(p) <==> (
            p.0 < n && p.1 < spec_height_from_side(Side::Down, shape) && cell_at(
                rows,
                shape,
                Side::Down,
                p.0 as int,
                p.1 as int,
            ) is None),
    decreases n,
{
    if n > 0 {
        lemma_free_cells_upto(rows, shape, (n - 1) as nat);
        let h = spec_height_from_side(Side::Down, shape) as nat;
        lemma_free_in_line(rows, shape, n - 1, h);
        let prev = free_cells_upto(rows, shape, (n - 1) as nat);
        let last = free_in_line(rows, shape, n - 1, h);
        assert forall|p: (usize, usize)| #[trigger] free_cells_upto(rows, shape, n).contains(p) <==> (
            p.0 < n && p.1 < h && cell_at(rows, shape, Side::Down, p.0 as int, p.1 as int) is None) by {
            assert(free_cells_upto(rows, shape, n) == prev + last);
            if (prev + last).contains(p) {
                let i = choose|i: int| 0 <= i < (prev + last).len() && (prev + last)[i] == p;
                if i < prev.len() {
                    assert(prev.contains(p));
                } else {
                    assert(last[i - prev.len()] == p);
                    assert(last.contains(p));
                }
            }
            if p.0 < n && p.1 < h && cell_at(rows, shape, Side::Down, p.0 as int, p.1 as int) is None {
                if p.0 < n - 1 {
                    assert(prev.contains(p));
                    let i = choose|i: int| 0 <= i < prev.len() && prev[i] == p;
                    assert((prev + last)[i] == p);
                } else {
                    assert(last.contains(p));
                    let i = choose|i: int| 0 <= i < last.len() && last[i] == p;
                    assert((prev + last)[prev.len() + i] == p);
                }
            }
        }
    }
}

/// The cells that `free_cells` lists are exactly the empty cells of the field.
pub proof fn law_free_cells_are_empty_cells(rows: Seq<Seq<Option<Tile>>>, shape: (usize, usize))
    ensures
        forall|p: (usize, usize)| #[trigger] free_cells(rows, shape).contains(p) <==> (
            in_side_range(Side::Down, shape, p.0 as int, p.1 as int) && cell_at(
                rows,
                shape,
                Side::Down,
                p.0 as int,
                p.1 as int,
            ) is None),
{
    lemma_free_cells_upto(rows, shape, spec_width_from_side(Side::Down, shape) as nat);
}

impl Field {
    /// The empty cells of the field (see [`free_cells`]).
    pub fn get_free_cells(&self) -> (r: Vec<(usize, usize)>)
        ensures
            r@ == free_cells(self.rows(), self.shape()),
    {
        let mut result: Vec<(usize, usize)> = Vec::new();
        let width = self.width_from_side(Side::Down);
        let height = self.height_from_side(Side::Down);
        let mut x: usize = 0;
        while x < width
            invariant
                width == spec_width_from_side(Side::Down, self.shape()),
                height == spec_height_from_side(Side::Down, self.shape()),
                x <= width,
                result@ == free_cells_upto(self.rows(), self.shape(), x as nat),
            decreases width - x,
        {
            let mut y: usize = 0;
            while y < height
                invariant
                    width == spec_width_from_side(Side::Down, self.shape()),
                    height == spec_height_from_side(Side::Down, self.shape()),
                    x < width,
                    y <= height,
                    result@ == free_cells_upto(self.rows(), self.shape(), x as nat) + free_in_line(
                        self.rows(),
                        self.shape(),
                        x as int,
                        y as nat,
                    ),
                decreases height - y,
            {
                let ghost before = result@;
                if self.get_from_side(Side::Down, x, y).is_none() {
                    result.push((x, y));
                }
                assert(result@ =~= free_cells_upto(self.rows(), self.shape(), x as nat) + free_in_line(
                    self.rows(),
                    self.shape(),
                    x as int,
                    (y + 1) as nat,
                ));
                y += 1;
            }
            x += 1;
        }
        result
    }

    /// Places a new tile of the given level on the empty cell with the given index in the
    /// list of empty cells (see [`free_cells`]): that cell, and no other, changes.
    pub fn append_tile_at(&mut self, index: usize, level: u32)
        requires
            index < free_cells(old(self).rows(), old(self).shape()).len(),
        ensures
            final(self).shape() == old(self).shape(),
            final(self).rows() == with_side_cell(
                old(self).rows(),
                old(self).shape(),
                Side::Down,
                free_cells(old(self).rows(), old(self).shape())[index as int].0 as int,
                free_cells(old(self).rows(), old(self).shape())[index as int].1 as int,
                Some(Tile(level, Origin::Appear)),
            ),
    {
        let poses = self.get_free_cells();
        let (x, y) = poses[index];
        let _ = self.shape_of();
        proof {
            lemma_free_cells_upto(self.rows(), self.shape(), spec_width_from_side(Side::Down, self.shape()) as nat);
            assert(free_cells(self.rows(), self.shape()).contains(poses@[index as int]));
        }
        self.put_from_side(Side::Down, x, y, Some(Tile(level, Origin::Appear)));
    }

    /// Places a new tile on an empty cell, both drawn by `draw`: `draw(low, high)` gives a
    /// number of `[low, high)`. The cell is the entry `draw(0, n)` of the list of the `n`
    /// empty cells (see [`free_cells`]), and the level is `draw(1, 3)`. Returns `false`,
    /// draws nothing and leaves the field as it is, when no cell is empty.
    pub fn append_tile_drawn<F: Fn(usize, usize) -> usize>(&mut self, draw: F) -> (ok: bool)
        requires
            forall|low: usize, high: usize| low < high ==> #[trigger] draw.requires((low, high)),
            forall|low: usize, high: usize, r: usize| #[trigger] draw.ensures((low, high), r) ==> low <= r < high,
        ensures
            final(self).shape() == old(self).shape(),
            appends_tile(old(self).rows(), old(self).shape(), ok, final(self).rows()),
            ok ==> exists|i: usize, level: usize|
                #[trigger] draw.ensures(
                    (0usize, free_cells(old(self).rows(), old(self).shape()).len() as usize),
                    i,
                ) && #[trigger] draw.ensures((1usize, 3usize), level) && final(self).rows() == with_side_cell(
                    old(self).rows(),
                    old(self).shape(),
                    Side::Down,
                    free_cells(old(self).rows(), old(self).shape())[i as int].0 as int,
                    free_cells(old(self).rows(), old(self).shape())[i as int].1 as int,
                    Some(Tile(level as u32, Origin::Appear)),
                ),
    {
        let count = self.get_free_cells().len();
        if count == 0 {
            return false;
        }
        let i = draw(0, count);
        let level = draw(1, 3);
        self.append_tile_at(i, level as u32);
        true
    }

    /// Places a new tile of level 1 or 2, both drawn at random, on an empty cell drawn at
    /// random among the empty cells of the field (see [`appends_tile`]): the cell and the
    /// level are drawn by `rand`'s generator of the thread (see `append_tile_drawn`).
    /// Returns `false`, and leaves the field as it is, when no cell is empty.
    pub fn append_tile(&mut self) -> (ok: bool)
        ensures
            final(self).shape() == old(self).shape(),
            appends_tile(old(self).rows(), old(self).shape(), ok, final(self).rows()),
    {
        let draw = |low: usize, high: usize| -> (r: usize)
            requires
                low < high,
            ensures
                low <= r < high,
            {
                let mut rng = new_thread_rng();
                gen_range(&mut rng, low, high)
            };
        self.append_tile_drawn(draw)
    }
}

} // verus!
