use vstd::prelude::*;
use vstd::arithmetic::power2::{lemma2_to64, lemma_pow2_adds, lemma_pow2_pos, lemma_pow2_strictly_increases, lemma_pow2_unfold, pow2};
use crate::field::{lemma_row_major_index, Field, Grid};
use crate::grid::{grid_fits, rows_match};
use crate::tile::{Origin, Tile};

verus! {

// A field converts to and from a grid of the values shown on its tiles: an empty cell
// shows 0, a tile of level `l` shows `2^l`.

/// The integer binary logarithm, rounded down (0 for 0 and 1).
pub open spec fn log2_floor(v: nat) -> nat
    decreases v,
{
    if v <= 1 {
        0
    } else {
        1 + log2_floor(v / 2)
    }
}

/// A value that a cell can show: 0 or a power of two.
pub open spec fn is_tile_value(v: u32) -> bool {
    v == 0 || pow2(log2_floor(v as nat)) == v
}

/// The cell that shows the value `v`, at array index `(row, col)`: empty for 0, else a
/// tile of level `log2(v)` that holds its place.
pub open spec fn tile_of_value(v: u32, row: int, col: int) -> Option<Tile> {
    if v == 0 {
        None
    } else {
        Some(Tile(log2_floor(v as nat) as u32, Origin::Hold(col as usize, row as usize)))
    }
}

/// The value that a cell shows.
pub open spec fn value_of_tile(t: Option<Tile>) -> nat {
    match t {
        Some(tile) => pow2(tile.0 as nat),
        None => 0,
    }
}

/// Every tile among the rows has a level whose value fits in a `u32`.
pub open spec fn levels_fit(rows: Seq<Seq<Option<Tile>>>) -> bool {
    forall|r: int, c: int|
        0 <= r < rows.len() && 0 <= c < rows[r].len() && #[trigger] rows[r][c] is Some
            ==> rows[r][c].unwrap().0 < 32
}

/// `2^32` and the powers of two below it.
proof fn lemma_pow2_u32(k: nat)
    ensures
        k < 32 ==> pow2(k) <= u32::MAX,
        k >= 32 ==> pow2(k) > u32::MAX,
{
    lemma2_to64();
    if k < 32 {
        if k < 31 {
            lemma_pow2_strictly_increases(k, 31);
        }
    } else if k > 32 {
        lemma_pow2_strictly_increases(32, k);
    }
}

/// The logarithm of a power of two is its exponent.
pub proof fn lemma_log2_of_pow2(k: nat)
    ensures
        log2_floor(pow2(k)) == k,
    decreases k,
{
    lemma2_to64();
    if k > 0 {
        lemma_pow2_unfold(k);
        lemma_pow2_pos((k - 1) as nat);
        lemma_log2_of_pow2((k - 1) as nat);
        assert(pow2(k) / 2 == pow2((k - 1) as nat));
    }
}

/// The logarithm of a positive number below `2^k` is below `k`.
proof fn lemma_log2_below(v: nat, k: nat)
    requires
        1 <= v < pow2(k),
    ensures
        log2_floor(v) < k,
    decreases v,
{
    lemma2_to64();
    if k == 0 {
    } else if v > 1 {
        lemma_pow2_unfold(k);
        lemma_log2_below(v / 2, (k - 1) as nat);
    }
}

/// `log2(2n) == 1 + log2(n)` for positive `n`.
proof fn lemma_log2_double(n: nat)
    requires
        n >= 1,
    ensures
        log2_floor(2 * n) == 1 + log2_floor(n),
{
    assert((2 * n) / 2 == n);
}

/// The level of the tile that shows `v`: `Some(log2(v))` when `v` is a positive power of
/// two, else `None`.
pub fn level_of_value(v: u32) -> (r: Option<u32>)
    ensures
        r == if v != 0 && is_tile_value(v) {
            Some(log2_floor(v as nat) as u32)
        } else {
            None::<u32>
        },
        r is Some ==> log2_floor(v as nat) < 32,
{
    if v == 0 {
        return None;
    }
    let mut n: u32 = v;
    let mut k: u32 = 0;
    proof {
        lemma2_to64();
    }
    while n % 2 == 0
        invariant
            n >= 1,
            k < 32,
            n as nat * pow2(k as nat) == v as nat,
            log2_floor(v as nat) == k + log2_floor(n as nat),
        decreases n,
    {
        let ghost n0 = n;
        proof {
            lemma_pow2_unfold(k as nat + 1);
            lemma_log2_double((n0 / 2) as nat);
            assert((n0 / 2) as nat * pow2(k as nat + 1) == n0 as nat * pow2(k as nat)) by (nonlinear_arith)
                requires
                    n0 % 2 == 0,
                    pow2(k as nat + 1) == 2 * pow2(k as nat),
            ;
            lemma_pow2_u32(k as nat + 1);
            lemma_pow2_pos(k as nat + 1);
            assert((n0 / 2) as nat * pow2(k as nat + 1) >= pow2(k as nat + 1)) by (nonlinear_arith)
                requires
                    n0 / 2 >= 1,
            ;
        }
        n = n / 2;
        k = k + 1;
    }
    proof {
        lemma_log2_below(v as nat, 32);
        lemma2_to64();
    }
    if n == 1 {
        assert(pow2(log2_floor(v as nat)) == v);
        Some(k)
    } else {
        proof {
            let m = log2_floor(n as nat);
            assert(m >= 1);
            lemma_pow2_adds(k as nat, m);
            lemma_pow2_unfold(m);
            lemma_pow2_pos(k as nat);
            if pow2(log2_floor(v as nat)) == v {
                assert(pow2(m) == n) by (nonlinear_arith)
                    requires
                        pow2(k as nat) * pow2(m) == n as nat * pow2(k as nat),
                        pow2(k as nat) > 0,
                ;
                assert(false);
            }
        }
        None
    }
}

/// `n < 2^(n + 1)`.
proof fn lemma_pow_exceeds(n: nat)
    ensures
        n < pow2(n + 1),
    decreases n,
{
    lemma2_to64();
    lemma_pow2_unfold(n + 1);
    if n > 0 {
        lemma_pow_exceeds((n - 1) as nat);
    }
}

/// The number that a tile shows: `2^level`. For a level of 32 or more the number does
/// not fit in a `u32`; `requires` leaves such tiles out.
pub fn tile_value(tile: Tile) -> (v: u32)
    requires
        tile.0 < 32,
    ensures
        v as nat == pow2(tile.0 as nat),
{
    proof {
        lemma_pow2_u32(tile.0 as nat);
        vstd::bits::lemma_u32_shl_is_mul(1, tile.0);
    }
    1 << tile.0
}

impl Field {
    /// The field whose cells show the values of `array` (see [`tile_of_value`]); every tile
    /// holds its place. A value that is neither 0 nor a power of two shows no tile;
    /// `requires` leaves such values out.
    pub fn from_array(array: Grid<u32>) -> (f: Field)
        requires
            array.wf(),
            grid_fits(array.rows, array.cols),
            forall|i: int| 0 <= i < array.cells.len() ==> is_tile_value(#[trigger] array.cells[i]),
        ensures
            f.shape() == (array.rows, array.cols),
            rows_match(f.rows(), f.shape()),
            forall|r: int, c: int|
                0 <= r < array.rows && 0 <= c < array.cols ==> #[trigger] f.rows()[r][c]
                    == tile_of_value(array.cells[r * array.cols + c], r, c),
    {
        let h = array.rows;
        let w = array.cols;
        let mut field = Field::new(w, h);
        let mut r: usize = 0;
        while r < h
            invariant
                array.wf(),
                h == array.rows,
                w == array.cols,
                r <= h,
                field.shape() == (h, w),
                rows_match(field.rows(), (h, w)),
                forall|i: int| 0 <= i < array.cells.len() ==> is_tile_value(#[trigger] array.cells[i]),
                forall|r2: int, c2: int|
                    0 <= r2 < r && 0 <= c2 < w ==> #[trigger] field.rows()[r2][c2]
                        == tile_of_value(array.cells[r2 * w + c2], r2, c2),
            decreases h - r,
        {
            let mut c: usize = 0;
            while c < w
                invariant
                    array.wf(),
                    h == array.rows,
                    w == array.cols,
                    r < h,
                    c <= w,
                    field.shape() == (h, w),
                    rows_match(field.rows(), (h, w)),
                    forall|i: int| 0 <= i < array.cells.len() ==> is_tile_value(#[trigger] array.cells[i]),
                    forall|r2: int, c2: int|
                        0 <= r2 < h && 0 <= c2 < w && (r2 < r || (r2 == r && c2 < c))
                            ==> #[trigger] field.rows()[r2][c2] == tile_of_value(
                            array.cells[r2 * w + c2],
                            r2,
                            c2,
                        ),
                decreases w - c,
            {
                proof {
                    lemma_row_major_index(r as int, c as int, h as int, w as int);
                }
                let v = array.cells[r * w + c];
                let tile = if v == 0 {
                    None
                } else {
                    match level_of_value(v) {
                        Some(level) => Some(Tile(level, Origin::hold((r, c)))),
                        None => {
                            proof {
                                assert(is_tile_value(array.cells[r * w + c]));
                            }
                            None
                        },
                    }
                };
                field.put(r, c, tile);
                c += 1;
            }
            r += 1;
        }
        field
    }

    /// The values that the cells show, in a grid of the field's shape (see
    /// [`value_of_tile`]). A tile whose value does not fit in a `u32` has no such value;
    /// `requires` leaves such tiles out.
    pub fn into_array(&self) -> (a: Grid<u32>)
        requires
            levels_fit(self.rows()),
        ensures
            a.rows == self.shape().0,
            a.cols == self.shape().1,
            a.wf(),
            forall|r: int, c: int|
                0 <= r < a.rows && 0 <= c < a.cols ==> a.cells[r * a.cols + c] as nat
                    == value_of_tile(#[trigger] self.rows()[r][c]),
    {
        let (h, w) = self.shape_of();
        let mut cells: Vec<u32> = Vec::new();
        let mut r: usize = 0;
        while r < h
            invariant
                (h, w) == self.shape(),
                rows_match(self.rows(), (h, w)),
                levels_fit(self.rows()),
                r <= h,
                cells.len() == r * w,
                forall|r2: int, c2: int|
                    0 <= r2 < r && 0 <= c2 < w ==> cells[r2 * w + c2] as nat == value_of_tile(
                        #[trigger] self.rows()[r2][c2],
                    ),
            decreases h - r,
        {
            let mut c: usize = 0;
            while c < w
                invariant
                    (h, w) == self.shape(),
                    rows_match(self.rows(), (h, w)),
                    levels_fit(self.rows()),
                    r < h,
                    c <= w,
                    cells.len() == r * w + c,
                    forall|r2: int, c2: int|
                        0 <= r2 < h && 0 <= c2 < w && (r2 < r || (r2 == r && c2 < c))
                            ==> cells[r2 * w + c2] as nat == value_of_tile(
                            #[trigger] self.rows()[r2][c2],
                        ),
                decreases w - c,
            {
                proof {
                    lemma_row_major_index(r as int, c as int, h as int, w as int);
                }
                let value: u32 = if let Some(tile) = self.get(c, r) {
                    proof {
                        assert(self.rows()[r as int][c as int] is Some);
                    }
                    tile_value(tile)
                } else {
                    0
                };
                let ghost old_cells = cells@;
                cells.push(value);
                proof {
                    assert forall|r2: int, c2: int|
                        0 <= r2 < h && 0 <= c2 < w && (r2 < r || (r2 == r && c2 < c + 1))
                            implies cells[r2 * w + c2] as nat == value_of_tile(
                            #[trigger] self.rows()[r2][c2],
                        ) by {
                        lemma_row_major_index(r2, c2, h as int, w as int);
                        if r2 < r {
                            lemma_row_major_index(r2, c2, r as int, w as int);
                        }
                        if r2 == r && c2 == c {
                        } else {
                            assert(r2 * w + c2 < r * w + c);
                        }
                    }
                }
                c += 1;
            }
            proof {
                assert((r + 1) * w == r * w + w) by (nonlinear_arith);
            }
            r += 1;
        }
        Grid { rows: h, cols: w, cells }
    }

    /// The field whose cells are those of `tiles`, as they are.
    pub fn from_tiles(tiles: Grid<Option<Tile>>) -> (f: Field)
        requires
            tiles.wf(),
            grid_fits(tiles.rows, tiles.cols),
        ensures
            f.shape() == (tiles.rows, tiles.cols),
            rows_match(f.rows(), f.shape()),
            forall|r: int, c: int|
                0 <= r < tiles.rows && 0 <= c < tiles.cols ==> #[trigger] f.rows()[r][c]
                    == tiles.cells[r * tiles.cols + c],
    {
        let h = tiles.rows;
        let w = tiles.cols;
        let mut field = Field::new(w, h);
        let mut r: usize = 0;
        while r < h
            invariant
                tiles.wf(),
                h == tiles.rows,
                w == tiles.cols,
                r <= h,
                field.shape() == (h, w),
                rows_match(field.rows(), (h, w)),
                forall|r2: int, c2: int|
                    0 <= r2 < r && 0 <= c2 < w ==> #[trigger] field.rows()[r2][c2]
                        == tiles.cells[r2 * w + c2],
            decreases h - r,
        {
            let mut c: usize = 0;
            while c < w
                invariant
                    tiles.wf(),
                    h == tiles.rows,
                    w == tiles.cols,
                    r < h,
                    c <= w,
                    field.shape() == (h, w),
                    rows_match(field.rows(), (h, w)),
                    forall|r2: int, c2: int|
                        0 <= r2 < h && 0 <= c2 < w && (r2 < r || (r2 == r && c2 < c))
                            ==> #[trigger] field.rows()[r2][c2] == tiles.cells[r2 * w + c2],
                decreases w - c,
            {
                proof {
                    lemma_row_major_index(r as int, c as int, h as int, w as int);
                }
                let tile = tiles.cells[r * w + c];
                field.put(r, c, tile);
                c += 1;
            }
            r += 1;
        }
        field
    }

    /// The cells of the field, as they are, in a grid of the field's shape.
    pub fn tiles(&self) -> (a: Grid<Option<Tile>>)
        ensures
            a.rows == self.shape().0,
            a.cols == self.shape().1,
            a.wf(),
            forall|r: int, c: int|
                0 <= r < a.rows && 0 <= c < a.cols ==> a.cells[r * a.cols + c]
                    == #[trigger] self.rows()[r][c],
    {
        let (h, w) = self.shape_of();
        let mut cells: Vec<Option<Tile>> = Vec::new();
        let mut r: usize = 0;
        while r < h
            invariant
                (h, w) == self.shape(),
                rows_match(self.rows(), (h, w)),
                r <= h,
                cells.len() == r * w,
                forall|r2: int, c2: int|
                    0 <= r2 < r && 0 <= c2 < w ==> cells[r2 * w + c2] == #[trigger] self.rows()[r2][c2],
            decreases h - r,
        {
            let mut c: usize = 0;
            while c < w
                invariant
                    (h, w) == self.shape(),
                    rows_match(self.rows(), (h, w)),
                    r < h,
                    c <= w,
                    cells.len() == r * w + c,
                    forall|r2: int, c2: int|
                        0 <= r2 < h && 0 <= c2 < w && (r2 < r || (r2 == r && c2 < c))
                            ==> cells[r2 * w + c2] == #[trigger] self.rows()[r2][c2],
                decreases w - c,
            {
                proof {
                    lemma_row_major_index(r as int, c as int, h as int, w as int);
                }
                let tile = self.get(c, r);
                cells.push(tile);
                proof {
                    assert forall|r2: int, c2: int|
                        0 <= r2 < h && 0 <= c2 < w && (r2 < r || (r2 == r && c2 < c + 1))
                            implies cells[r2 * w + c2] == #[trigger] self.rows()[r2][c2] by {
                        lemma_row_major_index(r2, c2, h as int, w as int);
                        if r2 < r {
                            lemma_row_major_index(r2, c2, r as int, w as int);
                        }
                        if r2 == r && c2 == c {
                        } else {
                            assert(r2 * w + c2 < r * w + c);
                        }
                    }
                }
                c += 1;
            }
            proof {
                assert((r + 1) * w == r * w + w) by (nonlinear_arith);
            }
            r += 1;
        }
        Grid { rows: h, cols: w, cells }
    }
}

} // verus!
