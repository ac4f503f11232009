use vstd::prelude::*;
use crate::side::{cell_at, column_at, spec_height_from_side, spec_width_from_side};
use crate::tile::{Side, Tile};

verus! {

// Sums over the cells of a field. A field can be summed row by row, or line by line as
// seen from any side; both give the same total, since the lines toward a side cover every
// cell once.

/// The sum of `f(i)` for `0 <= i < n`.
pub open spec fn sum_to(n: nat, f: spec_fn(int) -> int) -> int
    decreases n,
{
    if n == 0 {
        0
    } else {
        sum_to((n - 1) as nat, f) + f(n - 1)
    }
}

/// The sum of `f(i, j)` for `0 <= j < b`.
pub open spec fn row_sum(b: nat, f: spec_fn(int, int) -> int, i: int) -> int {
    sum_to(b, |j: int| f(i, j))
}

/// The sum of `f(i, j)` for `0 <= i < a` and `0 <= j < b`, taken by `i` first.
pub open spec fn double_sum(a: nat, b: nat, f: spec_fn(int, int) -> int) -> int {
    sum_to(a, |i: int| row_sum(b, f, i))
}

/// The sum of `g` over the cells of a line.
pub open spec fn line_sum(col: Seq<Option<Tile>>, g: spec_fn(Option<Tile>) -> int) -> int {
    sum_to(col.len(), |y: int| g(col[y]))
}

/// The sum of `g` over the cells of a field of the given shape, row by row.
pub open spec fn cells_total(
    rows: Seq<Seq<Option<Tile>>>,
    shape: (usize, usize),
    g: spec_fn(Option<Tile>) -> int,
) -> int {
    double_sum(shape.0 as nat, shape.1 as nat, |r: int, c: int| g(rows[r][c]))
}

/// The sum of `g` over the cells of a field of the given shape, line by line as seen
/// from the side.
pub open spec fn side_total(
    rows: Seq<Seq<Option<Tile>>>,
    shape: (usize, usize),
    side: Side,
    g: spec_fn(Option<Tile>) -> int,
) -> int {
    sum_to(
        spec_width_from_side(side, shape) as nat,
        |x: int| line_sum(column_at(rows, shape, side, x), g),
    )
}

/// Sums of functions that agree on the range are equal.
pub proof fn lemma_sum_ext(n: nat, f: spec_fn(int) -> int, g: spec_fn(int) -> int)
    requires
        forall|i: int| 0 <= i < n ==> #[trigger] f(i) == g(i),
    ensures
        sum_to(n, f) == sum_to(n, g),
    decreases n,
{
    if n > 0 {
        lemma_sum_ext((n - 1) as nat, f, g);
    }
}

/// A sum of zeros is zero.
proof fn lemma_sum_zero(n: nat, f: spec_fn(int) -> int)
    requires
        forall|i: int| 0 <= i < n ==> #[trigger] f(i) == 0,
    ensures
        sum_to(n, f) == 0,
    decreases n,
{
    if n > 0 {
        lemma_sum_zero((n - 1) as nat, f);
    }
}

/// The sum of a sum of two functions is the sum of their sums.
pub proof fn lemma_sum_add(n: nat, f: spec_fn(int) -> int, g: spec_fn(int) -> int)
    ensures
        sum_to(n, |i: int| f(i) + g(i)) == sum_to(n, f) + sum_to(n, g),
    decreases n,
{
    if n > 0 {
        lemma_sum_add((n - 1) as nat, f, g);
    }
}

/// Changing one term changes the sum by the change of that term.
pub proof fn lemma_sum_update(n: nat, f: spec_fn(int) -> int, g: spec_fn(int) -> int, k: int)
    requires
        0 <= k < n,
        forall|i: int| 0 <= i < n && i != k ==> #[trigger] f(i) == g(i),
    ensures
        sum_to(n, g) + f(k) == sum_to(n, f) + g(k),
    decreases n,
{
    if k == n - 1 {
        lemma_sum_ext((n - 1) as nat, f, g);
    } else {
        lemma_sum_update((n - 1) as nat, f, g, k);
    }
}

/// A sum split into its first term and the rest.
proof fn lemma_sum_first(n: nat, f: spec_fn(int) -> int)
    requires
        n > 0,
    ensures
        sum_to(n, f) == f(0) + sum_to((n - 1) as nat, |i: int| f(i + 1)),
    decreases n,
{
    if n > 1 {
        lemma_sum_first((n - 1) as nat, f);
        assert(sum_to((n - 1) as nat, |i: int| f(i + 1)) == sum_to((n - 2) as nat, |i: int| f(i + 1)) + f(n - 1));
        assert(sum_to(n, f) == sum_to((n - 1) as nat, f) + f(n - 1));
    } else {
        assert(sum_to(0, |i: int| f(i + 1)) == 0);
        assert(sum_to(1, f) == sum_to(0, f) + f(0));
    }
}

/// A sum taken backward is the same sum.
proof fn lemma_sum_reverse(n: nat, f: spec_fn(int) -> int)
    ensures
        sum_to(n, |i: int| f(n - 1 - i)) == sum_to(n, f),
    decreases n,
{
    if n > 0 {
        let h = |i: int| f(i + 1);
        lemma_sum_reverse((n - 1) as nat, h);
        lemma_sum_ext((n - 1) as nat, |i: int| f(n - 1 - i), |i: int| h((n - 1) - 1 - i));
        lemma_sum_first(n, f);
    }
}

/// Double sums of functions that agree on the range are equal.
proof fn lemma_double_ext(a: nat, b: nat, f: spec_fn(int, int) -> int, g: spec_fn(int, int) -> int)
    requires
        forall|i: int, j: int| 0 <= i < a && 0 <= j < b ==> #[trigger] f(i, j) == g(i, j),
    ensures
        double_sum(a, b, f) == double_sum(a, b, g),
{
    assert forall|i: int| 0 <= i < a implies #[trigger] row_sum(b, f, i) == row_sum(b, g, i) by {
        lemma_sum_ext(b, |j: int| f(i, j), |j: int| g(i, j));
    }
    lemma_sum_ext(a, |i: int| row_sum(b, f, i), |i: int| row_sum(b, g, i));
}

/// A double sum may be taken by `j` first.
proof fn lemma_double_exchange(a: nat, b: nat, f: spec_fn(int, int) -> int)
    ensures
        double_sum(a, b, f) == double_sum(b, a, |j: int, i: int| f(i, j)),
    decreases a,
{
    let t = |j: int, i: int| f(i, j);
    if a == 0 {
        assert forall|j: int| 0 <= j < b implies #[trigger] row_sum(a, t, j) == 0 by {}
        lemma_sum_zero(b, |i: int| row_sum(a, t, i));
    } else {
        let a1 = (a - 1) as nat;
        lemma_double_exchange(a1, b, f);
        let p = |i: int| row_sum(a1, t, i);
        let q = |j: int| f(a1 as int, j);
        assert forall|j: int| 0 <= j < b implies #[trigger] row_sum(a, t, j) == p(j) + q(j) by {}
        lemma_sum_ext(b, |i: int| row_sum(a, t, i), |j: int| p(j) + q(j));
        lemma_sum_add(b, p, q);
        lemma_sum_ext(b, q, |j: int| f(a1 as int, j));
    }
}

/// A double sum taken backward in `i` is the same sum.
proof fn lemma_double_reverse_outer(a: nat, b: nat, f: spec_fn(int, int) -> int)
    ensures
        double_sum(a, b, |i: int, j: int| f(a - 1 - i, j)) == double_sum(a, b, f),
{
    let rf = |i: int, j: int| f(a - 1 - i, j);
    let inner = |i: int| row_sum(b, f, i);
    assert forall|i: int| 0 <= i < a implies #[trigger] row_sum(b, rf, i) == inner(a - 1 - i) by {
        lemma_sum_ext(b, |j: int| rf(i, j), |j: int| f(a - 1 - i, j));
    }
    lemma_sum_ext(a, |i: int| row_sum(b, rf, i), |i: int| inner(a - 1 - i));
    lemma_sum_reverse(a, inner);
}

/// A double sum taken backward in `j` is the same sum.
proof fn lemma_double_reverse_inner(a: nat, b: nat, f: spec_fn(int, int) -> int)
    ensures
        double_sum(a, b, |i: int, j: int| f(i, b - 1 - j)) == double_sum(a, b, f),
{
    let ri = |i: int, j: int| f(i, b - 1 - j);
    assert forall|i: int| 0 <= i < a implies #[trigger] row_sum(b, ri, i) == row_sum(b, f, i) by {
        let fi = |j: int| f(i, j);
        lemma_sum_reverse(b, fi);
        lemma_sum_ext(b, |j: int| ri(i, j), |j: int| fi(b - 1 - j));
        lemma_sum_ext(b, fi, |j: int| f(i, j));
    }
    lemma_sum_ext(a, |i: int| row_sum(b, ri, i), |i: int| row_sum(b, f, i));
}

/// Summing the lines toward any side gives the total of the field's cells.
pub proof fn lemma_side_total(
    rows: Seq<Seq<Option<Tile>>>,
    shape: (usize, usize),
    side: Side,
    g: spec_fn(Option<Tile>) -> int,
)
    ensures
        side_total(rows, shape, side, g) == cells_total(rows, shape, g),
{
    let h = shape.0 as nat;
    let w = shape.1 as nat;
    let wd = spec_width_from_side(side, shape) as nat;
    let ht = spec_height_from_side(side, shape) as nat;
    let s = |x: int, y: int| g(cell_at(rows, shape, side, x, y));
    let f = |r: int, c: int| g(rows[r][c]);
    assert forall|x: int| 0 <= x < wd implies #[trigger] line_sum(column_at(rows, shape, side, x), g)
        == row_sum(ht, s, x) by {
        lemma_sum_ext(ht, |y: int| g(column_at(rows, shape, side, x)[y]), |y: int| s(x, y));
    }
    lemma_sum_ext(wd, |x: int| line_sum(column_at(rows, shape, side, x), g), |i: int| row_sum(ht, s, i));
    assert(side_total(rows, shape, side, g) == double_sum(wd, ht, s));
    match side {
        Side::Up => {
            lemma_double_exchange(h, w, f);
            lemma_double_ext(w, h, s, |j: int, i: int| f(i, j));
        },
        Side::Right => {
            lemma_double_reverse_inner(h, w, f);
            lemma_double_ext(h, w, s, |i: int, j: int| f(i, w - 1 - j));
        },
        Side::Left => {
            lemma_double_reverse_outer(h, w, f);
            lemma_double_ext(h, w, s, |i: int, j: int| f(h - 1 - i, j));
        },
        Side::Down => {
            let t = |j: int, i: int| f(i, j);
            lemma_double_exchange(h, w, f);
            let e2 = |i: int, j: int| t(i, h - 1 - j);
            lemma_double_reverse_inner(w, h, t);
            lemma_double_reverse_outer(w, h, e2);
            lemma_double_ext(w, h, s, |i: int, j: int| e2(w - 1 - i, j));
        },
    }
}

} // verus!
