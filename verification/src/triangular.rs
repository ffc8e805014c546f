//! The packed lower-triangle addressing scheme.
//!
//! A square matrix over elements `0 .. n` whose cells satisfy
//! `cell(row, column) == cell(column, row)` only needs its lower triangle,
//! the cells with `row >= column`. Laying those cells out row by row gives
//! every cell a linear offset: row `a` starts right after the `tri_count(a)`
//! cells of rows `0 .. a`, and holds `a + 1` cells of its own.

use vstd::arithmetic::div_mod::lemma_div_multiples_vanish;
use vstd::prelude::*;

verus! {

/// Number of cells in rows `0 .. n` of a packed lower triangle: row `k`
/// holds `k + 1` cells, so this is the `n`-th triangular number,
/// `n * (n + 1) / 2` (see `lemma_tri_count_closed_form`).
pub open spec fn tri_count(n: int) -> int
    decreases n,
{
    if n <= 0 {
        0
    } else {
        tri_count(n - 1) + n
    }
}

/// Linear offset of the cell `(row, column)`, the coordinates taken in
/// either order: the larger one picks the triangle row, the smaller one the
/// position inside that row.
pub open spec fn tri_index(row: int, column: int) -> int {
    if row >= column {
        tri_count(row) + column
    } else {
        tri_count(column) + row
    }
}

/// Whether two coordinate pairs address the same cell of the triangle:
/// they agree as unordered pairs.
pub open spec fn same_cell(r1: int, c1: int, r2: int, c2: int) -> bool {
    (r1 == r2 && c1 == c2) || (r1 == c2 && c1 == r2)
}

/// The triangular numbers never decrease.
pub proof fn lemma_tri_count_monotonic(a: int, b: int)
    requires
        a <= b,
    ensures
        tri_count(a) <= tri_count(b),
    decreases b - a,
{
    if a < b {
        lemma_tri_count_monotonic(a, b - 1);
    }
}

/// The closed form of the triangular numbers: `tri_count(n) == n * (n + 1) / 2`.
pub proof fn lemma_tri_count_closed_form(n: int)
    requires
        n >= 0,
    ensures
        2 * tri_count(n) == n * (n + 1),
        tri_count(n) == n * (n + 1) / 2,
    decreases n,
{
    if n > 0 {
        lemma_tri_count_closed_form(n - 1);
        assert((n - 1) * n + 2 * n == n * (n + 1)) by (nonlinear_arith);
    }
    lemma_div_multiples_vanish(tri_count(n), 2);
}

/// Symmetry: the two orders of a coordinate pair give the same offset.
pub proof fn lemma_tri_index_symmetric(row: int, column: int)
    ensures
        tri_index(row, column) == tri_index(column, row),
{
}

/// Every cell of a triangle with `n` rows gets an offset below
/// `tri_count(n)`, the cell count of the whole triangle.
pub proof fn lemma_tri_index_bounds(row: int, column: int, n: int)
    requires
        0 <= row < n,
        0 <= column < n,
    ensures
        0 <= tri_index(row, column) < tri_count(n),
{
    let a = if row >= column { row } else { column };
    assert(tri_count(a + 1) == tri_count(a) + a + 1);
    lemma_tri_count_monotonic(0, a);
    lemma_tri_count_monotonic(a + 1, n);
}

/// Injectivity: two cells of the triangle in canonical form (row at least
/// column) with the same offset are the same cell.
pub proof fn lemma_tri_index_injective(r1: int, c1: int, r2: int, c2: int)
    requires
        0 <= c1 <= r1,
        0 <= c2 <= r2,
        tri_index(r1, c1) == tri_index(r2, c2),
    ensures
        r1 == r2,
        c1 == c2,
{
    if r1 < r2 {
        assert(tri_count(r1 + 1) == tri_count(r1) + r1 + 1);
        lemma_tri_count_monotonic(r1 + 1, r2);
    }
    if r2 < r1 {
        assert(tri_count(r2 + 1) == tri_count(r2) + r2 + 1);
        lemma_tri_count_monotonic(r2 + 1, r1);
    }
}

/// Distinct cells of the triangle get distinct offsets, the coordinates of
/// each taken in either order.
pub proof fn lemma_tri_index_distinct(n: int, r1: int, c1: int, r2: int, c2: int)
    requires
        0 <= r1 < n,
        0 <= c1 < n,
        0 <= r2 < n,
        0 <= c2 < n,
        !same_cell(r1, c1, r2, c2),
    ensures
        tri_index(r1, c1) != tri_index(r2, c2),
{
    let a1 = if r1 >= c1 { r1 } else { c1 };
    let b1 = if r1 >= c1 { c1 } else { r1 };
    let a2 = if r2 >= c2 { r2 } else { c2 };
    let b2 = if r2 >= c2 { c2 } else { r2 };
    if tri_index(r1, c1) == tri_index(r2, c2) {
        lemma_tri_index_injective(a1, b1, a2, b2);
    }
}

/// Coverage: every offset below `tri_count(n)` addresses some cell of the
/// triangle with `n` rows, so together with `lemma_tri_index_injective` the
/// cells in canonical form map one-to-one onto `0 .. tri_count(n)`.
pub proof fn lemma_tri_index_covers(n: int, i: int)
    requires
        0 <= i < tri_count(n),
    ensures
        exists|r: int, c: int| 0 <= c <= r < n && tri_index(r, c) == i,
    decreases n,
{
    if n > 0 {
        if i < tri_count(n - 1) {
            lemma_tri_index_covers(n - 1, i);
            let (r, c) = choose|r: int, c: int| 0 <= c <= r < n - 1 && tri_index(r, c) == i;
            assert(0 <= c <= r < n && tri_index(r, c) == i);
        } else {
            let r = n - 1;
            let c = i - tri_count(n - 1);
            assert(0 <= c <= r < n && tri_index(r, c) == i);
        }
    }
}

} // verus!
