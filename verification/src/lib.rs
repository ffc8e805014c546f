//! Packed storage for a symmetric boolean relation over a fixed, linearly
//! indexed set of elements.
//!
//! A symmetric relation over elements `0 .. size` ("do `i` and `j`
//! interact?") fills a square matrix in which the cell for `(row, column)`
//! and the cell for `(column, row)` carry the same answer. [`HalfMatrix`]
//! therefore stores only the lower triangle — the cells with
//! `row >= column`, diagonal included — as one packed bit sequence of
//! `size * (size + 1) / 2` bits, laid out row by row. A 4-element matrix
//! packs like this, with the offset of each stored cell:
//!
//! ```text
//! row 0 | 0
//! row 1 | 1 2
//! row 2 | 3 4 5
//! row 3 | 6 7 8 9
//! ```
//!
//! Coordinates may come in either order: every operation first puts the
//! larger coordinate on the row axis, so `(0, 3)` and `(3, 0)` name the
//! same cell.

use vstd::prelude::*;

mod bits;
mod triangular;

use crate::bits::{
    bit_set_add, bit_set_contains, bit_set_contents, bit_set_remove, bit_set_with_capacity,
    BIT_INDEX_LIMIT,
};
use crate::triangular::{
    lemma_tri_count_closed_form, lemma_tri_count_monotonic, lemma_tri_index_bounds,
    lemma_tri_index_distinct, lemma_tri_index_symmetric, same_cell, tri_count, tri_index,
};

verus! {

/// The largest accepted side length: the largest `n` whose cell count
/// `n * (n + 1) / 2` still fits in the addressable range of the bit
/// storage (`crate::bits::BIT_INDEX_LIMIT`).
pub const MAX_SIZE: u32 = 5792;

/// A square boolean matrix that stores only its lower triangle.
///
/// The first coordinate of every method is the row, the second the column,
/// and the two may come in either order; both must be below the side
/// length `size`. See the crate documentation for the layout.
pub struct HalfMatrix {
    size: u32,
    index_size: u32,
    collision_matrix: hibitset::BitSet,
}

impl HalfMatrix {
    /// The number of elements along one side of the matrix.
    pub closed spec fn spec_size(self) -> u32 {
        self.size
    }

    /// The number of stored cells: one per pair `(row, column)` with
    /// `row >= column`, that is `tri_count(self.spec_size())`.
    pub closed spec fn spec_cell_count(self) -> u32 {
        self.index_size
    }

    /// Well-formedness: the side length is within the capacity ceiling and
    /// the cell count is the matching triangular number.
    pub closed spec fn wf(self) -> bool {
        &&& self.size <= MAX_SIZE
        &&& self.index_size as int == tri_count(self.size as int)
    }

    /// Whether the cell for `(row, column)` is set; both coordinate orders
    /// name the same cell.
    pub closed spec fn spec_contains(self, row: u32, column: u32) -> bool {
        bit_set_contents(self.collision_matrix).contains(
            tri_index(row as int, column as int) as u32,
        )
    }

    /// Creates a matrix for `size` elements with every cell clear.
    ///
    /// Side lengths past [`MAX_SIZE`] are ruled out up front: their cell
    /// count would pass the addressable range of the bit storage. Callers
    /// that cannot guarantee the bound use [`HalfMatrix::try_new`].
    pub fn new(size: u32) -> (m: HalfMatrix)
        requires
            size <= MAX_SIZE,
        ensures
            m.wf(),
            m.spec_size() == size,
            m.spec_cell_count() as int == tri_count(size as int),
            m.spec_cell_count() as int == size * (size + 1) / 2,
            forall|r: u32, c: u32| !m.spec_contains(r, c),
    {
        proof {
            assert(size * (size + 1) <= 5792 * 5793) by (nonlinear_arith)
                requires
                    size <= 5792,
            ;
            lemma_tri_count_closed_form(size as int);
            lemma_cell_count_within_limit(size as int);
        }
        let index_size: u32 = (size * (size + 1)) / 2;
        HalfMatrix {
            size,
            index_size,
            collision_matrix: bit_set_with_capacity(index_size),
        }
    }

    /// Creates a matrix for `size` elements, or reports that `size` passes
    /// the capacity ceiling [`MAX_SIZE`].
    pub fn try_new(size: u32) -> (m: Option<HalfMatrix>)
        ensures
            match m {
                Some(matrix) => {
                    &&& size <= MAX_SIZE
                    &&& matrix.wf()
                    &&& matrix.spec_size() == size
                    &&& forall|r: u32, c: u32| !matrix.spec_contains(r, c)
                },
                None => size > MAX_SIZE,
            },
    {
        if size <= MAX_SIZE {
            Some(HalfMatrix::new(size))
        } else {
            None
        }
    }

    /// Returns the side length the matrix was built with.
    pub fn size(&self) -> (s: u32)
        ensures
            s == self.spec_size(),
    {
        self.size
    }

    /// The offset of the cell for `(row, column)` inside the packed bit
    /// sequence; `index_of(0, 0) == 0`. The coordinates may come in either
    /// order, and the offset always lands below the cell count.
    pub fn index_of(&self, row: u32, column: u32) -> (idx: u32)
        requires
            self.wf(),
            row < self.spec_size(),
            column < self.spec_size(),
        ensures
            idx as int == tri_index(row as int, column as int),
            idx < self.spec_cell_count(),
    {
        let (a, b) = if row >= column {
            (row, column)
        } else {
            (column, row)
        };
        proof {
            assert(a * (a + 1) <= 5791 * 5792) by (nonlinear_arith)
                requires
                    a <= 5791,
            ;
            lemma_tri_count_closed_form(a as int);
            assert(tri_count(a as int + 1) == tri_count(a as int) + a + 1);
            lemma_tri_count_monotonic(a as int + 1, self.size as int);
        }
        let row_sum: u32 = (a * (a + 1)) / 2;
        row_sum + b
    }

    /// Sets the cell for `(row, column)`, in either coordinate order.
    /// Every other cell keeps its value.
    pub fn enable(&mut self, row: u32, column: u32)
        requires
            old(self).wf(),
            row < old(self).spec_size(),
            column < old(self).spec_size(),
        ensures
            final(self).wf(),
            final(self).spec_size() == old(self).spec_size(),
            final(self).spec_cell_count() == old(self).spec_cell_count(),
            final(self).spec_contains(row, column),
            final(self).spec_contains(column, row),
            forall|r: u32, c: u32|
                r < old(self).spec_size() && c < old(self).spec_size()
                    && !same_cell(r as int, c as int, row as int, column as int)
                    ==> final(self).spec_contains(r, c) == old(self).spec_contains(r, c),
    {
        let idx: u32 = self.index_of(row, column);
        proof {
            lemma_cell_count_within_limit(self.size as int);
        }
        bit_set_add(&mut self.collision_matrix, idx);
        proof {
            lemma_tri_index_symmetric(row as int, column as int);
            self.lemma_untouched_cells(*old(self), row, column);
        }
    }

    /// Clears the cell for `(row, column)`, in either coordinate order.
    /// Every other cell keeps its value.
    pub fn disable(&mut self, row: u32, column: u32)
        requires
            old(self).wf(),
            row < old(self).spec_size(),
            column < old(self).spec_size(),
        ensures
            final(self).wf(),
            final(self).spec_size() == old(self).spec_size(),
            final(self).spec_cell_count() == old(self).spec_cell_count(),
            !final(self).spec_contains(row, column),
            !final(self).spec_contains(column, row),
            forall|r: u32, c: u32|
                r < old(self).spec_size() && c < old(self).spec_size()
                    && !same_cell(r as int, c as int, row as int, column as int)
                    ==> final(self).spec_contains(r, c) == old(self).spec_contains(r, c),
    {
        let idx: u32 = self.index_of(row, column);
        bit_set_remove(&mut self.collision_matrix, idx);
        proof {
            lemma_tri_index_symmetric(row as int, column as int);
            self.lemma_untouched_cells(*old(self), row, column);
        }
    }

    /// Returns whether the cell for `(row, column)` is set, in either
    /// coordinate order.
    pub fn contains(&self, row: u32, column: u32) -> (present: bool)
        requires
            self.wf(),
            row < self.spec_size(),
            column < self.spec_size(),
        ensures
            present == self.spec_contains(row, column),
            present == self.spec_contains(column, row),
    {
        let idx: u32 = self.index_of(row, column);
        proof {
            lemma_tri_index_symmetric(row as int, column as int);
        }
        bit_set_contains(&self.collision_matrix, idx)
    }

    /// After a bit at the offset of `(row, column)` was set or cleared,
    /// every cell other than the one for `(row, column)` reads as it did
    /// before: distinct cells sit at distinct offsets.
    proof fn lemma_untouched_cells(self, prior: HalfMatrix, row: u32, column: u32)
        requires
            prior.wf(),
            row < prior.spec_size(),
            column < prior.spec_size(),
            self.size == prior.size,
            forall|i: u32|
                i as int != tri_index(row as int, column as int)
                    ==> bit_set_contents(self.collision_matrix).contains(i)
                        == bit_set_contents(prior.collision_matrix).contains(i),
        ensures
            forall|r: u32, c: u32|
                r < prior.spec_size() && c < prior.spec_size()
                    && !same_cell(r as int, c as int, row as int, column as int)
                    ==> self.spec_contains(r, c) == prior.spec_contains(r, c),
    {
        let n = prior.size as int;
        assert forall|r: u32, c: u32|
            r < prior.spec_size() && c < prior.spec_size()
                && !same_cell(r as int, c as int, row as int, column as int)
                implies self.spec_contains(r, c) == prior.spec_contains(r, c) by {
            lemma_tri_index_bounds(r as int, c as int, n);
            lemma_tri_index_distinct(n, r as int, c as int, row as int, column as int);
        }
    }
}

/// The cell count of any accepted side length stays below the addressable
/// range of the bit storage.
proof fn lemma_cell_count_within_limit(n: int)
    requires
        0 <= n <= MAX_SIZE,
    ensures
        tri_count(n) < BIT_INDEX_LIMIT,
{
    lemma_tri_count_monotonic(n, MAX_SIZE as int);
    lemma_tri_count_closed_form(MAX_SIZE as int);
}

} // verus!
