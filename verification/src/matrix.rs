//! Trace matrices: an ordered sequence of rows of one fixed width, stored
//! row after row in one buffer.

use vstd::prelude::*;
use vstd::arithmetic::div_mod::*;
use vstd::slice::{slice_subrange, slice_to_vec};

verus! {

/// A dense matrix in row-major order.
#[derive(Debug)]
pub struct Matrix<T> {
    pub(crate) values: Vec<T>,
    pub(crate) width: usize,
}

/// `count` whole rows of width `width` end within a buffer that holds
/// `len / width` rows.
pub proof fn lemma_rows_fit(len: int, width: int, count: int)
    requires
        width > 0,
        len >= 0,
        0 <= count <= len / width,
    ensures
        0 <= count * width <= len,
{
    lemma_fundamental_div_mod(len, width);
    assert(count * width <= (len / width) * width) by (nonlinear_arith)
        requires
            0 <= count <= len / width,
            width > 0,
    ;
    assert(0 <= count * width) by (nonlinear_arith)
        requires
            0 <= count,
            width > 0,
    ;
    assert((len / width) * width == width * (len / width)) by (nonlinear_arith);
}

/// A buffer of `height` rows of width `width` holds `height` rows.
pub proof fn lemma_rows_of_product(height: int, width: int)
    requires
        width > 0,
        height >= 0,
    ensures
        (height * width) / width == height,
        (height * width) % width == 0,
{
    assert(height * width == width * height) by (nonlinear_arith);
    lemma_div_multiples_vanish(height, width);
    lemma_mod_multiples_basic(height, width);
}

impl<T> Matrix<T> {
    /// The buffer holds whole rows only.
    #[verifier::type_invariant]
    pub open spec fn well_formed(self) -> bool {
        &&& self.cols() == 0 ==> self.cells().len() == 0
        &&& self.cols() > 0 ==> self.cells().len() % self.cols() == 0
    }

    /// All cells, row after row.
    pub closed spec fn cells(self) -> Seq<T> {
        self.values@
    }

    /// The number of columns.
    pub closed spec fn cols(self) -> nat {
        self.width as nat
    }

    /// The number of rows.
    pub open spec fn rows(self) -> nat {
        if self.cols() == 0 {
            0
        } else {
            self.cells().len() / self.cols()
        }
    }

    /// Row `r`.
    pub open spec fn row(self, r: int) -> Seq<T> {
        self.cells().subrange(r * self.cols(), (r + 1) * self.cols())
    }

    /// The cell in row `r` and column `c`.
    pub open spec fn at(self, r: int, c: int) -> T {
        self.cells()[r * self.cols() + c]
    }

    /// Row `r` lies within the buffer, and its cells are those of the matrix.
    pub proof fn lemma_row(self, r: int)
        requires
            self.well_formed(),
            0 <= r < self.rows(),
        ensures
            0 <= r * self.cols() <= (r + 1) * self.cols() <= self.cells().len(),
            self.row(r).len() == self.cols(),
            forall|c: int| 0 <= c < self.cols() ==> self.row(r)[c] == #[trigger] self.at(r, c),
    {
        let w = self.cols() as int;
        let len = self.cells().len() as int;
        lemma_rows_fit(len, w, r);
        lemma_rows_fit(len, w, r + 1);
        assert((r + 1) * w == r * w + w) by (nonlinear_arith);
    }

    /// The matrix of width `width` whose cells, row after row, are `values`.
    pub fn new(values: Vec<T>, width: usize) -> (r: Matrix<T>)
        requires
            width == 0 ==> values.len() == 0,
            width > 0 ==> values.len() % width == 0,
        ensures
            r.cells() == values@,
            r.cols() == width,
    {
        Matrix { values, width }
    }

    /// The number of cells.
    pub fn values_len(&self) -> (r: usize)
        ensures
            r == self.cells().len(),
    {
        self.values.len()
    }

    pub fn width(&self) -> (r: usize)
        ensures
            r == self.cols(),
    {
        self.width
    }

    pub fn height(&self) -> (r: usize)
        ensures
            r == self.rows(),
            self.well_formed(),
    {
        proof {
            use_type_invariant(self);
        }
        if self.width == 0 {
            0
        } else {
            self.values.len() / self.width
        }
    }

    /// The cells of row `r`.
    pub fn row_slice(&self, r: usize) -> (row: &[T])
        requires
            r < self.rows(),
        ensures
            row@ == self.row(r as int),
            row@.len() == self.cols(),
    {
        let len: usize = self.values.len();
        proof {
            use_type_invariant(self);
            self.lemma_row(r as int);
            assert((r + 1) * self.cols() == r * self.cols() + self.cols()) by (nonlinear_arith);
            assert(r * self.width + self.width <= len);
        }
        let start: usize = r * self.width;
        let end: usize = start + self.width;
        slice_subrange(self.values.as_slice(), start, end)
    }
}

impl<T: Copy> Clone for Matrix<T> {
    fn clone(&self) -> (r: Self)
        ensures
            r.cells() == self.cells(),
            r.cols() == self.cols(),
    {
        self.duplicate()
    }
}

impl<T: Copy> Matrix<T> {
    /// The cell in row `r` and column `c`.
    pub fn get(&self, r: usize, c: usize) -> (cell: T)
        requires
            r < self.rows(),
            c < self.cols(),
        ensures
            cell == self.at(r as int, c as int),
    {
        let len: usize = self.values.len();
        proof {
            use_type_invariant(self);
            self.lemma_row(r as int);
            assert((r + 1) * self.cols() == r * self.cols() + self.cols()) by (nonlinear_arith);
            assert(r * self.width + self.width <= len);
        }
        self.values[r * self.width + c]
    }

    /// A copy of this matrix.
    pub fn duplicate(&self) -> (r: Matrix<T>)
        ensures
            r.cells() == self.cells(),
            r.cols() == self.cols(),
    {
        proof {
            use_type_invariant(self);
        }
        Matrix { values: slice_to_vec(self.values.as_slice()), width: self.width }
    }

    /// The matrix whose rows are `rows`, each of width `width`.
    pub fn from_rows(rows: &Vec<Vec<T>>, width: usize) -> (r: Matrix<T>)
        requires
            width > 0,
            forall|i: int| 0 <= i < rows@.len() ==> (#[trigger] rows@[i])@.len() == width,
        ensures
            r.cols() == width,
            r.rows() == rows@.len(),
            r.well_formed(),
            forall|i: int| 0 <= i < rows@.len() ==> #[trigger] r.row(i) == rows@[i]@,
    {
        let mut values: Vec<T> = Vec::new();
        let mut i: usize = 0;
        while i < rows.len()
            invariant
                width > 0,
                i <= rows@.len(),
                forall|k: int| 0 <= k < rows@.len() ==> (#[trigger] rows@[k])@.len() == width,
                values@.len() == i * width,
                forall|k: int|
                    0 <= k < i ==> #[trigger] values@.subrange(k * width, (k + 1) * width)
                        == rows@[k]@,
            decreases rows@.len() - i,
        {
            let ghost before = values@;
            let row = &rows[i];
            let mut c: usize = 0;
            while c < width
                invariant
                    c <= width,
                    row@.len() == width,
                    values@ == before + row@.take(c as int),
                decreases width - c,
            {
                values.push(row[c]);
                proof {
                    assert(row@.take(c + 1) == row@.take(c as int).push(row@[c as int]));
                }
                c += 1;
            }
            proof {
                assert(row@.take(width as int) == row@);
                assert((i + 1) * width == i * width + width) by (nonlinear_arith);
                assert forall|k: int| 0 <= k < i + 1 implies #[trigger] values@.subrange(
                    k * width,
                    (k + 1) * width,
                ) == rows@[k]@ by {
                    assert((k + 1) * width == k * width + width) by (nonlinear_arith);
                    if k < i {
                        assert((k + 1) * width <= i * width) by (nonlinear_arith)
                            requires
                                k + 1 <= i,
                                width > 0,
                        ;
                        assert(0 <= k * width) by (nonlinear_arith)
                            requires
                                0 <= k,
                                width > 0,
                        ;
                        assert(values@.subrange(k * width, (k + 1) * width) == before.subrange(
                            k * width,
                            (k + 1) * width,
                        ));
                    } else {
                        assert(values@.subrange(k * width, (k + 1) * width) == row@);
                    }
                }
            }
            i += 1;
        }
        proof {
            lemma_rows_of_product(rows@.len() as int, width as int);
        }
        Matrix { values, width }
    }

    /// The matrix of one column whose cells are `values`.
    pub fn new_col(values: Vec<T>) -> (r: Matrix<T>)
        ensures
            r.cells() == values@,
            r.cols() == 1,
            r.rows() == values.len(),
    {
        Matrix::new(values, 1)
    }
}

} // verus!
