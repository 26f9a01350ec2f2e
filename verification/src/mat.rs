//! The dense row-major matrix, its element and row accessors, its transforms,
//! and its iterators.

use vstd::prelude::*;

use crate::grid::mat_product;
use crate::grid::mm_entry;
use crate::grid::mm_prefix;
use crate::grid::mul_fits;
use crate::grid::prod_at;
use crate::grid::transpose_grid;
use crate::grid::GridMat;
use crate::grid::lemma_mm_prefix_snoc;
use crate::text::int_text;
use crate::text::i64_text;
use vstd::string::StringExecFns;

verus! {

/// The text of the first `j` elements of row `i`: each element's decimal
/// text followed by one space.
pub open spec fn row_text_upto(m: Matrix, i: int, j: int) -> Seq<char>
    decreases j,
{
    if j <= 0 {
        Seq::empty()
    } else {
        row_text_upto(m, i, j - 1) + int_text(m.entry(i, j - 1) as int) + seq![' ']
    }
}

/// The text of the first `i` rows: each row's elements space-separated, a
/// trailing space after the last element, and a line break after each row.
pub open spec fn text_upto(m: Matrix, i: int) -> Seq<char>
    decreases i,
{
    if i <= 0 {
        Seq::empty()
    } else {
        text_upto(m, i - 1) + row_text_upto(m, i - 1, m.cols as int) + seq!['\n']
    }
}

/// The full text of a matrix, rows in increasing index order.
pub open spec fn mat_text(m: Matrix) -> Seq<char> {
    text_upto(m, m.rows as int)
}

/// Why a matrix operation was refused.
#[derive(Clone, Copy, Debug, PartialEq, Eq, Structural)]
pub enum MatrixError {
    /// The shapes of the operands (or of a supplied buffer) do not agree.
    DimensionMismatch,
    /// An index or column range lies outside the matrix.
    OutOfBounds,
}

/// A dense matrix of `i64` elements in row-major order: the element at
/// `(row, col)` sits at offset `row * cols + col` of one contiguous buffer
/// of length `rows * cols`.
#[derive(Debug)]
pub struct Matrix {
    pub rows: usize,
    pub cols: usize,
    pub data: Vec<i64>,
}

impl Matrix {
    /// The underlying buffer, in row-major order.
    pub open spec fn flat(&self) -> Seq<i64> {
        self.data@
    }

    /// The layout invariant: the buffer holds exactly `rows * cols` elements.
    pub open spec fn wf(&self) -> bool {
        self.flat().len() == self.rows * self.cols
    }

    /// The element at `(i, j)`, read off the row-major buffer.
    pub open spec fn entry(&self, i: int, j: int) -> i64 {
        self.flat()[i * self.cols + j]
    }

    /// The matrix as a grid of unbounded integers.
    pub open spec fn model(&self) -> GridMat {
        GridMat {
            rows: self.rows as nat,
            cols: self.cols as nat,
            grid: Seq::new(
                self.rows as nat,
                (|i: int| Seq::new(self.cols as nat, (|j: int| self.entry(i, j) as int))),
            ),
        }
    }

    /// A matrix of the given shape whose every element is zero.
    ///
    /// Fails with `DimensionMismatch` only when `rows * cols` does not fit
    /// in `usize`, so that no buffer of that length could exist.
    pub fn new(rows: usize, cols: usize) -> (r: Result<Matrix, MatrixError>)
        ensures
            match r {
                Ok(m) => {
                    &&& rows * cols <= usize::MAX
                    &&& m.wf()
                    &&& m.rows == rows
                    &&& m.cols == cols
                    &&& forall|i: int, j: int|
                        0 <= i < rows && 0 <= j < cols ==> #[trigger] m.entry(i, j) == 0
                },
                Err(e) => e == MatrixError::DimensionMismatch && rows * cols > usize::MAX,
            },
    {
        match rows.checked_mul(cols) {
            Some(n) => {
                let m = Matrix { rows, cols, data: filled(n, 0) };
                proof {
                    lemma_entry_of_flat(&m);
                }
                Ok(m)
            },
            None => Err(MatrixError::DimensionMismatch),
        }
    }

    /// A matrix of the given shape wrapping a copy of `data`, which must hold
    /// exactly `rows * cols` elements in row-major order; any other length
    /// fails with `DimensionMismatch`.
    pub fn from_data(rows: usize, cols: usize, data: &[i64]) -> (r: Result<Matrix, MatrixError>)
        ensures
            match r {
                Ok(m) => {
                    &&& data@.len() == rows * cols
                    &&& m.wf()
                    &&& m.rows == rows
                    &&& m.cols == cols
                    &&& m.flat() == data@
                },
                Err(e) => e == MatrixError::DimensionMismatch && data@.len() != rows * cols,
            },
    {
        let len = data.len();
        let fits = match rows.checked_mul(cols) {
            Some(n) => len == n,
            None => false,
        };
        if fits {
            let mut buf: Vec<i64> = Vec::new();
            let mut i: usize = 0;
            while i < data.len()
                invariant
                    i <= data@.len(),
                    buf@ =~= data@.subrange(0, i as int),
                decreases data@.len() - i,
            {
                buf.push(*vstd::slice::slice_index_get(data, i));
                i = i + 1;
            }
            assert(buf@ =~= data@);
            Ok(Matrix { rows, cols, data: buf })
        } else {
            Err(MatrixError::DimensionMismatch)
        }
    }

    /// The shape as `(cols, rows)` — note the order: columns first, the
    /// reverse of the constructors' `(rows, cols)` argument order.
    pub fn dim(&self) -> (r: (usize, usize))
        ensures
            r == (self.cols, self.rows),
    {
        (self.cols, self.rows)
    }

    /// A read-only iterator over the elements in row-major order.
    pub fn iter(&self) -> (r: MatrixIterator<'_>)
        requires
            self.wf(),
        ensures
            r.wf(),
            r.spec_mat() == *self,
            r.spec_pos() == 0,
    {
        MatrixIterator { mat: self, pos: 0 }
    }

    /// An iterator over the `(row, col)` positions in row-major order, for
    /// mutating each element in turn through `set` (or reading it through
    /// `get`) without holding the whole matrix borrowed.
    pub fn iter_mut(&mut self) -> (r: MatrixMutIterator)
        requires
            old(self).wf(),
        ensures
            *final(self) == *old(self),
            r.wf(),
            r.spec_shape() == (old(self).rows, old(self).cols),
            r.spec_pos() == 0,
    {
        let n = self.data.len();
        MatrixMutIterator { rows: self.rows, cols: self.cols, pos: 0 }
    }

    /// The element at `(row, col)`; the indices must be in bounds.
    pub fn get(&self, row: usize, col: usize) -> (r: i64)
        requires
            self.wf(),
            row < self.rows,
            col < self.cols,
        ensures
            r == self.entry(row as int, col as int),
    {
        let n = self.data.len();
        proof {
            lemma_offset_in_bounds(self.rows as int, self.cols as int, row as int, col as int);
        }
        self.data[row * self.cols + col]
    }

    /// A new matrix with the dimensions swapped, whose element at `(j, i)`
    /// is this matrix's element at `(i, j)`; the operand is not changed.
    pub fn transpose(&self) -> (r: Matrix)
        requires
            self.wf(),
        ensures
            r.wf(),
            r.rows == self.cols,
            r.cols == self.rows,
            forall|i: int, j: int|
                0 <= i < self.rows && 0 <= j < self.cols ==> #[trigger] r.entry(j, i)
                    == self.entry(i, j),
            r.model() == transpose_grid(self.model()),
    {
        let n = self.data.len();
        proof {
            assert(self.cols * self.rows == self.rows * self.cols) by (nonlinear_arith);
        }
        let mut out = Matrix { rows: self.cols, cols: self.rows, data: filled(n, 0) };
        let mut i: usize = 0;
        while i < self.rows
            invariant
                self.wf(),
                out.wf(),
                out.rows == self.cols,
                out.cols == self.rows,
                i <= self.rows,
                forall|a: int, b: int|
                    0 <= a < self.cols && 0 <= b < i ==> #[trigger] out.entry(a, b) == self.entry(
                        b,
                        a,
                    ),
            decreases self.rows - i,
        {
            let mut j: usize = 0;
            while j < self.cols
                invariant
                    self.wf(),
                    out.wf(),
                    out.rows == self.cols,
                    out.cols == self.rows,
                    i < self.rows,
                    j <= self.cols,
                    forall|a: int, b: int|
                        0 <= a < self.cols && 0 <= b < i ==> #[trigger] out.entry(a, b)
                            == self.entry(b, a),
                    forall|a: int|
                        0 <= a < j ==> #[trigger] out.entry(a, i as int) == self.entry(i as int, a),
                decreases self.cols - j,
            {
                let v = self.get(i, j);
                out.set(j, i, v);
                j = j + 1;
            }
            i = i + 1;
        }
        proof {
            lemma_models_transposed(self, &out);
        }
        out
    }

    /// The matrix product `self * rhs`: a new `(self.rows, rhs.cols)` matrix
    /// whose element at `(i, j)` is the inner product of row `i` of `self`
    /// with column `j` of `rhs`. Fails with `DimensionMismatch` — and
    /// computes nothing — exactly when `self.cols != rhs.rows`. Every product
    /// and running sum must fit in `i64`, and the result's element count in
    /// `usize`.
    pub fn mul(&self, rhs: &Matrix) -> (r: Result<Matrix, MatrixError>)
        requires
            self.wf(),
            rhs.wf(),
            self.cols == rhs.rows ==> self.rows * rhs.cols <= usize::MAX,
            self.cols == rhs.rows ==> mul_fits(self.model(), rhs.model()),
        ensures
            match r {
                Ok(m) => {
                    &&& self.cols == rhs.rows
                    &&& m.wf()
                    &&& m.rows == self.rows
                    &&& m.cols == rhs.cols
                    &&& forall|i: int, j: int|
                        0 <= i < self.rows && 0 <= j < rhs.cols ==> #[trigger] m.entry(i, j) as int
                            == mm_entry(self.model(), rhs.model(), i, j)
                    &&& m.model() == mat_product(self.model(), rhs.model())
                },
                Err(e) => e == MatrixError::DimensionMismatch && self.cols != rhs.rows,
            },
    {
        if self.cols != rhs.rows {
            return Err(MatrixError::DimensionMismatch);
        }
        let ghost ga = self.model();
        let ghost gb = rhs.model();
        proof {
            lemma_model_wf(self);
            lemma_model_wf(rhs);
        }
        let n = self.rows * rhs.cols;
        let mut out = Matrix { rows: self.rows, cols: rhs.cols, data: filled(n, 0) };
        let mut i: usize = 0;
        while i < self.rows
            invariant
                self.wf(),
                rhs.wf(),
                self.cols == rhs.rows,
                ga == self.model(),
                gb == rhs.model(),
                mul_fits(ga, gb),
                out.wf(),
                out.rows == self.rows,
                out.cols == rhs.cols,
                i <= self.rows,
                forall|a: int, b: int|
                    0 <= a < i && 0 <= b < rhs.cols ==> #[trigger] out.entry(a, b) as int
                        == mm_entry(ga, gb, a, b),
            decreases self.rows - i,
        {
            let mut j: usize = 0;
            while j < rhs.cols
                invariant
                    self.wf(),
                    rhs.wf(),
                    self.cols == rhs.rows,
                    ga == self.model(),
                    gb == rhs.model(),
                    mul_fits(ga, gb),
                    out.wf(),
                    out.rows == self.rows,
                    out.cols == rhs.cols,
                    i < self.rows,
                    j <= rhs.cols,
                    forall|a: int, b: int|
                        0 <= a < i && 0 <= b < rhs.cols ==> #[trigger] out.entry(a, b) as int
                            == mm_entry(ga, gb, a, b),
                    forall|b: int|
                        0 <= b < j ==> #[trigger] out.entry(i as int, b) as int == mm_entry(
                            ga,
                            gb,
                            i as int,
                            b,
                        ),
                decreases rhs.cols - j,
            {
                let mut acc: i64 = 0;
                let mut k: usize = 0;
                while k < rhs.rows
                    invariant
                        self.wf(),
                        rhs.wf(),
                        self.cols == rhs.rows,
                        ga == self.model(),
                        gb == rhs.model(),
                        mul_fits(ga, gb),
                        i < self.rows,
                        j < rhs.cols,
                        k <= rhs.rows,
                        acc as int == mm_prefix(ga, gb, i as int, j as int, k as nat),
                    decreases rhs.rows - k,
                {
                    let x = self.get(i, k);
                    let y = rhs.get(k, j);
                    proof {
                        lemma_model_wf(self);
                        lemma_model_wf(rhs);
                        assert(prod_at(ga, gb, i as int, j as int, k as int) == x as int
                            * y as int);
                        lemma_mm_prefix_snoc(ga, gb, i as int, j as int, k as nat);
                        assert(i64::MIN <= mm_prefix(ga, gb, i as int, j as int, k as nat + 1)
                            <= i64::MAX);
                    }
                    acc = acc + x * y;
                    k = k + 1;
                }
                proof {
                    assert(mm_prefix(ga, gb, i as int, j as int, rhs.rows as nat) == mm_entry(
                        ga,
                        gb,
                        i as int,
                        j as int,
                    ));
                }
                out.set(i, j, acc);
                j = j + 1;
            }
            i = i + 1;
        }
        proof {
            lemma_models_product(self, rhs, &out);
        }
        Ok(out)
    }

    /// Multiplies every element in place by `scalar`, row by row; the shape
    /// is unchanged. Every product must fit in `i64`.
    pub fn multiply_by_scalar(&mut self, scalar: i64)
        requires
            old(self).wf(),
            forall|i: int, j: int|
                0 <= i < old(self).rows && 0 <= j < old(self).cols ==> i64::MIN <= #[trigger] (
                old(self).entry(i, j) * scalar) <= i64::MAX,
        ensures
            final(self).wf(),
            final(self).rows == old(self).rows,
            final(self).cols == old(self).cols,
            forall|i: int, j: int|
                0 <= i < old(self).rows && 0 <= j < old(self).cols ==> #[trigger] final(self).entry(
                    i,
                    j,
                ) == old(self).entry(i, j) * scalar,
    {
        let rows = self.rows;
        let cols = self.cols;
        let mut row: usize = 0;
        while row < rows
            invariant
                self.wf(),
                self.rows == rows,
                self.cols == cols,
                row <= rows,
                forall|i: int, j: int|
                    0 <= i < rows && 0 <= j < cols ==> i64::MIN <= #[trigger] (old(self).entry(i, j)
                        * scalar) <= i64::MAX,
                forall|i: int, j: int|
                    0 <= i < row && 0 <= j < cols ==> #[trigger] self.entry(i, j) == old(
                        self,
                    ).entry(i, j) * scalar,
                forall|i: int, j: int|
                    row <= i < rows && 0 <= j < cols ==> #[trigger] self.entry(i, j) == old(
                        self,
                    ).entry(i, j),
            decreases rows - row,
        {
            let mut col: usize = 0;
            while col < cols
                invariant
                    self.wf(),
                    self.rows == rows,
                    self.cols == cols,
                    row < rows,
                    col <= cols,
                    forall|i: int, j: int|
                        0 <= i < rows && 0 <= j < cols ==> i64::MIN <= #[trigger] (old(self).entry(
                            i,
                            j,
                        ) * scalar) <= i64::MAX,
                    forall|i: int, j: int|
                        0 <= i < row && 0 <= j < cols ==> #[trigger] self.entry(i, j) == old(
                            self,
                        ).entry(i, j) * scalar,
                    forall|j: int|
                        0 <= j < col ==> #[trigger] self.entry(row as int, j) == old(self).entry(
                            row as int,
                            j,
                        ) * scalar,
                    forall|j: int|
                        col <= j < cols ==> #[trigger] self.entry(row as int, j) == old(
                            self,
                        ).entry(row as int, j),
                    forall|i: int, j: int|
                        row < i < rows && 0 <= j < cols ==> #[trigger] self.entry(i, j) == old(
                            self,
                        ).entry(i, j),
                decreases cols - col,
            {
                let v = self.get(row, col);
                self.set(row, col, v * scalar);
                col = col + 1;
            }
            row = row + 1;
        }
    }

    /// A copy of the elements of row `row` in columns `start .. end`, in
    /// column order. Fails with `OutOfBounds` — and changes nothing — when
    /// the row or the half-open column range lies outside the matrix.
    pub fn row_slice(&self, row: usize, start: usize, end: usize) -> (r: Result<
        Vec<i64>,
        MatrixError,
    >)
        requires
            self.wf(),
        ensures
            match r {
                Ok(v) => {
                    &&& row < self.rows
                    &&& start <= end <= self.cols
                    &&& v@.len() == end - start
                    &&& forall|k: int|
                        0 <= k < end - start ==> v@[k] == self.entry(row as int, start + k)
                },
                Err(e) => {
                    &&& e == MatrixError::OutOfBounds
                    &&& !(row < self.rows && start <= end && end <= self.cols)
                },
            },
    {
        if !(row < self.rows && start <= end && end <= self.cols) {
            return Err(MatrixError::OutOfBounds);
        }
        let mut v: Vec<i64> = Vec::new();
        let mut k: usize = 0;
        while k < end - start
            invariant
                self.wf(),
                row < self.rows,
                start <= end <= self.cols,
                k <= end - start,
                v@.len() == k,
                forall|kk: int|
                    0 <= kk < k ==> v@[kk] == self.entry(row as int, start + kk),
            decreases end - start - k,
        {
            v.push(self.get(row, start + k));
            k = k + 1;
        }
        Ok(v)
    }

    /// A copy of the whole of row `row`, in column order. Fails with
    /// `OutOfBounds` when `row` is not a row of the matrix.
    pub fn row(&self, row: usize) -> (r: Result<Vec<i64>, MatrixError>)
        requires
            self.wf(),
        ensures
            match r {
                Ok(v) => {
                    &&& row < self.rows
                    &&& v@.len() == self.cols
                    &&& forall|k: int| 0 <= k < self.cols ==> v@[k] == self.entry(row as int, k)
                },
                Err(e) => e == MatrixError::OutOfBounds && row >= self.rows,
            },
    {
        self.row_slice(row, 0, self.cols)
    }

    /// The matrix as text: each element in decimal followed by one space,
    /// each row (its last element's trailing space included) followed by one
    /// line break, rows in increasing index order.
    pub fn render(&self) -> (r: String)
        requires
            self.wf(),
        ensures
            r@ == mat_text(*self),
    {
        let mut s = String::new();
        proof {
            assert(s@ =~= text_upto(*self, 0));
        }
        let mut i: usize = 0;
        while i < self.rows
            invariant
                self.wf(),
                i <= self.rows,
                s@ == text_upto(*self, i as int),
            decreases self.rows - i,
        {
            let mut j: usize = 0;
            proof {
                assert(s@ =~= text_upto(*self, i as int) + row_text_upto(*self, i as int, 0));
            }
            while j < self.cols
                invariant
                    self.wf(),
                    i < self.rows,
                    j <= self.cols,
                    s@ == text_upto(*self, i as int) + row_text_upto(*self, i as int, j as int),
                decreases self.cols - j,
            {
                let t = i64_text(self.get(i, j));
                s.append(t.as_str());
                s.append(" ");
                proof {
                    reveal_strlit(" ");
                    assert(s@ =~= text_upto(*self, i as int) + row_text_upto(
                        *self,
                        i as int,
                        j as int + 1,
                    ));
                }
                j = j + 1;
            }
            s.append("\n");
            proof {
                reveal_strlit("\n");
                assert(s@ =~= text_upto(*self, i as int + 1));
            }
            i = i + 1;
        }
        s
    }

    /// Writes `v` to the element at `(row, col)`, leaving every other
    /// element and the shape unchanged; the indices must be in bounds.
    pub fn set(&mut self, row: usize, col: usize, v: i64)
        requires
            old(self).wf(),
            row < old(self).rows,
            col < old(self).cols,
        ensures
            final(self).wf(),
            final(self).rows == old(self).rows,
            final(self).cols == old(self).cols,
            final(self).entry(row as int, col as int) == v,
            forall|i: int, j: int|
                0 <= i < old(self).rows && 0 <= j < old(self).cols && !(i == row && j == col)
                    ==> #[trigger] final(self).entry(i, j) == old(self).entry(i, j),
    {
        let n = self.data.len();
        proof {
            lemma_offset_in_bounds(self.rows as int, self.cols as int, row as int, col as int);
        }
        let idx = row * self.cols + col;
        self.data[idx] = v;
        proof {
            assert forall|i: int, j: int|
                0 <= i < self.rows && 0 <= j < self.cols && !(i == row && j == col)
                    implies #[trigger] self.entry(i, j) == old(self).entry(i, j) by {
                lemma_offset_in_bounds(self.rows as int, self.cols as int, i, j);
                lemma_offsets_distinct(self.cols as int, i, j, row as int, col as int);
            }
        }
    }
}

/// A lazy read-only walk over a matrix: each call of `next` clones out one
/// element, in row-major order, until all `rows * cols` are spent.
pub struct MatrixIterator<'a> {
    pub mat: &'a Matrix,
    pub pos: usize,
}

impl<'a> MatrixIterator<'a> {
    /// The matrix being walked.
    pub open spec fn spec_mat(&self) -> Matrix {
        *self.mat
    }

    /// How many elements have been yielded so far.
    pub open spec fn spec_pos(&self) -> int {
        self.pos as int
    }

    /// The iterator still points into its matrix.
    pub open spec fn wf(&self) -> bool {
        &&& self.mat.wf()
        &&& self.pos <= self.mat.rows * self.mat.cols
    }

    /// The next element in row-major order, or `None` once all
    /// `rows * cols` elements have been yielded.
    pub fn next(&mut self) -> (r: Option<i64>)
        requires
            old(self).wf(),
        ensures
            final(self).wf(),
            final(self).spec_mat() == old(self).spec_mat(),
            if old(self).spec_pos() < old(self).spec_mat().rows * old(self).spec_mat().cols {
                &&& r == Some(old(self).spec_mat().flat()[old(self).spec_pos()])
                &&& final(self).spec_pos() == old(self).spec_pos() + 1
            } else {
                &&& r is None
                &&& final(self).spec_pos() == old(self).spec_pos()
            },
    {
        if self.pos < self.mat.data.len() {
            let v = self.mat.data[self.pos];
            self.pos = self.pos + 1;
            Some(v)
        } else {
            None
        }
    }
}

/// A walk over the positions of a matrix in row-major order: each call of
/// `next` yields one `(row, col)` pair, through which the caller may read or
/// write that element (`get`, `set`) while no element handle is ever held by
/// two owners.
pub struct MatrixMutIterator {
    pub rows: usize,
    pub cols: usize,
    pub pos: usize,
}

impl MatrixMutIterator {
    /// The shape being walked, as `(rows, cols)`.
    pub open spec fn spec_shape(&self) -> (usize, usize) {
        (self.rows, self.cols)
    }

    /// How many positions have been yielded so far.
    pub open spec fn spec_pos(&self) -> int {
        self.pos as int
    }

    /// The position counter has not outrun the shape, and the element count
    /// fits in `usize`, as it does for every matrix this crate constructs.
    pub open spec fn wf(&self) -> bool {
        &&& self.pos <= self.rows * self.cols
        &&& self.rows * self.cols <= usize::MAX
    }

    /// The next `(row, col)` position in row-major order, or `None` once all
    /// `rows * cols` positions have been yielded.
    pub fn next(&mut self) -> (r: Option<(usize, usize)>)
        requires
            old(self).wf(),
        ensures
            final(self).wf(),
            final(self).spec_shape() == old(self).spec_shape(),
            if old(self).spec_pos() < old(self).spec_shape().0 * old(self).spec_shape().1 {
                &&& r == Some(
                    (
                        (old(self).spec_pos() / old(self).spec_shape().1 as int) as usize,
                        (old(self).spec_pos() % old(self).spec_shape().1 as int) as usize,
                    ),
                )
                &&& final(self).spec_pos() == old(self).spec_pos() + 1
            } else {
                &&& r is None
                &&& final(self).spec_pos() == old(self).spec_pos()
            },
    {
        let limit = self.rows * self.cols;
        if self.pos < limit {
            proof {
                lemma_pos_to_indices(self.rows as int, self.cols as int, self.pos as int);
            }
            let row = self.pos / self.cols;
            let col = self.pos % self.cols;
            self.pos = self.pos + 1;
            Some((row, col))
        } else {
            None
        }
    }
}

/// A position below `rows * cols` splits into in-bounds row and column
/// indices by division and remainder.
proof fn lemma_pos_to_indices(rows: int, cols: int, pos: int)
    requires
        0 <= rows,
        0 <= cols,
        0 <= pos < rows * cols,
    ensures
        cols > 0,
        0 <= pos / cols < rows,
        0 <= pos % cols < cols,
{
    assert(cols > 0) by (nonlinear_arith)
        requires
            0 <= cols,
            0 <= pos < rows * cols,
    ;
    assert(0 <= pos / cols < rows && 0 <= pos % cols < cols) by (nonlinear_arith)
        requires
            0 <= pos < rows * cols,
            cols > 0,
    ;
}

/// Round-trip law: transposing a matrix twice restores it. `t` and `u` are
/// bound exactly as `transpose` ensures of its result, so for any matrix
/// `m`, the matrix `m.transpose().transpose()` has `m`'s shape and `m`'s
/// element at every position.
pub proof fn lemma_transpose_round_trip(m: &Matrix, t: &Matrix, u: &Matrix)
    requires
        m.wf(),
        t.model() == crate::grid::transpose_grid(m.model()),
        u.model() == crate::grid::transpose_grid(t.model()),
    ensures
        u.rows == m.rows,
        u.cols == m.cols,
        forall|i: int, j: int|
            0 <= i < m.rows && 0 <= j < m.cols ==> #[trigger] u.entry(i, j) == m.entry(i, j),
{
    lemma_model_wf(m);
    lemma_model_wf(t);
    lemma_model_wf(u);
    crate::grid::lemma_transpose_involution(m.model());
    assert(u.model() == m.model());
    assert(u.model().rows == m.model().rows);
    assert forall|i: int, j: int|
        0 <= i < m.rows && 0 <= j < m.cols implies #[trigger] u.entry(i, j) == m.entry(i, j) by {
        assert(u.model().grid[i][j] == m.model().grid[i][j]);
    }
}

/// Associativity law: matrix multiplication associates. `ab`, `bc`, `abc`
/// and `a_bc` are bound exactly as `mul` ensures of its results, so for
/// conformant matrices the products `(a * b) * c` and `a * (b * c)` have the
/// same shape and the same element at every position.
pub proof fn lemma_mul_assoc(
    a: &Matrix,
    b: &Matrix,
    c: &Matrix,
    ab: &Matrix,
    bc: &Matrix,
    abc: &Matrix,
    a_bc: &Matrix,
)
    requires
        a.wf(),
        b.wf(),
        c.wf(),
        a.cols == b.rows,
        b.cols == c.rows,
        ab.model() == mat_product(a.model(), b.model()),
        bc.model() == mat_product(b.model(), c.model()),
        abc.model() == mat_product(ab.model(), c.model()),
        a_bc.model() == mat_product(a.model(), bc.model()),
    ensures
        abc.rows == a_bc.rows,
        abc.cols == a_bc.cols,
        forall|i: int, j: int|
            0 <= i < a.rows && 0 <= j < c.cols ==> #[trigger] abc.entry(i, j) == a_bc.entry(i, j),
{
    lemma_model_wf(a);
    lemma_model_wf(b);
    lemma_model_wf(c);
    lemma_model_wf(abc);
    lemma_model_wf(a_bc);
    crate::grid::lemma_matmul_assoc(a.model(), b.model(), c.model());
    assert(abc.model() == a_bc.model());
    assert forall|i: int, j: int|
        0 <= i < a.rows && 0 <= j < c.cols implies #[trigger] abc.entry(i, j) == a_bc.entry(
        i,
        j,
    ) by {
        assert(abc.model().grid[i][j] == a_bc.model().grid[i][j]);
    }
}

/// The model of a matrix is a well-formed grid with the same dimensions,
/// whose entries are the matrix's entries.
pub proof fn lemma_model_wf(m: &Matrix)
    ensures
        crate::grid::grid_wf(m.model()),
        m.model().rows == m.rows,
        m.model().cols == m.cols,
        forall|i: int, j: int|
            0 <= i < m.rows && 0 <= j < m.cols ==> #[trigger] m.model().grid[i][j] == m.entry(
                i,
                j,
            ) as int,
{
}

/// A matrix that swaps the dimensions and the entries of another models the
/// transpose of that other's model.
proof fn lemma_models_transposed(m: &Matrix, t: &Matrix)
    requires
        m.wf(),
        t.wf(),
        t.rows == m.cols,
        t.cols == m.rows,
        forall|i: int, j: int|
            0 <= i < m.rows && 0 <= j < m.cols ==> #[trigger] t.entry(j, i) == m.entry(i, j),
    ensures
        t.model() == transpose_grid(m.model()),
{
    let tm = transpose_grid(m.model());
    assert forall|a: int| 0 <= a < t.rows implies #[trigger] t.model().grid[a] =~= tm.grid[a] by {
        assert forall|b: int| 0 <= b < t.cols implies #[trigger] t.model().grid[a][b]
            == tm.grid[a][b] by {
            assert(t.entry(a, b) == m.entry(b, a));
        }
    }
    assert(t.model().grid =~~= tm.grid);
    assert(t.model() =~~= tm);
}

/// A matrix whose entries are the inner products of two others' rows and
/// columns models the product of their models.
proof fn lemma_models_product(a: &Matrix, b: &Matrix, m: &Matrix)
    requires
        a.wf(),
        b.wf(),
        m.wf(),
        a.cols == b.rows,
        m.rows == a.rows,
        m.cols == b.cols,
        forall|i: int, j: int|
            0 <= i < a.rows && 0 <= j < b.cols ==> #[trigger] m.entry(i, j) as int == mm_entry(
                a.model(),
                b.model(),
                i,
                j,
            ),
    ensures
        m.model() == mat_product(a.model(), b.model()),
{
    let p = mat_product(a.model(), b.model());
    assert forall|x: int| 0 <= x < m.rows implies #[trigger] m.model().grid[x] =~= p.grid[x] by {
        assert forall|y: int| 0 <= y < m.cols implies #[trigger] m.model().grid[x][y]
            == p.grid[x][y] by {
            assert(m.entry(x, y) as int == mm_entry(a.model(), b.model(), x, y));
        }
    }
    assert(m.model().grid =~~= p.grid);
    assert(m.model() =~~= p);
}

/// A vector of `n` copies of `v`.
fn filled(n: usize, v: i64) -> (r: Vec<i64>)
    ensures
        r@.len() == n,
        forall|k: int| 0 <= k < n ==> r@[k] == v,
{
    let mut buf: Vec<i64> = Vec::new();
    let mut i: usize = 0;
    while i < n
        invariant
            i <= n,
            buf@.len() == i,
            forall|k: int| 0 <= k < i ==> buf@[k] == v,
        decreases n - i,
    {
        buf.push(v);
        i = i + 1;
    }
    buf
}

/// A row-major offset of in-bounds indices lies inside the buffer.
proof fn lemma_offset_in_bounds(rows: int, cols: int, i: int, j: int)
    requires
        0 <= i < rows,
        0 <= j < cols,
    ensures
        0 <= i * cols + j < rows * cols,
{
    assert(i * cols + j < rows * cols) by (nonlinear_arith)
        requires
            0 <= i < rows,
            0 <= j < cols,
    ;
    assert(0 <= i * cols) by (nonlinear_arith)
        requires
            0 <= i,
            0 <= cols,
    ;
}

/// Distinct in-bounds index pairs map to distinct row-major offsets.
proof fn lemma_offsets_distinct(cols: int, i: int, j: int, i2: int, j2: int)
    requires
        0 <= j < cols,
        0 <= j2 < cols,
        !(i == i2 && j == j2),
    ensures
        i * cols + j != i2 * cols + j2,
{
    assert(i * cols + j != i2 * cols + j2) by (nonlinear_arith)
        requires
            0 <= j < cols,
            0 <= j2 < cols,
            !(i == i2 && j == j2),
    ;
}

/// In a matrix whose buffer is constant, every entry is that constant.
proof fn lemma_entry_of_flat(m: &Matrix)
    requires
        m.wf(),
        forall|k: int| 0 <= k < m.flat().len() ==> m.flat()[k] == 0,
    ensures
        forall|i: int, j: int|
            0 <= i < m.rows && 0 <= j < m.cols ==> #[trigger] m.entry(i, j) == 0,
{
    assert forall|i: int, j: int|
        0 <= i < m.rows && 0 <= j < m.cols implies #[trigger] m.entry(i, j) == 0 by {
        lemma_offset_in_bounds(m.rows as int, m.cols as int, i, j);
    }
}

} // verus!
