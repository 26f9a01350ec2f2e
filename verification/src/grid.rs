//! The mathematical model of a matrix: a grid of unbounded integers with its
//! dimensions, together with transposition and multiplication on that model
//! and the laws they obey.

use vstd::prelude::*;

use crate::sums::lemma_sum_pointwise;
use crate::sums::lemma_sum_scale;
use crate::sums::lemma_sum_snoc;
use crate::sums::lemma_sum_swap;
use crate::sums::sum_seq;

verus! {

/// A matrix over unbounded integers: `grid` holds `rows` rows of `cols`
/// entries each (see [`grid_wf`]).
#[verifier::ext_equal]
pub struct GridMat {
    pub rows: nat,
    pub cols: nat,
    pub grid: Seq<Seq<int>>,
}

/// The grid really has the declared shape.
pub open spec fn grid_wf(m: GridMat) -> bool {
    &&& m.grid.len() == m.rows
    &&& forall|i: int| 0 <= i < m.rows ==> (#[trigger] m.grid[i]).len() == m.cols
}

/// The transpose: entry `(j, i)` of the result is entry `(i, j)` of `m`.
pub open spec fn transpose_grid(m: GridMat) -> GridMat {
    GridMat {
        rows: m.cols,
        cols: m.rows,
        grid: Seq::new(m.cols, (|j: int| Seq::new(m.rows, (|i: int| m.grid[i][j])))),
    }
}

/// The product of entry `(i, k)` of `a` with entry `(k, j)` of `b`.
pub open spec fn prod_at(a: GridMat, b: GridMat, i: int, j: int, k: int) -> int {
    a.grid[i][k] * b.grid[k][j]
}

/// The sum of the first `k` products that make up entry `(i, j)` of `a * b`.
pub open spec fn mm_prefix(a: GridMat, b: GridMat, i: int, j: int, k: nat) -> int
    decreases k,
{
    if k == 0 {
        0
    } else {
        mm_prefix(a, b, i, j, (k - 1) as nat) + prod_at(a, b, i, j, k - 1)
    }
}

/// Entry `(i, j)` of the product `a * b`: the inner product of row `i` of `a`
/// with column `j` of `b`.
pub open spec fn mm_entry(a: GridMat, b: GridMat, i: int, j: int) -> int {
    mm_prefix(a, b, i, j, a.cols)
}

/// The matrix product `a * b`, defined for `a.cols == b.rows`.
pub open spec fn mat_product(a: GridMat, b: GridMat) -> GridMat {
    GridMat {
        rows: a.rows,
        cols: b.cols,
        grid: Seq::new(a.rows, (|i: int| Seq::new(b.cols, (|j: int| mm_entry(a, b, i, j))))),
    }
}

/// Every product and every running sum that the multiplication of `a` by `b`
/// computes fits in `i64` — the machine-limit precondition of the executable
/// multiplication.
pub open spec fn mul_fits(a: GridMat, b: GridMat) -> bool {
    &&& forall|i: int, j: int, k: int|
        0 <= i < a.rows && 0 <= j < b.cols && 0 <= k < a.cols ==> i64::MIN <= #[trigger] prod_at(
            a,
            b,
            i,
            j,
            k,
        ) <= i64::MAX
    &&& forall|i: int, j: int, k: nat|
        0 <= i < a.rows && 0 <= j < b.cols && k <= a.cols ==> i64::MIN <= #[trigger] mm_prefix(
            a,
            b,
            i,
            j,
            k,
        ) <= i64::MAX
}

/// Extending a product prefix by one more term adds that term.
pub proof fn lemma_mm_prefix_snoc(a: GridMat, b: GridMat, i: int, j: int, k: nat)
    ensures
        mm_prefix(a, b, i, j, k + 1) == mm_prefix(a, b, i, j, k) + prod_at(a, b, i, j, k as int),
{
}

/// A product prefix is the sum of the sequence of its products: `f` may be
/// any pointwise presentation of those products.
pub proof fn lemma_mm_prefix_is_sum(
    a: GridMat,
    b: GridMat,
    i: int,
    j: int,
    k: nat,
    f: spec_fn(int) -> int,
)
    requires
        forall|kk: int| 0 <= kk < k ==> #[trigger] f(kk) == prod_at(a, b, i, j, kk),
    ensures
        mm_prefix(a, b, i, j, k) == sum_seq(Seq::new(k, f)),
    decreases k,
{
    if k > 0 {
        lemma_mm_prefix_is_sum(a, b, i, j, (k - 1) as nat, f);
        lemma_sum_snoc((k - 1) as nat, f);
    }
}

/// One entry of `(a * b) * c` equals the same entry of `a * (b * c)`.
proof fn lemma_assoc_entry(a: GridMat, b: GridMat, c: GridMat, i: int, j: int)
    requires
        grid_wf(a),
        grid_wf(b),
        grid_wf(c),
        a.cols == b.rows,
        b.cols == c.rows,
        0 <= i < a.rows,
        0 <= j < c.cols,
    ensures
        mm_entry(mat_product(a, b), c, i, j) == mm_entry(a, mat_product(b, c), i, j),
{
    let m = a.cols;
    let n = b.cols;
    let ab = mat_product(a, b);
    let bc = mat_product(b, c);
    let hh = |l: int, k: int| (a.grid[i][k] * b.grid[k][l]) * c.grid[l][j];
    let row_of = |l: int| sum_seq(Seq::new(m, (|k: int| hh(l, k))));
    let col_of = |k: int| sum_seq(Seq::new(n, (|l: int| hh(l, k))));

    // The left side is the sum over l of ab[i][l] * c[l][j]; each such term
    // is itself a sum over k once the common factor c[l][j] is pushed in.
    let f_lhs = |l: int| prod_at(ab, c, i, j, l);
    lemma_mm_prefix_is_sum(ab, c, i, j, n, f_lhs);
    assert forall|l: int| 0 <= l < n implies #[trigger] f_lhs(l) == row_of(l) by {
        assert(ab.grid[i][l] == mm_entry(a, b, i, l));
        let g = |k: int| prod_at(a, b, i, l, k);
        lemma_mm_prefix_is_sum(a, b, i, l, m, g);
        lemma_sum_scale(m, g, (|k: int| hh(l, k)), c.grid[l][j]);
    }
    lemma_sum_pointwise(n, f_lhs, row_of);

    // The right side is the sum over k of a[i][k] * bc[k][j]; each such term
    // is a sum over l once the common factor a[i][k] is pushed in.
    let f_rhs = |k: int| prod_at(a, bc, i, j, k);
    lemma_mm_prefix_is_sum(a, bc, i, j, m, f_rhs);
    assert forall|k: int| 0 <= k < m implies #[trigger] f_rhs(k) == col_of(k) by {
        assert(bc.grid[k][j] == mm_entry(b, c, k, j));
        let g = |l: int| prod_at(b, c, k, j, l);
        lemma_mm_prefix_is_sum(b, c, k, j, n, g);
        assert forall|l: int| 0 <= l < n implies #[trigger] hh(l, k) == g(l) * a.grid[i][k] by {
            assert((a.grid[i][k] * b.grid[k][l]) * c.grid[l][j] == (b.grid[k][l] * c.grid[l][j])
                * a.grid[i][k]) by (nonlinear_arith);
        }
        lemma_sum_scale(n, g, (|l: int| hh(l, k)), a.grid[i][k]);
        assert(a.grid[i][k] * mm_entry(b, c, k, j) == mm_entry(b, c, k, j) * a.grid[i][k]) by (nonlinear_arith);
    }
    lemma_sum_pointwise(m, f_rhs, col_of);

    // Exchanging the order of the double sum ties the two sides together.
    lemma_sum_swap(n, m, hh);
}

/// Matrix multiplication is associative: for conformant `a`, `b` and `c`,
/// the products `(a * b) * c` and `a * (b * c)` are the same grid.
pub proof fn lemma_matmul_assoc(a: GridMat, b: GridMat, c: GridMat)
    requires
        grid_wf(a),
        grid_wf(b),
        grid_wf(c),
        a.cols == b.rows,
        b.cols == c.rows,
    ensures
        mat_product(mat_product(a, b), c) == mat_product(a, mat_product(b, c)),
{
    let lhs = mat_product(mat_product(a, b), c);
    let rhs = mat_product(a, mat_product(b, c));
    assert forall|i: int| 0 <= i < a.rows implies #[trigger] lhs.grid[i] =~= rhs.grid[i] by {
        assert forall|j: int| 0 <= j < c.cols implies #[trigger] lhs.grid[i][j]
            == rhs.grid[i][j] by {
            lemma_assoc_entry(a, b, c, i, j);
        }
    }
    assert(lhs.grid =~~= rhs.grid);
    assert(lhs =~~= rhs);
}

/// Transposing twice gives back the original grid.
pub proof fn lemma_transpose_involution(m: GridMat)
    requires
        grid_wf(m),
    ensures
        transpose_grid(transpose_grid(m)) == m,
{
    let t = transpose_grid(m);
    assert(grid_wf(t));
    assert forall|i: int| 0 <= i < m.rows implies #[trigger] transpose_grid(t).grid[i]
        =~= m.grid[i] by {
    }
    assert(transpose_grid(t) =~~= m);
}

} // verus!
