//! Sums of integer sequences, and the algebraic lemmas about them that the
//! matrix-multiplication contracts and laws rest on.

use vstd::prelude::*;

verus! {

/// The sum of all elements of `s`.
pub open spec fn sum_seq(s: Seq<int>) -> int
    decreases s.len(),
{
    if s.len() == 0 {
        0
    } else {
        sum_seq(s.drop_last()) + s.last()
    }
}

/// Extending a generated sequence by one element adds that element to its sum.
pub proof fn lemma_sum_snoc(n: nat, f: spec_fn(int) -> int)
    ensures
        sum_seq(Seq::new(n + 1, f)) == sum_seq(Seq::new(n, f)) + f(n as int),
{
    assert(Seq::new(n + 1, f).drop_last() =~= Seq::new(n, f));
}

/// Two generated sequences that agree pointwise have the same sum.
pub proof fn lemma_sum_pointwise(n: nat, f: spec_fn(int) -> int, g: spec_fn(int) -> int)
    requires
        forall|k: int| 0 <= k < n ==> #[trigger] f(k) == g(k),
    ensures
        sum_seq(Seq::new(n, f)) == sum_seq(Seq::new(n, g)),
{
    assert(Seq::new(n, f) =~= Seq::new(n, g));
}

/// Sums distribute over pointwise addition.
pub proof fn lemma_sum_add(n: nat, f: spec_fn(int) -> int, g: spec_fn(int) -> int)
    ensures
        sum_seq(Seq::new(n, (|k: int| f(k) + g(k)))) == sum_seq(Seq::new(n, f)) + sum_seq(
            Seq::new(n, g),
        ),
    decreases n,
{
    if n > 0 {
        lemma_sum_add((n - 1) as nat, f, g);
        lemma_sum_snoc((n - 1) as nat, f);
        lemma_sum_snoc((n - 1) as nat, g);
        lemma_sum_snoc((n - 1) as nat, (|k: int| f(k) + g(k)));
    }
}

/// A common factor on the right moves out of a sum: where `g` is pointwise
/// `f` times `c`, the sum of `g` is the sum of `f` times `c`.
pub proof fn lemma_sum_scale(n: nat, f: spec_fn(int) -> int, g: spec_fn(int) -> int, c: int)
    requires
        forall|k: int| 0 <= k < n ==> #[trigger] g(k) == f(k) * c,
    ensures
        sum_seq(Seq::new(n, g)) == sum_seq(Seq::new(n, f)) * c,
    decreases n,
{
    if n == 0 {
        assert(sum_seq(Seq::new(0, f)) * c == 0) by (nonlinear_arith);
    } else {
        lemma_sum_scale((n - 1) as nat, f, g, c);
        lemma_sum_snoc((n - 1) as nat, f);
        lemma_sum_snoc((n - 1) as nat, g);
        assert((sum_seq(Seq::new((n - 1) as nat, f)) + f(n - 1)) * c == sum_seq(
            Seq::new((n - 1) as nat, f),
        ) * c + f(n - 1) * c) by (nonlinear_arith);
    }
}

/// The order of summation of a finite double sum can be exchanged.
pub proof fn lemma_sum_swap(rows: nat, cols: nat, h: spec_fn(int, int) -> int)
    ensures
        sum_seq(Seq::new(rows, (|i: int| sum_seq(Seq::new(cols, (|j: int| h(i, j))))))) == sum_seq(
            Seq::new(cols, (|j: int| sum_seq(Seq::new(rows, (|i: int| h(i, j)))))),
        ),
    decreases rows,
{
    let outer_by_rows = |i: int| sum_seq(Seq::new(cols, (|j: int| h(i, j))));
    let outer_by_cols = |j: int| sum_seq(Seq::new(rows, (|i: int| h(i, j))));
    if rows == 0 {
        assert forall|j: int| 0 <= j < cols implies #[trigger] outer_by_cols(j) == 0 by {
            assert(Seq::new(0, (|i: int| h(i, j))) =~= Seq::<int>::empty());
        }
        lemma_sum_pointwise(cols, outer_by_cols, (|j: int| 0));
        lemma_sum_zero(cols);
    } else {
        let r1 = (rows - 1) as nat;
        let shorter_by_cols = |j: int| sum_seq(Seq::new(r1, (|i: int| h(i, j))));
        let last_row = |j: int| h(r1 as int, j);
        lemma_sum_swap(r1, cols, h);
        lemma_sum_snoc(r1, outer_by_rows);
        assert(forall|j: int| 0 <= j < cols ==> #[trigger] outer_by_cols(j) == shorter_by_cols(j)
            + last_row(j)) by {
            assert forall|j: int| 0 <= j < cols implies #[trigger] outer_by_cols(j)
                == shorter_by_cols(j) + last_row(j) by {
                lemma_sum_snoc(r1, (|i: int| h(i, j)));
            }
        }
        lemma_sum_pointwise(cols, outer_by_cols, (|j: int| shorter_by_cols(j) + last_row(j)));
        lemma_sum_add(cols, shorter_by_cols, last_row);
    }
}

/// A sum of zeros is zero.
pub proof fn lemma_sum_zero(n: nat)
    ensures
        sum_seq(Seq::new(n, (|k: int| 0))) == 0,
    decreases n,
{
    if n > 0 {
        lemma_sum_zero((n - 1) as nat);
        lemma_sum_snoc((n - 1) as nat, (|k: int| 0));
    }
}

} // verus!
