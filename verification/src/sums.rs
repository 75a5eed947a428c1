//! Sums over matrices of scalars that compute exactly.

use crate::exact::{
    count_is_exact, is_exact, lemma_order, lemma_plus, lemma_plus_crosswise, lemma_plus_positive,
    lemma_times, lemma_times_zero,
};
use crate::float_trait::Bm3dFloat;
use crate::grid::{partial_sum, total, Matrix};
use crate::psf::sum_of_first;
use vstd::prelude::*;

verus! {

/// Sums over matrices that agree are the same.
pub proof fn lemma_sum_of_same<F: Bm3dFloat>(m: Matrix<F>, n: Matrix<F>, a: nat, b: nat)
    requires
        m.rows == n.rows,
        m.cols == n.cols,
        a < m.rows && b <= m.cols || a == m.rows && b == 0,
        forall|r: int, c: int| m.has(r, c) ==> #[trigger] m.at(r, c) == n.at(r, c),
    ensures
        partial_sum(m, a, b) == partial_sum(n, a, b),
    decreases a, b,
{
    if b > 0 {
        lemma_sum_of_same(m, n, a, (b - 1) as nat);
        assert(m.has(a as int, b - 1));
        assert(m.at(a as int, b - 1) == n.at(a as int, b - 1));
    } else if a > 0 {
        lemma_sum_of_same(m, n, (a - 1) as nat, m.cols);
    }
}

/// A common factor may be taken out of a sum.
pub proof fn lemma_sum_scales<F: Bm3dFloat>(m: Matrix<F>, n: Matrix<F>, k: F, a: nat, b: nat)
    requires
        is_exact::<F>(),
        m.rows == n.rows,
        m.cols == n.cols,
        a < m.rows && b <= m.cols || a == m.rows && b == 0,
        forall|r: int, c: int| m.has(r, c) ==> #[trigger] n.at(r, c) == m.at(r, c).times_spec(k),
    ensures
        partial_sum(n, a, b) == partial_sum(m, a, b).times_spec(k),
    decreases a, b,
{
    if b > 0 {
        let d = (b - 1) as nat;
        lemma_sum_scales(m, n, k, a, d);
        assert(m.has(a as int, b - 1));
        assert(n.at(a as int, b - 1) == m.at(a as int, b - 1).times_spec(k));
        lemma_times(partial_sum(m, a, d), m.at(a as int, b - 1), k);
    } else if a > 0 {
        lemma_sum_scales(m, n, k, (a - 1) as nat, m.cols);
    } else {
        lemma_times_zero(k);
    }
}

/// The sum of sums is the sum of the summands.
pub proof fn lemma_sum_splits<F: Bm3dFloat>(
    m: Matrix<F>,
    n: Matrix<F>,
    s: Matrix<F>,
    a: nat,
    b: nat,
)
    requires
        is_exact::<F>(),
        m.rows == n.rows == s.rows,
        m.cols == n.cols == s.cols,
        a < m.rows && b <= m.cols || a == m.rows && b == 0,
        forall|r: int, c: int|
            m.has(r, c) ==> #[trigger] s.at(r, c) == m.at(r, c).plus_spec(n.at(r, c)),
    ensures
        partial_sum(s, a, b) == partial_sum(m, a, b).plus_spec(partial_sum(n, a, b)),
    decreases a, b,
{
    if b > 0 {
        let d = (b - 1) as nat;
        lemma_sum_splits(m, n, s, a, d);
        assert(m.has(a as int, b - 1));
        assert(s.at(a as int, b - 1) == m.at(a as int, b - 1).plus_spec(n.at(a as int, b - 1)));
        lemma_plus_crosswise(
            partial_sum(m, a, d),
            partial_sum(n, a, d),
            m.at(a as int, b - 1),
            n.at(a as int, b - 1),
        );
    } else if a > 0 {
        lemma_sum_splits(m, n, s, (a - 1) as nat, m.cols);
    } else {
        lemma_plus(F::zero_spec(), F::zero_spec(), F::zero_spec());
    }
}

/// The sum of one value in every cell is the value times the number of cells.
pub proof fn lemma_sum_of_constant<F: Bm3dFloat>(m: Matrix<F>, v: F, a: nat, b: nat)
    requires
        is_exact::<F>(),
        a < m.rows && b <= m.cols || a == m.rows && b == 0,
        m.rows * m.cols <= usize::MAX,
        forall|r: int, c: int| m.has(r, c) ==> #[trigger] m.at(r, c) == v,
    ensures
        0 <= a * m.cols + b <= m.rows * m.cols,
        partial_sum(m, a, b) == F::usize_as_spec((a * m.cols + b) as usize).times_spec(v),
    decreases a, b,
{
    assert(0 <= a * m.cols && a * m.cols + b <= m.rows * m.cols) by (nonlinear_arith)
        requires
            a < m.rows && b <= m.cols || a == m.rows && b == 0,
    ;
    if b > 0 {
        let d = (b - 1) as nat;
        let n = (a * m.cols + b) as usize;
        lemma_sum_of_constant(m, v, a, d);
        assert(m.has(a as int, b - 1));
        assert(m.at(a as int, b - 1) == v);
        assert(count_is_exact::<F>(n));
        lemma_times(F::usize_as_spec((n - 1) as usize), F::one_spec(), v);
        lemma_times(v, v, v);
    } else if a > 0 {
        lemma_sum_of_constant(m, v, (a - 1) as nat, m.cols);
        assert((a - 1) * m.cols + m.cols == a * m.cols) by (nonlinear_arith);
    } else {
        assert(a * m.cols == 0) by (nonlinear_arith)
            requires
                a == 0,
        ;
        lemma_times_zero(v);
    }
}

/// The sum of zeros is zero.
pub proof fn lemma_sum_of_zeros<F: Bm3dFloat>(m: Matrix<F>, a: nat, b: nat)
    requires
        is_exact::<F>(),
        a < m.rows && b <= m.cols || a == m.rows && b == 0,
        forall|r: int, c: int| m.has(r, c) ==> #[trigger] m.at(r, c) == F::zero_spec(),
    ensures
        partial_sum(m, a, b) == F::zero_spec(),
    decreases a, b,
{
    if b > 0 {
        lemma_sum_of_zeros(m, a, (b - 1) as nat);
        assert(m.has(a as int, b - 1));
        assert(m.at(a as int, b - 1) == F::zero_spec());
        lemma_plus(F::zero_spec(), F::zero_spec(), F::zero_spec());
    } else if a > 0 {
        lemma_sum_of_zeros(m, (a - 1) as nat, m.cols);
    }
}

/// If a matrix differs from another one only in cell `(p, q)`, by `d`, then its sum differs
/// by `d` once that cell has been passed.
pub proof fn lemma_sum_of_changed<F: Bm3dFloat>(
    m: Matrix<F>,
    n: Matrix<F>,
    p: int,
    q: int,
    d: F,
    a: nat,
    b: nat,
)
    requires
        is_exact::<F>(),
        m.rows == n.rows,
        m.cols == n.cols,
        m.has(p, q),
        a < m.rows && b <= m.cols || a == m.rows && b == 0,
        n.at(p, q) == m.at(p, q).plus_spec(d),
        forall|r: int, c: int|
            m.has(r, c) && !(r == p && c == q) ==> #[trigger] n.at(r, c) == m.at(r, c),
    ensures
        partial_sum(n, a, b) == if p < a || p == a && q < b {
            partial_sum(m, a, b).plus_spec(d)
        } else {
            partial_sum(m, a, b)
        },
    decreases a, b,
{
    if b > 0 {
        let e = (b - 1) as nat;
        let x = m.at(a as int, b - 1);
        let before = partial_sum(m, a, e);
        lemma_sum_of_changed(m, n, p, q, d, a, e);
        assert(m.has(a as int, b - 1));
        if p == a && q == b - 1 {
            lemma_plus(before, x, d);
        } else {
            assert(n.at(a as int, b - 1) == x);
            lemma_plus(before, d, x);
            lemma_plus(d, x, x);
            lemma_plus(before, x, d);
        }
    } else if a > 0 {
        lemma_sum_of_changed(m, n, p, q, d, (a - 1) as nat, m.cols);
    }
}

/// The sum of all products of a value of `x` and a value of `y` is the product of the sums.
pub proof fn lemma_sum_of_products<F: Bm3dFloat>(
    m: Matrix<F>,
    x: Seq<F>,
    y: Seq<F>,
    a: nat,
    b: nat,
)
    requires
        is_exact::<F>(),
        m.rows == x.len(),
        m.cols == y.len(),
        a < m.rows && b <= m.cols || a == m.rows && b == 0,
        forall|r: int, c: int| m.has(r, c) ==> #[trigger] m.at(r, c) == x[r].times_spec(y[c]),
    ensures
        partial_sum(m, a, b) == if b > 0 {
            sum_of_first(x, a).times_spec(sum_of_first(y, y.len())).plus_spec(
                x[a as int].times_spec(sum_of_first(y, b)),
            )
        } else {
            sum_of_first(x, a).times_spec(sum_of_first(y, y.len()))
        },
    decreases a, b,
{
    let all = sum_of_first(y, y.len());
    if b > 0 {
        let e = (b - 1) as nat;
        let row = x[a as int];
        let done = sum_of_first(x, a).times_spec(all);
        let part = sum_of_first(y, e);
        let next = y[b - 1];
        lemma_sum_of_products(m, x, y, a, e);
        assert(m.has(a as int, b - 1));
        assert(m.at(a as int, b - 1) == row.times_spec(next));
        lemma_times(part, next, row);
        lemma_times(row, part.plus_spec(next), row);
        lemma_times(row, part, row);
        lemma_times(row, next, row);
        lemma_plus(done, row.times_spec(part), row.times_spec(next));
        if e == 0 {
            lemma_times_zero(row);
            lemma_plus(row.times_spec(next), row, row);
            lemma_plus(next, next, next);
        }
    } else if a > 0 {
        let before = (a - 1) as nat;
        lemma_sum_of_products(m, x, y, before, m.cols);
        lemma_times(sum_of_first(x, before), x[a - 1], all);
        if m.cols == 0 {
            lemma_times_zero(sum_of_first(x, before));
            lemma_times_zero(sum_of_first(x, a));
        }
    } else {
        lemma_times_zero(all);
    }
}

/// The sum of a matrix of one row is the sum of that row.
pub proof fn lemma_sum_of_row<F: Bm3dFloat>(m: Matrix<F>, x: Seq<F>, b: nat)
    requires
        m.rows == 1,
        m.cols == x.len(),
        b <= m.cols,
        forall|r: int, c: int| m.has(r, c) ==> #[trigger] m.at(r, c) == x[c],
    ensures
        partial_sum(m, 0, b) == sum_of_first(x, b),
        total(m) == partial_sum(m, 0, m.cols),
    decreases b,
{
    if b > 0 {
        lemma_sum_of_row(m, x, (b - 1) as nat);
        assert(m.has(0, b - 1));
        assert(m.at(0, b - 1) == x[b - 1]);
    }
}

/// A common factor may be taken out of the sum of a sequence.
pub proof fn lemma_sequence_scales<F: Bm3dFloat>(x: Seq<F>, y: Seq<F>, k: F, n: nat)
    requires
        is_exact::<F>(),
        n <= x.len() == y.len(),
        forall|i: int| 0 <= i < x.len() ==> #[trigger] y[i] == x[i].times_spec(k),
    ensures
        sum_of_first(y, n) == sum_of_first(x, n).times_spec(k),
    decreases n,
{
    if n > 0 {
        lemma_sequence_scales(x, y, k, (n - 1) as nat);
        lemma_times(sum_of_first(x, (n - 1) as nat), x[n - 1], k);
    } else {
        lemma_times_zero(k);
    }
}

/// The sum of positive values is positive.
pub proof fn lemma_sequence_positive<F: Bm3dFloat>(x: Seq<F>, n: nat)
    requires
        is_exact::<F>(),
        n <= x.len(),
        forall|i: int| 0 <= i < x.len() ==> F::zero_spec().lt_spec(#[trigger] x[i]),
    ensures
        F::zero_spec().le_spec(sum_of_first(x, n)),
        n > 0 ==> F::zero_spec().lt_spec(sum_of_first(x, n)),
    decreases n,
{
    lemma_order(F::zero_spec(), sum_of_first(x, n));
    if n > 0 {
        lemma_sequence_positive(x, (n - 1) as nat);
        lemma_plus_positive(sum_of_first(x, (n - 1) as nat), x[n - 1]);
    }
}

} // verus!
