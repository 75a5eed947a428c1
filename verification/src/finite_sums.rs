//! Sums of the values of a function, for scalars that compute exactly.

use crate::exact::{
    count_is_exact, is_exact, lemma_minus, lemma_minus_is_unique, lemma_plus,
    lemma_plus_crosswise, lemma_times, lemma_times_zero,
};
use crate::float_trait::Bm3dFloat;
use crate::grid::{partial_sum, total, Matrix};
use vstd::prelude::*;

verus! {

/// The sum of `f(0)` up to `f(n - 1)`.
pub open spec fn sum_to<F: Bm3dFloat>(f: spec_fn(int) -> F, n: nat) -> F
    decreases n,
{
    if n == 0 {
        F::zero_spec()
    } else {
        sum_to(f, (n - 1) as nat).plus_spec(f(n - 1))
    }
}

/// The sum of `f(i, j)` over all `i` and `j` below `n`.
pub open spec fn sum_over_pairs<F: Bm3dFloat>(f: spec_fn(int, int) -> F, n: nat) -> F {
    sum_to(|i: int| sum_to(|j: int| f(i, j), n), n)
}

/// Functions that agree below `n` have the same sum.
pub proof fn lemma_same_sum<F: Bm3dFloat>(f: spec_fn(int) -> F, g: spec_fn(int) -> F, n: nat)
    requires
        forall|i: int| 0 <= i < n ==> #[trigger] f(i) == g(i),
    ensures
        sum_to(f, n) == sum_to(g, n),
    decreases n,
{
    if n > 0 {
        lemma_same_sum(f, g, (n - 1) as nat);
        assert(f(n - 1) == g(n - 1));
    }
}

/// The sum of sums is the sum of the summands.
pub proof fn lemma_sum_of_sums<F: Bm3dFloat>(
    f: spec_fn(int) -> F,
    g: spec_fn(int) -> F,
    s: spec_fn(int) -> F,
    n: nat,
)
    requires
        is_exact::<F>(),
        forall|i: int| 0 <= i < n ==> #[trigger] s(i) == f(i).plus_spec(g(i)),
    ensures
        sum_to(s, n) == sum_to(f, n).plus_spec(sum_to(g, n)),
    decreases n,
{
    if n == 0 {
        lemma_plus(F::zero_spec(), F::zero_spec(), F::zero_spec());
    } else {
        let m = (n - 1) as nat;
        lemma_sum_of_sums(f, g, s, m);
        assert(s(n - 1) == f(n - 1).plus_spec(g(n - 1)));
        lemma_plus_crosswise(sum_to(f, m), sum_to(g, m), f(n - 1), g(n - 1));
    }
}

/// The sum over pairs of sums is the sum of the sums over pairs.
pub proof fn lemma_pairs_of_sums<F: Bm3dFloat>(
    f: spec_fn(int, int) -> F,
    g: spec_fn(int, int) -> F,
    s: spec_fn(int, int) -> F,
    n: nat,
)
    requires
        is_exact::<F>(),
        forall|i: int, j: int|
            0 <= i < n && 0 <= j < n ==> #[trigger] s(i, j) == f(i, j).plus_spec(g(i, j)),
    ensures
        sum_over_pairs(s, n) == sum_over_pairs(f, n).plus_spec(sum_over_pairs(g, n)),
{
    let outer_f = |i: int| sum_to(|j: int| f(i, j), n);
    let outer_g = |i: int| sum_to(|j: int| g(i, j), n);
    let outer_s = |i: int| sum_to(|j: int| s(i, j), n);
    assert forall|i: int| 0 <= i < n implies #[trigger] outer_s(i) == outer_f(i).plus_spec(
        outer_g(i),
    ) by {
        lemma_sum_of_sums(|j: int| f(i, j), |j: int| g(i, j), |j: int| s(i, j), n);
    }
    lemma_sum_of_sums(outer_f, outer_g, outer_s, n);
}

/// A common factor may be taken out of a sum.
pub proof fn lemma_sum_of_multiples<F: Bm3dFloat>(
    f: spec_fn(int) -> F,
    g: spec_fn(int) -> F,
    k: F,
    n: nat,
)
    requires
        is_exact::<F>(),
        forall|i: int| 0 <= i < n ==> #[trigger] g(i) == f(i).times_spec(k),
    ensures
        sum_to(g, n) == sum_to(f, n).times_spec(k),
    decreases n,
{
    if n == 0 {
        lemma_times_zero(k);
    } else {
        let m = (n - 1) as nat;
        lemma_sum_of_multiples(f, g, k, m);
        assert(g(n - 1) == f(n - 1).times_spec(k));
        lemma_times(sum_to(f, m), f(n - 1), k);
    }
}

/// A sum may be taken in two parts.
pub proof fn lemma_sum_in_parts<F: Bm3dFloat>(
    f: spec_fn(int) -> F,
    rest: spec_fn(int) -> F,
    n: nat,
    m: nat,
)
    requires
        is_exact::<F>(),
        forall|i: int| 0 <= i < m ==> #[trigger] rest(i) == f(n + i),
    ensures
        sum_to(f, n + m) == sum_to(f, n).plus_spec(sum_to(rest, m)),
    decreases m,
{
    if m == 0 {
        lemma_plus(sum_to(f, n), sum_to(f, n), sum_to(f, n));
    } else {
        let k = (m - 1) as nat;
        lemma_sum_in_parts(f, rest, n, k);
        assert(rest(m - 1) == f(n + (m - 1)));
        lemma_plus(sum_to(f, n), sum_to(rest, k), rest(m - 1));
    }
}

/// A sum may be taken backwards.
pub proof fn lemma_sum_backwards<F: Bm3dFloat>(
    f: spec_fn(int) -> F,
    g: spec_fn(int) -> F,
    n: nat,
)
    requires
        is_exact::<F>(),
        forall|i: int| 0 <= i < n ==> #[trigger] g(i) == f(n - 1 - i),
    ensures
        sum_to(g, n) == sum_to(f, n),
    decreases n,
{
    if n > 0 {
        let m = (n - 1) as nat;
        // The first value of g is the last one of f.
        let rest = |i: int| g(i + 1);
        lemma_sum_in_parts(g, rest, 1, m);
        reveal_with_fuel(sum_to, 2);
        assert(g(0) == f(n - 1));
        assert forall|i: int| 0 <= i < m implies #[trigger] rest(i) == f(m - 1 - i) by {
            assert(g(i + 1) == f(n - 1 - (i + 1)));
        }
        lemma_sum_backwards(f, rest, m);
        lemma_plus(g(0), g(0), g(0));
        lemma_plus(sum_to(f, m), f(n - 1), f(n - 1));
    }
}

/// The sum over the cells of a matrix before `(a, b)` is a sum of sums of its rows.
pub proof fn lemma_matrix_sum_is_nested<F: Bm3dFloat>(m: Matrix<F>, a: nat, b: nat)
    requires
        is_exact::<F>(),
        a < m.rows && b <= m.cols || a == m.rows && b == 0,
    ensures
        partial_sum(m, a, b) == sum_to(
            |r: int| sum_to(|c: int| m.at(r, c), m.cols),
            a,
        ).plus_spec(sum_to(|c: int| m.at(a as int, c), b)),
    decreases a, b,
{
    let rows = |r: int| sum_to(|c: int| m.at(r, c), m.cols);
    let row = |c: int| m.at(a as int, c);
    let zero = F::zero_spec();
    if b > 0 {
        let e = (b - 1) as nat;
        lemma_matrix_sum_is_nested(m, a, e);
        lemma_plus(sum_to(rows, a), sum_to(row, e), row(b - 1));
    } else if a > 0 {
        let d = (a - 1) as nat;
        lemma_matrix_sum_is_nested(m, d, m.cols);
        assert(rows(d as int) == sum_to(|c: int| m.at(d as int, c), m.cols));
        lemma_plus(sum_to(rows, a), sum_to(rows, a), sum_to(rows, a));
    } else {
        lemma_plus(zero, zero, zero);
    }
}

/// The sum of all cells of a square matrix is a sum over pairs.
pub proof fn lemma_total_is_sum_over_pairs<F: Bm3dFloat>(m: Matrix<F>, f: spec_fn(int, int) -> F)
    requires
        is_exact::<F>(),
        m.rows == m.cols,
        forall|r: int, c: int| m.has(r, c) ==> #[trigger] m.at(r, c) == f(r, c),
    ensures
        total(m) == sum_over_pairs(f, m.rows),
{
    let n = m.rows;
    let outer = |r: int| sum_to(|c: int| m.at(r, c), m.cols);
    let wanted = |r: int| sum_to(|c: int| f(r, c), n);
    lemma_matrix_sum_is_nested(m, n, 0);
    lemma_plus(sum_to(outer, n), sum_to(outer, n), sum_to(outer, n));
    assert forall|r: int| 0 <= r < n implies #[trigger] outer(r) == wanted(r) by {
        let row = |c: int| m.at(r, c);
        let given = |c: int| f(r, c);
        assert forall|c: int| 0 <= c < n implies #[trigger] row(c) == given(c) by {
            assert(m.has(r, c));
            assert(m.at(r, c) == f(r, c));
        }
        lemma_same_sum(row, given, n);
    }
    lemma_same_sum(outer, wanted, n);
}

/// A common factor may be taken out of a sum over pairs.
pub proof fn lemma_pairs_of_multiples<F: Bm3dFloat>(
    f: spec_fn(int, int) -> F,
    g: spec_fn(int, int) -> F,
    k: F,
    n: nat,
)
    requires
        is_exact::<F>(),
        forall|i: int, j: int|
            0 <= i < n && 0 <= j < n ==> #[trigger] g(i, j) == f(i, j).times_spec(k),
    ensures
        sum_over_pairs(g, n) == sum_over_pairs(f, n).times_spec(k),
{
    let outer_f = |i: int| sum_to(|j: int| f(i, j), n);
    let outer_g = |i: int| sum_to(|j: int| g(i, j), n);
    assert forall|i: int| 0 <= i < n implies #[trigger] outer_g(i) == outer_f(i).times_spec(k) by {
        lemma_sum_of_multiples(|j: int| f(i, j), |j: int| g(i, j), k, n);
    }
    lemma_sum_of_multiples(outer_f, outer_g, k, n);
}

/// The sum of one value is the value times the number of summands.
pub proof fn lemma_sum_of_one_value<F: Bm3dFloat>(f: spec_fn(int) -> F, v: F, n: nat)
    requires
        is_exact::<F>(),
        n <= usize::MAX,
        forall|i: int| 0 <= i < n ==> #[trigger] f(i) == v,
    ensures
        sum_to(f, n) == F::usize_as_spec(n as usize).times_spec(v),
    decreases n,
{
    if n == 0 {
        lemma_times_zero(v);
    } else {
        let m = (n - 1) as nat;
        lemma_sum_of_one_value(f, v, m);
        assert(f(n - 1) == v);
        assert(count_is_exact::<F>(n as usize));
        lemma_times(F::usize_as_spec(m as usize), F::one_spec(), v);
        lemma_times(v, v, v);
    }
}

/// How many pairs of numbers below `n` differ by `lag`, as a scalar.
pub open spec fn pair_count<F: Bm3dFloat>(n: int, lag: int) -> F {
    let distance = if lag < 0 {
        -lag
    } else {
        lag
    };
    F::usize_as_spec(n as usize).minus_spec(F::usize_as_spec(distance as usize))
}

/// One more number below `n` gives one more pair for every lag.
proof fn lemma_pair_count_grows<F: Bm3dFloat>(n: int, lag: int)
    requires
        is_exact::<F>(),
        0 <= n < usize::MAX,
        -n - 1 <= lag <= n + 1,
    ensures
        pair_count::<F>(n + 1, lag) == pair_count::<F>(n, lag).plus_spec(F::one_spec()),
        lag == n + 1 || lag == -n - 1 ==> pair_count::<F>(n + 1, lag) == F::zero_spec(),
{
    let distance = if lag < 0 {
        -lag
    } else {
        lag
    };
    let x = F::usize_as_spec(n as usize);
    let d = F::usize_as_spec(distance as usize);
    let one = F::one_spec();
    assert(count_is_exact::<F>((n + 1) as usize));
    // (x + 1) - d is (x - d) + 1.
    lemma_minus(x, d);
    lemma_plus(x.minus_spec(d), one, d);
    lemma_plus(one, d, d);
    lemma_plus(x.minus_spec(d), d, one);
    lemma_minus_is_unique(x.plus_spec(one), d, x.minus_spec(d).plus_spec(one));
    lemma_minus(d, d);
}

/// The sum over all pairs of a function of their difference, by lags from `-n` to `n`.
proof fn lemma_pairs_by_wide_lag<F: Bm3dFloat>(
    f: spec_fn(int) -> F,
    pairs: spec_fn(int, int) -> F,
    lags: spec_fn(int) -> F,
    n: nat,
)
    requires
        is_exact::<F>(),
        n <= usize::MAX,
        forall|p: int, q: int| #[trigger] pairs(p, q) == f(p - q),
        forall|a: int| #[trigger]
            lags(a) == pair_count::<F>(n as int, a - n).times_spec(f(a - n)),
    ensures
        sum_over_pairs(pairs, n) == sum_to(lags, (2 * n + 1) as nat),
    decreases n,
{
    let zero = F::zero_spec();
    if n == 0 {
        lemma_minus(F::usize_as_spec(0), F::usize_as_spec(0));
        lemma_times_zero(f(0));
        lemma_plus(zero, zero, zero);
        reveal_with_fuel(sum_to, 2);
        assert(lags(0) == pair_count::<F>(0, 0).times_spec(f(0)));
    } else {
        let m = (n - 1) as nat;
        let fewer = |a: int| pair_count::<F>(m as int, a - m).times_spec(f(a - m));
        lemma_pairs_by_wide_lag(f, pairs, fewer, m);

        // The pairs: one more row and one more column.
        let outer = |p: int| sum_to(|q: int| pairs(p, q), n);
        let outer_before = |p: int| sum_to(|q: int| pairs(p, q), m);
        let below = |p: int| f(p - m);
        let last = |q: int| pairs(m as int, q);
        assert forall|p: int| 0 <= p < m implies #[trigger] outer(p) == outer_before(p).plus_spec(
            below(p),
        ) by {
            assert(pairs(p, m as int) == f(p - m));
        }
        lemma_sum_of_sums(outer_before, below, outer, m);
        assert(outer(m as int) == sum_to(last, n));
        let above = |k: int| f(k);
        assert forall|q: int| 0 <= q < n implies #[trigger] last(q) == above(n - 1 - q) by {
            assert(pairs(m as int, q) == f(m - q));
        }
        lemma_sum_backwards(above, last, n);
        let gained = |a: int| f(a - m);
        lemma_same_sum(below, gained, m);
        assert forall|k: int| 0 <= k < n implies #[trigger] above(k) == gained(m + k) by {}
        lemma_sum_in_parts(gained, above, m, n);
        let s_before = sum_to(outer_before, m);
        lemma_plus(s_before, sum_to(below, m), sum_to(above, n));
        assert(sum_over_pairs(pairs, n) == s_before.plus_spec(sum_to(gained, m + n)));

        // The lags: one more pair for each, and none at the ends.
        let width = (2 * m + 1) as nat;
        let inner = |a: int| lags(a + 1);
        assert forall|a: int| 0 <= a < width implies #[trigger] inner(a) == fewer(a).plus_spec(
            gained(a),
        ) by {
            assert(lags(a + 1) == pair_count::<F>(n as int, a + 1 - n).times_spec(f(a + 1 - n)));
            assert(a + 1 - n == a - m);
            lemma_pair_count_grows::<F>(m as int, a - m);
            lemma_times(pair_count::<F>(m as int, a - m), F::one_spec(), f(a - m));
            lemma_times(f(a - m), f(a - m), f(a - m));
        }
        lemma_sum_of_sums(fewer, gained, inner, width);
        lemma_sum_in_parts(lags, inner, 1, width);
        reveal_with_fuel(sum_to, 2);
        lemma_pair_count_grows::<F>(m as int, -n as int);
        lemma_pair_count_grows::<F>(m as int, n as int);
        lemma_times_zero(f(-n as int));
        lemma_times_zero(f(n as int));
        assert(lags(0) == zero);
        assert(lags(2 * n as int) == zero) by {
            assert(2 * n - n == n);
        }
        lemma_plus(zero, zero, zero);
        lemma_plus(sum_to(inner, width), zero, zero);
        assert(sum_to(lags, (1 + width) as nat) == sum_to(inner, width));
        assert(2 * n + 1 == (1 + width) + 1);
        assert(sum_to(lags, (2 * n + 1) as nat) == sum_to(lags, (1 + width) as nat).plus_spec(
            lags(2 * n as int),
        ));
    }
}

/// The sum over all pairs of a function of their difference is a sum over the lags that are
/// shorter than `n`, each weighted with the number of its pairs.
pub proof fn lemma_pairs_by_lag<F: Bm3dFloat>(
    f: spec_fn(int) -> F,
    pairs: spec_fn(int, int) -> F,
    lags: spec_fn(int) -> F,
    n: nat,
)
    requires
        is_exact::<F>(),
        0 < n <= usize::MAX,
        forall|p: int, q: int| #[trigger] pairs(p, q) == f(p - q),
        forall|a: int| #[trigger]
            lags(a) == pair_count::<F>(n as int, a - (n - 1)).times_spec(f(a - (n - 1))),
    ensures
        sum_over_pairs(pairs, n) == sum_to(lags, (2 * n - 1) as nat),
{
    let zero = F::zero_spec();
    let width = (2 * n - 1) as nat;
    let wide = |a: int| pair_count::<F>(n as int, a - n).times_spec(f(a - n));
    lemma_pairs_by_wide_lag(f, pairs, wide, n);
    assert forall|a: int| 0 <= a < width implies #[trigger] lags(a) == wide(1 + a) by {
        assert(1 + a - n == a - (n - 1));
    }
    lemma_sum_in_parts(wide, lags, 1, width);
    reveal_with_fuel(sum_to, 2);
    lemma_pair_count_grows::<F>(n - 1, -n as int);
    lemma_pair_count_grows::<F>(n - 1, n as int);
    lemma_times_zero(f(-n as int));
    lemma_times_zero(f(n as int));
    assert(wide(0) == zero);
    assert(wide(2 * n as int) == zero) by {
        assert(2 * n - n == n);
    }
    let s = sum_to(lags, width);
    lemma_plus(zero, zero, zero);
    lemma_plus(s, zero, zero);
    assert(sum_to(wide, (1 + width) as nat) == s);
    assert(2 * n + 1 == (1 + width) + 1);
    assert(sum_to(wide, (2 * n + 1) as nat) == sum_to(wide, (1 + width) as nat).plus_spec(
        wide(2 * n as int),
    ));
}

} // verus!
