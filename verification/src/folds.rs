//! What is gathered in the cells of a circular grid: the folded autocorrelation and the placed PSF,
//! cell by cell.
//!
//! The laws here are stated for scalars that compute exactly.

use crate::complex::Complex;
use crate::exact::{
    is_exact, lemma_counts_add, lemma_minus, lemma_plus, lemma_times, lemma_times_zero,
};
use crate::float_trait::Bm3dFloat;
use crate::grid::{lemma_same_matrix, partial_sum, total, Grid, Matrix};
use crate::spectral::{
    coefficient_sigmas, complex_of, folded_autocorrelation, gathered_before, is_fft, is_ifft,
    is_patch_noise_sigma, lag_weight, placed_psf, windowed_lags, wrapped_positions,
};
use crate::sums::{
    lemma_sum_of_changed, lemma_sum_of_same, lemma_sum_of_zeros, lemma_sum_scales, lemma_sum_splits,
};
use crate::variance_bounds::lemma_weight_counts_pairs;
use vstd::arithmetic::div_mod::{lemma_fundamental_div_mod_converse, lemma_small_mod};
use vstd::prelude::*;

verus! {

/// The values that are sent to cell `(i, j)`; the others are replaced by zero.
spec fn sent<F: Bm3dFloat>(
    values: Matrix<F>,
    row_to: Seq<int>,
    col_to: Seq<int>,
    i: int,
    j: int,
) -> Matrix<F> {
    Matrix::from_fn(
        values.rows,
        values.cols,
        |r: int, c: int|
            if row_to[r] == i && col_to[c] == j {
                values.at(r, c)
            } else {
                F::zero_spec()
            },
    )
}

/// The value in cell `(p, q)` alone; the others are replaced by zero.
spec fn alone<F: Bm3dFloat>(values: Matrix<F>, p: int, q: int) -> Matrix<F> {
    Matrix::from_fn(
        values.rows,
        values.cols,
        |r: int, c: int|
            if r == p && c == q {
                values.at(r, c)
            } else {
                F::zero_spec()
            },
    )
}

/// The value in cell `(p, q)`, or zero if there is no such cell.
spec fn value_or_zero<F: Bm3dFloat>(values: Matrix<F>, p: int, q: int) -> F {
    if values.has(p, q) {
        values.at(p, q)
    } else {
        F::zero_spec()
    }
}

/// What is gathered in a cell is the sum of what is sent there.
proof fn lemma_gathered_is_sent<F: Bm3dFloat>(
    values: Matrix<F>,
    row_to: Seq<int>,
    col_to: Seq<int>,
    i: int,
    j: int,
    a: nat,
    b: nat,
)
    requires
        is_exact::<F>(),
        a < values.rows && b <= values.cols || a == values.rows && b == 0,
    ensures
        gathered_before(values, row_to, col_to, i, j, a, b) == partial_sum(
            sent(values, row_to, col_to, i, j),
            a,
            b,
        ),
    decreases a, b,
{
    if b > 0 {
        lemma_gathered_is_sent(values, row_to, col_to, i, j, a, (b - 1) as nat);
        let before = gathered_before(values, row_to, col_to, i, j, a, (b - 1) as nat);
        lemma_plus(before, before, before);
    } else if a > 0 {
        lemma_gathered_is_sent(values, row_to, col_to, i, j, (a - 1) as nat, values.cols);
    }
}

/// The sum of a matrix with a single value is that value.
proof fn lemma_sum_of_alone<F: Bm3dFloat>(values: Matrix<F>, p: int, q: int)
    requires
        is_exact::<F>(),
    ensures
        total(alone(values, p, q)) == value_or_zero(values, p, q),
{
    let zero = F::zero_spec();
    let none = Matrix::from_fn(values.rows, values.cols, |r: int, c: int| zero);
    let one = alone(values, p, q);
    lemma_sum_of_zeros(none, values.rows, 0);
    if values.has(p, q) {
        let d = values.at(p, q);
        lemma_plus(d, d, d);
        lemma_sum_of_changed(none, one, p, q, d, values.rows, 0);
    } else {
        lemma_sum_of_same(none, one, values.rows, 0);
    }
}

/// Every entry of a PSF lands, on a circular grid of whatever size, as far behind cell `(0, 0)` as
/// it lies behind the centre `(rows / 2, cols / 2)` of the PSF: if all other entries are zero, that
/// cell holds the entry and all other cells are zero.
pub proof fn law_single_entry_lands_behind_the_first_cell<F: Bm3dFloat>(
    psf: Matrix<F>,
    rows: nat,
    cols: nat,
    p: int,
    q: int,
    i: int,
    j: int,
)
    requires
        is_exact::<F>(),
        psf.has(p, q),
        forall|r: int, c: int|
            psf.has(r, c) && !(r == p && c == q) ==> #[trigger] psf.at(r, c) == F::zero_spec(),
        0 <= i < rows,
        0 <= j < cols,
    ensures
        placed_psf(psf, rows, cols).rows == rows,
        placed_psf(psf, rows, cols).cols == cols,
        placed_psf(psf, rows, cols).at(i, j) == if i == (p - psf.rows as int / 2) % rows as int && j
            == (q - psf.cols as int / 2) % cols as int {
            psf.at(p, q)
        } else {
            F::zero_spec()
        },
{
    let zero = F::zero_spec();
    let row_to = wrapped_positions(psf.rows, psf.rows as int / 2, rows as int);
    let col_to = wrapped_positions(psf.cols, psf.cols as int / 2, cols as int);
    let all = sent(psf, row_to, col_to, i, j);
    let none = Matrix::from_fn(psf.rows, psf.cols, |r: int, c: int| zero);
    lemma_gathered_is_sent(psf, row_to, col_to, i, j, psf.rows, 0);
    lemma_sum_of_zeros(none, psf.rows, 0);
    assert forall|r: int, c: int| none.has(r, c) && !(r == p && c == q) implies #[trigger] all.at(
        r,
        c,
    ) == none.at(r, c) by {
        assert(psf.at(r, c) == zero);
    }
    let d = all.at(p, q);
    lemma_plus(d, d, d);
    lemma_sum_of_changed(none, all, p, q, d, psf.rows, 0);
    lemma_plus(zero, zero, zero);
}

/// Placing a PSF on a grid is linear: what lands in a cell from a weighted sum of two PSFs is the
/// weighted sum of what lands there from each.
pub proof fn law_placing_is_linear<F: Bm3dFloat>(
    a: Matrix<F>,
    b: Matrix<F>,
    both: Matrix<F>,
    x: F,
    y: F,
    rows: nat,
    cols: nat,
    i: int,
    j: int,
)
    requires
        is_exact::<F>(),
        a.rows == b.rows == both.rows,
        a.cols == b.cols == both.cols,
        forall|r: int, c: int|
            a.has(r, c) ==> #[trigger] both.at(r, c) == a.at(r, c).times_spec(x).plus_spec(
                b.at(r, c).times_spec(y),
            ),
        0 <= i < rows,
        0 <= j < cols,
    ensures
        placed_psf(both, rows, cols).at(i, j) == placed_psf(a, rows, cols).at(i, j).times_spec(
            x,
        ).plus_spec(placed_psf(b, rows, cols).at(i, j).times_spec(y)),
{
    let zero = F::zero_spec();
    let row_to = wrapped_positions(a.rows, a.rows as int / 2, rows as int);
    let col_to = wrapped_positions(a.cols, a.cols as int / 2, cols as int);
    let from_a = sent(a, row_to, col_to, i, j);
    let from_b = sent(b, row_to, col_to, i, j);
    let all = sent(both, row_to, col_to, i, j);
    let ax = from_a.map(|v: F| v.times_spec(x));
    let by = from_b.map(|v: F| v.times_spec(y));
    lemma_gathered_is_sent(a, row_to, col_to, i, j, a.rows, 0);
    lemma_gathered_is_sent(b, row_to, col_to, i, j, a.rows, 0);
    lemma_gathered_is_sent(both, row_to, col_to, i, j, a.rows, 0);
    assert forall|r: int, c: int| ax.has(r, c) implies #[trigger] all.at(r, c) == ax.at(
        r,
        c,
    ).plus_spec(by.at(r, c)) by {
        assert(both.at(r, c) == a.at(r, c).times_spec(x).plus_spec(b.at(r, c).times_spec(y)));
        lemma_times_zero(x);
        lemma_times_zero(y);
        lemma_plus(zero, zero, zero);
    }
    lemma_sum_splits(ax, by, all, a.rows, 0);
    lemma_sum_scales(from_a, ax, x, a.rows, 0);
    lemma_sum_scales(from_b, by, y, a.rows, 0);
}

/// If two rows and two columns are sent to a cell, it gathers the four values where they cross.
proof fn lemma_gathered_crossings<F: Bm3dFloat>(
    values: Matrix<F>,
    row_to: Seq<int>,
    col_to: Seq<int>,
    i: int,
    j: int,
    p: int,
    s: int,
    q: int,
    t: int,
)
    requires
        is_exact::<F>(),
        p != s,
        q != t,
        forall|r: int| 0 <= r < values.rows ==> (#[trigger] row_to[r] == i <==> r == p || r == s),
        forall|c: int| 0 <= c < values.cols ==> (#[trigger] col_to[c] == j <==> c == q || c == t),
    ensures
        gathered_before(values, row_to, col_to, i, j, values.rows, 0) == value_or_zero(
            values,
            p,
            q,
        ).plus_spec(value_or_zero(values, p, t)).plus_spec(
            value_or_zero(values, s, q).plus_spec(value_or_zero(values, s, t)),
        ),
{
    let zero = F::zero_spec();
    let all = sent(values, row_to, col_to, i, j);
    let pq = alone(values, p, q);
    let pt = alone(values, p, t);
    let sq = alone(values, s, q);
    let st = alone(values, s, t);
    let first = Matrix::from_fn(
        values.rows,
        values.cols,
        |r: int, c: int| pq.at(r, c).plus_spec(pt.at(r, c)),
    );
    let second = Matrix::from_fn(
        values.rows,
        values.cols,
        |r: int, c: int| sq.at(r, c).plus_spec(st.at(r, c)),
    );
    assert forall|r: int, c: int| first.has(r, c) implies #[trigger] all.at(r, c) == first.at(
        r,
        c,
    ).plus_spec(second.at(r, c)) by {
        let x = values.at(r, c);
        lemma_plus(x, x, x);
        lemma_plus(zero, zero, zero);
        assert(row_to[r] == i <==> r == p || r == s);
        assert(col_to[c] == j <==> c == q || c == t);
    }
    lemma_gathered_is_sent(values, row_to, col_to, i, j, values.rows, 0);
    lemma_sum_splits(first, second, all, values.rows, 0);
    lemma_sum_splits(pq, pt, first, values.rows, 0);
    lemma_sum_splits(sq, st, second, values.rows, 0);
    lemma_sum_of_alone(values, p, q);
    lemma_sum_of_alone(values, p, t);
    lemma_sum_of_alone(values, s, q);
    lemma_sum_of_alone(values, s, t);
}

/// Which lags shorter than a patch fall on cell `i` of the patch.
proof fn lemma_lags_of_cell(n: int, i: int)
    requires
        0 <= i < n,
    ensures
        forall|a: int|
            0 <= a < 2 * n - 1 ==> ((#[trigger] (a - (n - 1))) % n == i <==> a == i + n - 1 || a
                == i - 1),
{
    assert forall|a: int| 0 <= a < 2 * n - 1 implies ((#[trigger] (a - (n - 1))) % n == i <==> a
        == i + n - 1 || a == i - 1) by {
        let u = a - (n - 1);
        if u >= 0 {
            lemma_small_mod(u as nat, n as nat);
        } else {
            lemma_fundamental_div_mod_converse(u, n, -1, u + n);
        }
    }
}

/// A windowed value times the square of the patch size is the value times both pair counts.
proof fn lemma_windowed<F: Bm3dFloat>(x: F, y: F, v: F, size: F)
    requires
        is_exact::<F>(),
    ensures
        x.times_spec(y).times_spec(v).times_spec(size.times_spec(size)) == x.times_spec(
            size,
        ).times_spec(y.times_spec(size)).times_spec(v),
{
    let ss = size.times_spec(size);
    let xs = x.times_spec(size);
    // x * y * v * ss == (x * y) * (ss * v)
    lemma_times(x.times_spec(y), v, ss);
    lemma_times(v, ss, ss);
    lemma_times(x.times_spec(y), ss, v);
    // (x * y) * ss == (x * s) * (y * s)
    lemma_times(x, y, ss);
    lemma_times(y, size, size);
    lemma_times(y.times_spec(size), size, size);
    lemma_times(size, y.times_spec(size), size);
    lemma_times(x, size, y.times_spec(size));
}

/// Every cell of the folded autocorrelation collects the lags that fall on it modulo the patch
/// size, along either axis one from each side: times the number of pixels of a patch, each value
/// of the autocorrelation counts as often as two pixels of a patch have that lag, which for the
/// lag `u` along an axis is `P - |u|` times. Lags wrap around the autocorrelation.
pub proof fn law_folding_counts_the_pairs<F: Bm3dFloat>(
    acf: Matrix<F>,
    patch_size: int,
    i: int,
    j: int,
)
    requires
        is_exact::<F>(),
        0 < patch_size <= isize::MAX,
        !acf.is_empty(),
        0 <= i < patch_size,
        0 <= j < patch_size,
    ensures
        ({
            let size = F::usize_as_spec(patch_size as usize);
            let rows = acf.rows as int;
            let cols = acf.cols as int;
            // How often the lags i - P, i, j - P and j occur.
            let i_before = F::usize_as_spec(i as usize);
            let i_after = F::usize_as_spec((patch_size - i) as usize);
            let j_before = F::usize_as_spec(j as usize);
            let j_after = F::usize_as_spec((patch_size - j) as usize);
            folded_autocorrelation(acf, patch_size).at(i, j).times_spec(size.times_spec(size))
                == i_before.times_spec(j_before).times_spec(
                acf.at((i - patch_size) % rows, (j - patch_size) % cols),
            ).plus_spec(
                i_before.times_spec(j_after).times_spec(acf.at((i - patch_size) % rows, j % cols)),
            ).plus_spec(
                i_after.times_spec(j_before).times_spec(
                    acf.at(i % rows, (j - patch_size) % cols),
                ).plus_spec(i_after.times_spec(j_after).times_spec(acf.at(i % rows, j % cols))),
            )
        }),
{
    let size = F::usize_as_spec(patch_size as usize);
    let ss = size.times_spec(size);
    let lags = (2 * patch_size - 1) as nat;
    let center = patch_size - 1;
    let to = wrapped_positions(lags, center, patch_size);
    let window = windowed_lags(acf, patch_size);
    lemma_lags_of_cell(patch_size, i);
    lemma_lags_of_cell(patch_size, j);
    assert forall|r: int| 0 <= r < window.rows implies (#[trigger] to[r] == i <==> r == i - 1 || r
        == i + center) by {
        assert(to[r] == (r - center) % patch_size);
    }
    assert forall|c: int| 0 <= c < window.cols implies (#[trigger] to[c] == j <==> c == j - 1 || c
        == j + center) by {
        assert(to[c] == (c - center) % patch_size);
    }
    lemma_gathered_crossings(window, to, to, i, j, i - 1, i + center, j - 1, j + center);
    let a = value_or_zero(window, i - 1, j - 1);
    let b = value_or_zero(window, i - 1, j + center);
    let c = value_or_zero(window, i + center, j - 1);
    let d = value_or_zero(window, i + center, j + center);
    lemma_times(a.plus_spec(b), c.plus_spec(d), ss);
    lemma_times(a, b, ss);
    lemma_times(c, d, ss);
    lemma_crossing(acf, patch_size, i, j, false, false);
    lemma_crossing(acf, patch_size, i, j, false, true);
    lemma_crossing(acf, patch_size, i, j, true, false);
    lemma_crossing(acf, patch_size, i, j, true, true);
}

/// The weighted value at one of the four lags that fall on a cell, times the number of pixels of
/// a patch.
proof fn lemma_crossing<F: Bm3dFloat>(
    acf: Matrix<F>,
    patch_size: int,
    i: int,
    j: int,
    i_late: bool,
    j_late: bool,
)
    requires
        is_exact::<F>(),
        0 < patch_size <= isize::MAX,
        !acf.is_empty(),
        0 <= i < patch_size,
        0 <= j < patch_size,
    ensures
        ({
            let size = F::usize_as_spec(patch_size as usize);
            let u = if i_late {
                i
            } else {
                i - patch_size
            };
            let v = if j_late {
                j
            } else {
                j - patch_size
            };
            let row_count = F::usize_as_spec(
                (if i_late {
                    patch_size - i
                } else {
                    i
                }) as usize,
            );
            let col_count = F::usize_as_spec(
                (if j_late {
                    patch_size - j
                } else {
                    j
                }) as usize,
            );
            value_or_zero(
                windowed_lags(acf, patch_size),
                u + patch_size - 1,
                v + patch_size - 1,
            ).times_spec(size.times_spec(size)) == row_count.times_spec(col_count).times_spec(
                acf.at(u % acf.rows as int, v % acf.cols as int),
            )
        }),
{
    let zero = F::zero_spec();
    let size = F::usize_as_spec(patch_size as usize);
    let u = if i_late {
        i
    } else {
        i - patch_size
    };
    let v = if j_late {
        j
    } else {
        j - patch_size
    };
    let x = acf.at(u % acf.rows as int, v % acf.cols as int);
    let window = windowed_lags(acf, patch_size);
    if u > -patch_size && v > -patch_size {
        let wu = lag_weight::<F>(patch_size, u);
        let wv = lag_weight::<F>(patch_size, v);
        assert(window.at(u + patch_size - 1, v + patch_size - 1) == wu.times_spec(wv).times_spec(
            x,
        ));
        lemma_windowed(wu, wv, x, size);
        lemma_weight_is_count::<F>(patch_size, u);
        lemma_weight_is_count::<F>(patch_size, v);
    } else {
        lemma_times_zero(size.times_spec(size));
        let row_count = F::usize_as_spec(
            (if i_late {
                patch_size - i
            } else {
                i
            }) as usize,
        );
        let col_count = F::usize_as_spec(
            (if j_late {
                patch_size - j
            } else {
                j
            }) as usize,
        );
        lemma_times_zero(row_count);
        lemma_times_zero(col_count);
        lemma_times_zero(x);
    }
}

/// The weight of a lag times the patch size is the number of pairs with that lag, counted as an
/// integer.
proof fn lemma_weight_is_count<F: Bm3dFloat>(n: int, lag: int)
    requires
        is_exact::<F>(),
        0 < n <= isize::MAX,
        -n < lag < n,
    ensures
        lag_weight::<F>(n, lag).times_spec(F::usize_as_spec(n as usize)) == F::usize_as_spec(
            (n - if lag < 0 {
                -lag
            } else {
                lag
            }) as usize,
        ),
{
    let distance = if lag < 0 {
        -lag
    } else {
        lag
    };
    let rest = F::usize_as_spec((n - distance) as usize);
    let d = F::usize_as_spec(distance as usize);
    lemma_weight_counts_pairs::<F>(n, lag);
    lemma_counts_add::<F>((n - distance) as usize, distance as usize);
    lemma_minus(rest, d);
}

/// Noise levels per patch coefficient come about by way of the autocorrelation: the noise power
/// spectrum is handed to the inverse transform as real numbers, what comes back is folded, and the
/// transform of that gives the variances.
pub proof fn law_noise_levels_go_by_the_autocorrelation<
    F: Bm3dFloat,
    Fft: Fn(&Grid<F>) -> Grid<Complex<F>>,
    Ifft: Fn(&Grid<Complex<F>>) -> Grid<F>,
>(
    fft2d: Fft,
    ifft2d: Ifft,
    noise_psd: Matrix<F>,
    spectrum: Matrix<Complex<F>>,
    patch_size: int,
    sigmas: Matrix<F>,
)
    requires
        spectrum.wf(),
        spectrum.rows == noise_psd.rows,
        spectrum.cols == noise_psd.cols,
        forall|r: int, c: int|
            noise_psd.has(r, c) ==> (#[trigger] spectrum.at(r, c)).re == noise_psd.at(r, c)
                && spectrum.at(r, c).im == F::zero_spec(),
        is_patch_noise_sigma(fft2d, ifft2d, noise_psd, patch_size, sigmas),
    ensures
        exists|acf: Matrix<F>, variances: Matrix<Complex<F>>|
            {
                &&& #[trigger] is_ifft(ifft2d, spectrum, acf)
                &&& #[trigger] is_fft(fft2d, folded_autocorrelation(acf, patch_size), variances)
                &&& sigmas == coefficient_sigmas(variances)
            },
{
    lemma_same_matrix(spectrum, complex_of(noise_psd));
}

} // verus!
