//! White noise, seen patch by patch, stays white; and all noise keeps its mean power.
//!
//! The laws here are stated for scalars that compute exactly, and for Fourier transforms that
//! take a constant to an impulse and back, or a mean to a first cell and back.

use crate::complex::Complex;
use crate::exact::{
    count_is_exact, is_exact, law_exact_scalars_obey_weaker_rules, lemma_count_positive,
    lemma_decimal, lemma_max, lemma_minus, lemma_order, lemma_order_chains, lemma_over, lemma_plus,
    lemma_times, lemma_times_cancels, lemma_times_ordered, lemma_times_zero,
};
use crate::float_trait::Bm3dFloat;
use crate::grid::{lemma_same_matrix, shape_fits, total, Grid, Matrix};
use crate::levels::mean_of;
use crate::observation::lemma_gathered_alone;
use crate::spectral::{
    coefficient_sigmas, complex_of, folded_autocorrelation, gathered_before, is_fft,
    is_forward_transform, is_ifft, is_inverse_transform, is_patch_noise_sigma, lag_weight,
    real_parts, variance_floor, windowed_lags, wrapped_positions,
};
use crate::sums::lemma_sum_of_constant;
use vstd::arithmetic::div_mod::{lemma_fundamental_div_mod_converse, lemma_small_mod};
use vstd::prelude::*;

verus! {

/// The matrix with `v` in every cell.
pub open spec fn constant<T>(rows: nat, cols: nat, v: T) -> Matrix<T> {
    Matrix::from_fn(rows, cols, |r: int, c: int| v)
}

/// The matrix with `v` in cell `(0, 0)` and zero elsewhere.
pub open spec fn impulse<F: Bm3dFloat>(rows: nat, cols: nat, v: F) -> Matrix<F> {
    Matrix::from_fn(
        rows,
        cols,
        |r: int, c: int|
            if r == 0 && c == 0 {
                v
            } else {
                F::zero_spec()
            },
    )
}

/// Whether the inverse transform takes a constant spectrum to an impulse of the same size.
pub open spec fn constant_to_impulse<F: Bm3dFloat, T: Fn(&Grid<Complex<F>>) -> Grid<F>>(
    ifft2d: T,
    rows: nat,
    cols: nat,
    v: F,
) -> bool {
    forall|image: Matrix<F>| #[trigger]
        is_ifft(ifft2d, complex_of(constant(rows, cols, v)), image) ==> image == impulse(
            rows,
            cols,
            v,
        )
}

/// Whether the transform takes an impulse to a constant spectrum of the same size.
pub open spec fn impulse_to_constant<F: Bm3dFloat, T: Fn(&Grid<F>) -> Grid<Complex<F>>>(
    fft2d: T,
    rows: nat,
    cols: nat,
    v: F,
) -> bool {
    forall|spectrum: Matrix<Complex<F>>| #[trigger]
        is_fft(fft2d, impulse(rows, cols, v), spectrum) ==> spectrum == complex_of(
            constant(rows, cols, v),
        )
}

/// If only the value in `(p, q)` is not zero, then a cell holds that value once it has been
/// passed and if it is sent there, and zero otherwise.
proof fn lemma_gathered_impulse<F: Bm3dFloat>(
    values: Matrix<F>,
    row_to: Seq<int>,
    col_to: Seq<int>,
    i: int,
    j: int,
    p: int,
    q: int,
    a: nat,
    b: nat,
)
    requires
        is_exact::<F>(),
        values.has(p, q),
        forall|r: int, c: int|
            values.has(r, c) && !(r == p && c == q) ==> #[trigger] values.at(r, c)
                == F::zero_spec(),
        a < values.rows && b <= values.cols || a == values.rows && b == 0,
    ensures
        gathered_before(values, row_to, col_to, i, j, a, b) == if row_to[p] == i && col_to[q] == j
            && (p < a || p == a && q < b) {
            values.at(p, q)
        } else {
            F::zero_spec()
        },
    decreases a, b,
{
    if b > 0 {
        lemma_gathered_impulse(values, row_to, col_to, i, j, p, q, a, (b - 1) as nat);
        let x = values.at(a as int, b - 1);
        assert(values.has(a as int, b - 1));
        lemma_plus(x, x, x);
        let y = values.at(p, q);
        lemma_plus(y, y, y);
    } else if a > 0 {
        lemma_gathered_impulse(values, row_to, col_to, i, j, p, q, (a - 1) as nat, values.cols);
    }
}

/// A lag shorter than a patch falls on cell zero of an axis that is no shorter than a patch
/// only if it is zero.
proof fn lemma_lag_wraps(lag: int, patch_size: int, len: int)
    requires
        -patch_size < lag < patch_size <= len,
    ensures
        0 <= lag % len < len,
        lag % len == 0 <==> lag == 0,
{
    if lag >= 0 {
        lemma_small_mod(lag as nat, len as nat);
    } else {
        lemma_fundamental_div_mod_converse(lag, len, -1, lag + len);
    }
}

/// The lag zero has weight one.
proof fn lemma_no_lag<F: Bm3dFloat>(patch_size: int)
    requires
        is_exact::<F>(),
        0 < patch_size <= usize::MAX,
    ensures
        lag_weight::<F>(patch_size, 0) == F::one_spec(),
{
    let zero = F::zero_spec();
    let size = F::usize_as_spec(patch_size as usize);
    assert(count_is_exact::<F>(0));
    lemma_count_positive::<F>(patch_size as usize);
    lemma_over(zero, size);
    lemma_times_zero(size);
    let q = zero.over_spec(size);
    lemma_times_cancels(q, zero, size);
    lemma_minus(F::one_spec(), F::one_spec());
}

/// An autocorrelation that is an impulse is not changed by the window and the folding.
pub proof fn law_impulse_survives_folding<F: Bm3dFloat>(
    rows: nat,
    cols: nat,
    v: F,
    patch_size: int,
)
    requires
        is_exact::<F>(),
        0 < patch_size <= rows,
        patch_size <= cols,
        patch_size <= usize::MAX,
    ensures
        folded_autocorrelation(impulse(rows, cols, v), patch_size) == impulse(
            patch_size as nat,
            patch_size as nat,
            v,
        ),
{
    let acf = impulse(rows, cols, v);
    let lags = (2 * patch_size - 1) as nat;
    let window = windowed_lags(acf, patch_size);
    let center = patch_size - 1;
    let to = wrapped_positions(lags, center, patch_size);
    lemma_no_lag::<F>(patch_size);
    assert forall|a: int, b: int| window.has(a, b) implies #[trigger] window.at(a, b) == if a
        == center && b == center {
        v
    } else {
        F::zero_spec()
    } by {
        lemma_lag_wraps(a - center, patch_size, rows as int);
        lemma_lag_wraps(b - center, patch_size, cols as int);
        let w = lag_weight::<F>(patch_size, a - center).times_spec(
            lag_weight(patch_size, b - center),
        );
        lemma_times_zero(w);
        lemma_times(F::one_spec(), F::one_spec(), v);
        lemma_times(v, v, v);
    }
    let folded = folded_autocorrelation(acf, patch_size);
    let target = impulse(patch_size as nat, patch_size as nat, v);
    lemma_small_mod(0, patch_size as nat);
    assert(to[center] == 0);
    assert forall|i: int, j: int| folded.has(i, j) implies #[trigger] folded.at(i, j) == target.at(
        i,
        j,
    ) by {
        lemma_gathered_impulse(window, to, to, i, j, center, center, lags, 0);
    }
    lemma_same_matrix(folded, target);
}

/// White noise of standard deviation `sigma` has the standard deviation `sigma` in every patch
/// coefficient. The variance must not fall below the absolute bound that it is raised to, and
/// its root must be `sigma`.
pub proof fn law_white_noise_gives_flat_sigmas<
    F: Bm3dFloat,
    Fft: Fn(&Grid<F>) -> Grid<Complex<F>>,
    Ifft: Fn(&Grid<Complex<F>>) -> Grid<F>,
>(
    fft2d: Fft,
    ifft2d: Ifft,
    rows: nat,
    cols: nat,
    sigma: F,
    patch_size: int,
    sigmas: Matrix<F>,
)
    requires
        is_exact::<F>(),
        0 < patch_size <= rows,
        patch_size <= cols,
        shape_fits(rows as int, cols as int),
        sigma.times_spec(sigma).sqrt_spec() == sigma,
        F::from_decimal_spec(1, 24).le_spec(sigma.times_spec(sigma)),
        constant_to_impulse(ifft2d, rows, cols, sigma.times_spec(sigma)),
        impulse_to_constant(
            fft2d,
            patch_size as nat,
            patch_size as nat,
            sigma.times_spec(sigma),
        ),
        is_patch_noise_sigma(
            fft2d,
            ifft2d,
            constant(rows, cols, sigma.times_spec(sigma)),
            patch_size,
            sigmas,
        ),
    ensures
        sigmas == constant(patch_size as nat, patch_size as nat, sigma),
{
    let v = sigma.times_spec(sigma);
    let size = patch_size as nat;
    let flat = constant(rows, cols, v);
    let (acf, spectrum) = choose|acf: Matrix<F>, spectrum: Matrix<Complex<F>>|
        {
            &&& #[trigger] is_ifft(ifft2d, complex_of(flat), acf)
            &&& #[trigger] is_fft(fft2d, folded_autocorrelation(acf, patch_size), spectrum)
            &&& sigmas == coefficient_sigmas(spectrum)
        };
    law_impulse_survives_folding(rows, cols, v, patch_size);
    assert(acf == impulse(rows, cols, v));
    assert(spectrum == complex_of(constant(size, size, v)));
    assert(size * size <= rows * cols) by (nonlinear_arith)
        requires
            size <= rows,
            size <= cols,
    ;
    assert(size * size > 0) by (nonlinear_arith)
        requires
            size > 0,
    ;
    let count = F::usize_as_spec((size * size) as usize);
    let parts = real_parts(spectrum);
    lemma_sum_of_constant(parts, v, size, 0);
    lemma_count_positive::<F>((size * size) as usize);
    lemma_times(count, v, v);
    lemma_over(v, count);
    let ratio = F::from_decimal_spec(1, 6);
    let least = F::from_decimal_spec(1, 24);
    let floor = variance_floor(spectrum);
    assert(total(parts).over_spec(count) == v);
    assert(floor == v.times_spec(ratio).max_spec(least));
    // A millionth of the variance is no more than the variance.
    lemma_decimal::<F>(1, 6);
    lemma_decimal::<F>(1, 24);
    lemma_order(F::zero_spec(), least);
    lemma_order_chains(F::zero_spec(), least, v);
    lemma_times_ordered(ratio, F::one_spec(), v);
    lemma_times(ratio, v, v);
    lemma_times(v, v, v);
    assert(v.times_spec(ratio).le_spec(v));
    lemma_max(v.times_spec(ratio), least);
    assert(floor.le_spec(v));
    lemma_max(v, floor);
    lemma_order(floor, v);
    lemma_order(v, floor);
    assert(v.max_spec(floor) == v);
    lemma_same_matrix(sigmas, constant(size, size, sigma));
}

/// Whether the first cell of an inverse transform is the mean of its spectrum, for real spectra
/// on a `rows x cols` grid.
pub open spec fn first_cell_is_mean<F: Bm3dFloat, T: Fn(&Grid<Complex<F>>) -> Grid<F>>(
    ifft2d: T,
    rows: nat,
    cols: nat,
) -> bool {
    forall|psd: Matrix<F>, image: Matrix<F>|
        psd.rows == rows && psd.cols == cols && #[trigger] is_ifft(ifft2d, complex_of(psd), image)
            ==> image.at(0, 0) == mean_of(psd)
}

/// Whether the real parts of a spectrum average to the first cell of its image, on a
/// `rows x cols` grid.
pub open spec fn mean_is_first_cell<F: Bm3dFloat, T: Fn(&Grid<F>) -> Grid<Complex<F>>>(
    fft2d: T,
    rows: nat,
    cols: nat,
) -> bool {
    forall|image: Matrix<F>, spectrum: Matrix<Complex<F>>|
        image.rows == rows && image.cols == cols && #[trigger] is_fft(fft2d, image, spectrum)
            ==> total(real_parts(spectrum)) == F::usize_as_spec(
            (rows * cols) as usize,
        ).times_spec(image.at(0, 0))
}

/// The window and the folding leave the autocorrelation at lag zero, the pixel variance, as it
/// is.
pub proof fn law_folding_keeps_pixel_variance<F: Bm3dFloat>(acf: Matrix<F>, patch_size: int)
    requires
        is_exact::<F>(),
        !acf.is_empty(),
        0 < patch_size <= usize::MAX,
    ensures
        folded_autocorrelation(acf, patch_size).at(0, 0) == acf.at(0, 0),
{
    let lags = (2 * patch_size - 1) as nat;
    let center = patch_size - 1;
    let window = windowed_lags(acf, patch_size);
    let to = wrapped_positions(lags, center, patch_size);
    assert forall|k: int| 0 <= k < lags implies (#[trigger] to[k] == 0 <==> k == center) by {
        lemma_lag_wraps(k - center, patch_size, patch_size);
    }
    law_exact_scalars_obey_weaker_rules::<F>();
    lemma_gathered_alone(window, to, to, 0, 0, center, center, lags, 0);
    lemma_small_mod(0, acf.rows);
    lemma_small_mod(0, acf.cols);
    lemma_no_lag::<F>(patch_size);
    let v = acf.at(0, 0);
    lemma_times(F::one_spec(), F::one_spec(), v);
    lemma_times(v, v, v);
    assert(window.at(center, center) == v);
}

/// Whether `spectrum` is the transform of the windowed and folded autocorrelation that belongs to
/// the noise power spectrum `noise_psd`; its real parts are the variances of the patch
/// coefficients before they are bounded from below.
pub open spec fn is_patch_spectrum<
    F: Bm3dFloat,
    Fft: Fn(&Grid<F>) -> Grid<Complex<F>>,
    Ifft: Fn(&Grid<Complex<F>>) -> Grid<F>,
>(
    fft2d: Fft,
    ifft2d: Ifft,
    noise_psd: Matrix<F>,
    patch_size: int,
    spectrum: Matrix<Complex<F>>,
) -> bool {
    exists|acf: Matrix<F>|
        {
            &&& #[trigger] is_ifft(ifft2d, complex_of(noise_psd), acf)
            &&& is_fft(fft2d, folded_autocorrelation(acf, patch_size), spectrum)
        }
}

/// The noise levels per patch coefficient are the bounded roots of the variances.
pub proof fn law_sigmas_are_roots_of_variances<
    F: Bm3dFloat,
    Fft: Fn(&Grid<F>) -> Grid<Complex<F>>,
    Ifft: Fn(&Grid<Complex<F>>) -> Grid<F>,
>(fft2d: Fft, ifft2d: Ifft, noise_psd: Matrix<F>, patch_size: int, sigmas: Matrix<F>)
    ensures
        is_patch_noise_sigma(fft2d, ifft2d, noise_psd, patch_size, sigmas) <==> exists|
            spectrum: Matrix<Complex<F>>,
        |
            {
                &&& #[trigger] is_patch_spectrum(fft2d, ifft2d, noise_psd, patch_size, spectrum)
                &&& sigmas == coefficient_sigmas(spectrum)
            },
{
    if is_patch_noise_sigma(fft2d, ifft2d, noise_psd, patch_size, sigmas) {
        let (acf, spectrum) = choose|acf: Matrix<F>, spectrum: Matrix<Complex<F>>|
            {
                &&& #[trigger] is_ifft(ifft2d, complex_of(noise_psd), acf)
                &&& #[trigger] is_fft(fft2d, folded_autocorrelation(acf, patch_size), spectrum)
                &&& sigmas == coefficient_sigmas(spectrum)
            };
        assert(is_patch_spectrum(fft2d, ifft2d, noise_psd, patch_size, spectrum));
    }
    if exists|spectrum: Matrix<Complex<F>>|
        {
            &&& #[trigger] is_patch_spectrum(fft2d, ifft2d, noise_psd, patch_size, spectrum)
            &&& sigmas == coefficient_sigmas(spectrum)
        } {
        let spectrum = choose|spectrum: Matrix<Complex<F>>|
            {
                &&& #[trigger] is_patch_spectrum(fft2d, ifft2d, noise_psd, patch_size, spectrum)
                &&& sigmas == coefficient_sigmas(spectrum)
            };
        let acf = choose|acf: Matrix<F>|
            {
                &&& #[trigger] is_ifft(ifft2d, complex_of(noise_psd), acf)
                &&& is_fft(fft2d, folded_autocorrelation(acf, patch_size), spectrum)
            };
        assert(is_ifft(ifft2d, complex_of(noise_psd), acf));
    }
}

/// The variances of the patch coefficients, before they are bounded from below, average to the
/// mean of the noise power spectrum, which is the pixel variance of the noise.
pub proof fn law_variances_average_to_the_pixel_variance<
    F: Bm3dFloat,
    Fft: Fn(&Grid<F>) -> Grid<Complex<F>>,
    Ifft: Fn(&Grid<Complex<F>>) -> Grid<F>,
>(
    fft2d: Fft,
    ifft2d: Ifft,
    noise_psd: Matrix<F>,
    patch_size: int,
    spectrum: Matrix<Complex<F>>,
)
    requires
        is_exact::<F>(),
        !noise_psd.is_empty(),
        patch_size > 0,
        shape_fits(patch_size, patch_size),
        is_forward_transform(fft2d, patch_size, patch_size),
        is_inverse_transform(ifft2d, noise_psd.rows as int, noise_psd.cols as int),
        first_cell_is_mean(ifft2d, noise_psd.rows, noise_psd.cols),
        mean_is_first_cell(fft2d, patch_size as nat, patch_size as nat),
        is_patch_spectrum(fft2d, ifft2d, noise_psd, patch_size, spectrum),
    ensures
        mean_of(real_parts(spectrum)) == mean_of(noise_psd),
{
    let size = patch_size as nat;
    let acf = choose|acf: Matrix<F>|
        {
            &&& #[trigger] is_ifft(ifft2d, complex_of(noise_psd), acf)
            &&& is_fft(fft2d, folded_autocorrelation(acf, patch_size), spectrum)
        };
    law_folding_keeps_pixel_variance(acf, patch_size);
    assert(size * size > 0) by (nonlinear_arith)
        requires
            size > 0,
    ;
    let n = (size * size) as usize;
    let count = F::usize_as_spec(n);
    let mean = mean_of(noise_psd);
    lemma_count_positive::<F>(n);
    let share = F::one_spec().over_spec(count);
    lemma_over(F::one_spec(), count);
    lemma_times(count, mean, share);
    lemma_times(mean, count, share);
    lemma_times(count, share, share);
    lemma_times(mean, mean, mean);
}

/// The squares of the noise levels per patch coefficient average to the mean of the noise power
/// spectrum, if no variance is raised to the bound and the roots are exact.
pub proof fn law_squared_sigmas_average_to_the_pixel_variance<
    F: Bm3dFloat,
    Fft: Fn(&Grid<F>) -> Grid<Complex<F>>,
    Ifft: Fn(&Grid<Complex<F>>) -> Grid<F>,
>(
    fft2d: Fft,
    ifft2d: Ifft,
    noise_psd: Matrix<F>,
    patch_size: int,
    spectrum: Matrix<Complex<F>>,
)
    requires
        is_exact::<F>(),
        !noise_psd.is_empty(),
        patch_size > 0,
        shape_fits(patch_size, patch_size),
        is_forward_transform(fft2d, patch_size, patch_size),
        is_inverse_transform(ifft2d, noise_psd.rows as int, noise_psd.cols as int),
        first_cell_is_mean(ifft2d, noise_psd.rows, noise_psd.cols),
        mean_is_first_cell(fft2d, patch_size as nat, patch_size as nat),
        is_patch_spectrum(fft2d, ifft2d, noise_psd, patch_size, spectrum),
        forall|r: int, c: int|
            spectrum.has(r, c) ==> {
                let v = (#[trigger] spectrum.at(r, c)).re;
                variance_floor(spectrum).le_spec(v) && v.sqrt_spec().times_spec(v.sqrt_spec()) == v
            },
    ensures
        mean_of(coefficient_sigmas(spectrum).map(|s: F| s.times_spec(s))) == mean_of(noise_psd),
{
    law_variances_average_to_the_pixel_variance(fft2d, ifft2d, noise_psd, patch_size, spectrum);
    let squares = coefficient_sigmas(spectrum).map(|s: F| s.times_spec(s));
    let parts = real_parts(spectrum);
    assert forall|r: int, c: int| squares.has(r, c) implies #[trigger] squares.at(r, c) == parts.at(
        r,
        c,
    ) by {
        let v = spectrum.at(r, c).re;
        let floor = variance_floor(spectrum);
        lemma_max(v, floor);
        lemma_order(v, floor);
        lemma_order(floor, v);
    }
    lemma_same_matrix(squares, parts);
}

} // verus!
