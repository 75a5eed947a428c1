//! Means, variances and the powers that the regularization is made of, by what has to hold of
//! them.
//!
//! The laws here are stated for scalars that compute exactly.

use crate::complex::Complex;
use crate::exact::{
    exact_at, is_exact, lemma_count_positive, lemma_decimal, lemma_max, lemma_minus, lemma_order,
    lemma_order_chains, lemma_over, lemma_plus, lemma_plus_cancels, lemma_times,
    lemma_times_ordered, lemma_times_zero, lemma_twentieth,
};
use crate::float_trait::Bm3dFloat;
use crate::grid::{total, Matrix, MAX_CELLS};
use crate::levels::{lowered, mean_of, squared_deviations, variance_of};
use crate::spectral::{
    coefficient_sigmas, inverse_regularization, real_parts, signal_power, variance_floor,
    wiener_regularization,
};
use crate::sums::{
    lemma_sum_of_changed, lemma_sum_of_constant, lemma_sum_of_same, lemma_sum_of_zeros,
    lemma_sum_scales, lemma_sum_splits,
};
use vstd::prelude::*;

verus! {

/// The number of cells is positive if there is one.
proof fn lemma_cells_positive<F: Bm3dFloat>(rows: nat, cols: nat)
    requires
        is_exact::<F>(),
        rows > 0,
        cols > 0,
        rows * cols <= MAX_CELLS,
    ensures
        F::zero_spec().lt_spec(F::usize_as_spec((rows * cols) as usize)),
        F::usize_as_spec((rows * cols) as usize) != F::zero_spec(),
{
    assert(rows * cols >= 1) by (nonlinear_arith)
        requires
            rows >= 1,
            cols >= 1,
    ;
    lemma_count_positive::<F>((rows * cols) as usize);
}

/// A sum counts every cell once: cells of zero sum to zero, and a cell that is raised by `d` raises
/// the sum by `d`.
pub proof fn law_sum_counts_every_cell_once<F: Bm3dFloat>(
    m: Matrix<F>,
    other: Matrix<F>,
    p: int,
    q: int,
    d: F,
)
    requires
        is_exact::<F>(),
        other.rows == m.rows,
        other.cols == m.cols,
        m.has(p, q),
        other.at(p, q) == m.at(p, q).plus_spec(d),
        forall|r: int, c: int|
            m.has(r, c) && !(r == p && c == q) ==> #[trigger] other.at(r, c) == m.at(r, c),
    ensures
        total(other) == total(m).plus_spec(d),
        (forall|r: int, c: int| m.has(r, c) ==> #[trigger] m.at(r, c) == F::zero_spec()) ==> total(
            m,
        ) == F::zero_spec(),
{
    lemma_sum_of_changed(m, other, p, q, d, m.rows, 0);
    if forall|r: int, c: int| m.has(r, c) ==> #[trigger] m.at(r, c) == F::zero_spec() {
        lemma_sum_of_zeros(m, m.rows, 0);
    }
}

/// A share of a sum, times the number of the shares, is the sum.
proof fn lemma_share<F: Bm3dFloat>(sum: F, count: F)
    requires
        is_exact::<F>(),
        count != F::zero_spec(),
    ensures
        sum.times_spec(F::one_spec().over_spec(count)).times_spec(count) == sum,
{
    let share = F::one_spec().over_spec(count);
    lemma_over(F::one_spec(), count);
    lemma_times(sum, share, count);
    lemma_times(sum, sum, sum);
}

/// The mean balances an image: times the number of pixels it is their sum, and what the pixels
/// differ from it by adds up to nothing.
pub proof fn law_mean_balances<F: Bm3dFloat>(image: Matrix<F>)
    requires
        is_exact::<F>(),
        !image.is_empty(),
        image.rows * image.cols <= MAX_CELLS,
    ensures
        mean_of(image).times_spec(F::usize_as_spec((image.rows * image.cols) as usize)) == total(
            image,
        ),
        total(lowered(image, mean_of(image))) == F::zero_spec(),
{
    let mean = mean_of(image);
    let count = F::usize_as_spec((image.rows * image.cols) as usize);
    lemma_cells_positive::<F>(image.rows, image.cols);
    lemma_share(total(image), count);
    let low = lowered(image, mean);
    let flat = Matrix::from_fn(image.rows, image.cols, |r: int, c: int| mean);
    assert forall|r: int, c: int| low.has(r, c) implies #[trigger] image.at(r, c) == low.at(
        r,
        c,
    ).plus_spec(flat.at(r, c)) by {
        lemma_minus(image.at(r, c), mean);
    }
    lemma_sum_splits(low, flat, image, image.rows, 0);
    lemma_sum_of_constant(flat, mean, image.rows, 0);
    lemma_times(mean, count, count);
    lemma_plus(total(flat), total(flat), total(flat));
    lemma_plus_cancels(total(low), F::zero_spec(), total(flat));
}

/// The variance is the mean of the squares less the square of the mean: both together, times the
/// number of pixels, are the sum of the squares of all pixels.
pub proof fn law_variance_is_the_mean_of_the_squares<F: Bm3dFloat>(
    image: Matrix<F>,
    squares: Matrix<F>,
)
    requires
        is_exact::<F>(),
        !image.is_empty(),
        image.rows * image.cols <= MAX_CELLS,
        squares.rows == image.rows,
        squares.cols == image.cols,
        forall|r: int, c: int|
            image.has(r, c) ==> #[trigger] squares.at(r, c) == image.at(r, c).times_spec(
                image.at(r, c),
            ),
    ensures
        variance_of(image).plus_spec(mean_of(image).times_spec(mean_of(image))).times_spec(
            F::usize_as_spec((image.rows * image.cols) as usize),
        ) == total(squares),
{
    let mean = mean_of(image);
    let count = F::usize_as_spec((image.rows * image.cols) as usize);
    let sum = total(image);
    lemma_cells_positive::<F>(image.rows, image.cols);
    lemma_share(sum, count);
    let spread = squared_deviations(image, mean);
    lemma_share(total(spread), count);
    // x * x == (x - mean)^2 + mean * (x - mean) + mean * x, cell by cell.
    let low = lowered(image, mean);
    let low_part = low.map(|x: F| x.times_spec(mean));
    let part = image.map(|x: F| x.times_spec(mean));
    let rest = Matrix::from_fn(
        image.rows,
        image.cols,
        |r: int, c: int| low_part.at(r, c).plus_spec(part.at(r, c)),
    );
    assert forall|r: int, c: int| spread.has(r, c) implies #[trigger] squares.at(r, c)
        == spread.at(r, c).plus_spec(rest.at(r, c)) by {
        let x = image.at(r, c);
        let y = x.minus_spec(mean);
        lemma_minus(x, mean);
        // x * x == y * x + mean * x
        lemma_times(y, mean, x);
        // y * x == y * y + y * mean
        lemma_times(y, mean, y);
        lemma_times(y, x, y);
        lemma_times(x, y, y);
        lemma_times(mean, y, y);
        lemma_times(mean, x, x);
        lemma_plus(y.times_spec(y), y.times_spec(mean), x.times_spec(mean));
        assert(low_part.at(r, c) == y.times_spec(mean));
        assert(part.at(r, c) == x.times_spec(mean));
    }
    lemma_sum_splits(spread, rest, squares, image.rows, 0);
    lemma_sum_splits(low_part, part, rest, image.rows, 0);
    lemma_sum_scales(low, low_part, mean, image.rows, 0);
    lemma_sum_scales(image, part, mean, image.rows, 0);
    law_mean_balances(image);
    lemma_times_zero(mean);
    lemma_plus(total(part), total(part), total(part));
    // sum * mean == mean * mean * count
    lemma_times(mean, count, mean);
    lemma_times(count, mean, mean);
    lemma_times(mean, mean, count);
    lemma_times(variance_of(image), mean.times_spec(mean), count);
}

/// The power of the signal is the largest of three: what the noise leaves of the variance, a
/// twentieth of the variance, and `10^-12`.
pub proof fn law_signal_power_is_the_largest<F: Bm3dFloat>(variance: F, sigma_sq: F)
    requires
        is_exact::<F>(),
    ensures
        ({
            let power = signal_power(variance, sigma_sq);
            let twenty = F::usize_as_spec(20);
            let least = F::from_decimal_spec(1, 12);
            &&& variance.le_spec(power.plus_spec(sigma_sq))
            &&& variance.le_spec(power.times_spec(twenty))
            &&& least.le_spec(power)
            &&& power.plus_spec(sigma_sq) == variance || power.times_spec(twenty) == variance
                || power == least
            &&& F::zero_spec().lt_spec(power)
        }),
{
    let zero = F::zero_spec();
    let twenty = F::usize_as_spec(20);
    let least = F::from_decimal_spec(1, 12);
    let a = variance.minus_spec(sigma_sq);
    let b = variance.times_spec(F::from_decimal_spec(5, 2));
    let m = a.max_spec(b);
    let power = signal_power(variance, sigma_sq);
    lemma_max(a, b);
    lemma_max(m, least);
    lemma_order_chains(a, m, power);
    lemma_order_chains(b, m, power);
    lemma_minus(variance, sigma_sq);
    lemma_plus_keeps_order(a, power, sigma_sq);
    lemma_twentieth(variance);
    lemma_count_positive::<F>(20);
    lemma_times_ordered(b, power, twenty);
    lemma_decimal::<F>(1, 12);
    lemma_order(zero, least);
    lemma_order_chains(zero, least, power);
}

/// A summand on both sides keeps the order.
proof fn lemma_plus_keeps_order<F: Bm3dFloat>(a: F, b: F, c: F)
    requires
        is_exact::<F>(),
        a.le_spec(b),
    ensures
        a.plus_spec(c).le_spec(b.plus_spec(c)),
{
    assert(exact_at(a, b, c));
    lemma_order(a, b);
    lemma_order(a.plus_spec(c), b.plus_spec(c));
}

/// The regularization of the first inversion is the factor times the ratio of noise and signal,
/// but at least `10^-8`.
pub proof fn law_first_regularization_is_the_noise_to_signal_ratio<F: Bm3dFloat>(
    reg_ri: F,
    variance: F,
    sigma_sq: F,
)
    requires
        is_exact::<F>(),
    ensures
        ({
            let lambda = inverse_regularization(reg_ri, variance, sigma_sq);
            let power = signal_power(variance, sigma_sq);
            let least = F::from_decimal_spec(1, 8);
            &&& reg_ri.times_spec(sigma_sq).le_spec(lambda.times_spec(power))
            &&& least.le_spec(lambda)
            &&& lambda.times_spec(power) == reg_ri.times_spec(sigma_sq) || lambda == least
        }),
{
    let zero = F::zero_spec();
    let power = signal_power(variance, sigma_sq);
    let noise = reg_ri.times_spec(sigma_sq);
    let ratio = noise.over_spec(power);
    law_signal_power_is_the_largest(variance, sigma_sq);
    lemma_order(zero, power);
    lemma_over(noise, power);
    lemma_max(ratio, F::from_decimal_spec(1, 8));
    lemma_times_ordered(ratio, inverse_regularization(reg_ri, variance, sigma_sq), power);
}

/// The regularization of the second inversion is the factor times the power of the noise, but at
/// least `10^-8` of the mean power of the signal.
pub proof fn law_second_regularization_is_the_noise_power<F: Bm3dFloat>(
    reg_rwi: F,
    sigma_sq: F,
    psd: Matrix<F>,
    count: F,
)
    requires
        is_exact::<F>(),
        F::zero_spec().lt_spec(count),
    ensures
        ({
            let reg = wiener_regularization(
                reg_rwi,
                sigma_sq,
                psd,
                F::one_spec().over_spec(count),
            );
            let noise = reg_rwi.times_spec(sigma_sq);
            let least = F::from_decimal_spec(1, 8).times_spec(total(psd));
            &&& noise.le_spec(reg)
            &&& least.le_spec(reg.times_spec(count))
            &&& reg == noise || reg.times_spec(count) == least
        }),
{
    let zero = F::zero_spec();
    let tiny = F::from_decimal_spec(1, 8);
    let share = F::one_spec().over_spec(count);
    let mean = total(psd).times_spec(share);
    let noise = reg_rwi.times_spec(sigma_sq);
    let floor = tiny.times_spec(mean);
    lemma_order(zero, count);
    lemma_share(total(psd), count);
    lemma_times(tiny, mean, count);
    lemma_max(noise, floor);
    lemma_times_ordered(floor, noise.max_spec(floor), count);
}

/// Whether roots of scalars that are not negative are roots.
pub open spec fn roots_are_exact<F: Bm3dFloat>() -> bool {
    forall|x: F|
        F::zero_spec().le_spec(x) ==> (#[trigger] x.sqrt_spec()).times_spec(x.sqrt_spec()) == x
            && F::zero_spec().le_spec(x.sqrt_spec())
}

/// The square of the noise level of a patch coefficient is the largest of three: its variance, a
/// millionth of the mean variance of all coefficients, and `10^-24`.
pub proof fn law_squared_level_is_the_largest<F: Bm3dFloat>(
    spectrum: Matrix<Complex<F>>,
    variances: Matrix<F>,
    r: int,
    c: int,
)
    requires
        is_exact::<F>(),
        roots_are_exact::<F>(),
        spectrum.has(r, c),
        spectrum.rows * spectrum.cols <= MAX_CELLS,
        variances.rows == spectrum.rows,
        variances.cols == spectrum.cols,
        forall|i: int, j: int|
            spectrum.has(i, j) ==> #[trigger] variances.at(i, j) == spectrum.at(i, j).re,
    ensures
        ({
            let sigma = coefficient_sigmas(spectrum).at(r, c);
            let square = sigma.times_spec(sigma);
            let count = F::usize_as_spec((spectrum.rows * spectrum.cols) as usize);
            let millionth = total(variances).times_spec(F::from_decimal_spec(1, 6));
            let least = F::from_decimal_spec(1, 24);
            &&& F::zero_spec().le_spec(sigma)
            &&& spectrum.at(r, c).re.le_spec(square)
            &&& millionth.le_spec(square.times_spec(count))
            &&& least.le_spec(square)
            &&& square == spectrum.at(r, c).re || square.times_spec(count) == millionth || square
                == least
        }),
{
    let zero = F::zero_spec();
    let count = F::usize_as_spec((spectrum.rows * spectrum.cols) as usize);
    let tiny = F::from_decimal_spec(1, 6);
    let least = F::from_decimal_spec(1, 24);
    let sum = total(real_parts(spectrum));
    let mean = sum.over_spec(count);
    let share = mean.times_spec(tiny);
    let floor = share.max_spec(least);
    let re = spectrum.at(r, c).re;
    let top = re.max_spec(floor);
    lemma_cells_positive::<F>(spectrum.rows, spectrum.cols);
    lemma_sum_of_same(variances, real_parts(spectrum), variances.rows, 0);
    lemma_over(sum, count);
    lemma_times(mean, tiny, count);
    lemma_times(tiny, count, count);
    lemma_times(mean, count, tiny);
    assert(share.times_spec(count) == sum.times_spec(tiny));
    lemma_max(share, least);
    lemma_max(re, floor);
    lemma_order_chains(share, floor, top);
    lemma_order_chains(least, floor, top);
    lemma_times_ordered(share, top, count);
    lemma_decimal::<F>(1, 24);
    lemma_order(zero, least);
    lemma_order_chains(zero, least, top);
    assert(top.sqrt_spec().times_spec(top.sqrt_spec()) == top);
    assert(variance_floor(spectrum) == floor);
    assert(coefficient_sigmas(spectrum).at(r, c) == top.sqrt_spec());
}

} // verus!
