//! The variances of patch coefficients lie between the bounds of the noise power spectrum.
//!
//! The laws here are stated for scalars that compute exactly, and rest on two facts about the
//! transforms: a spectrum is a sum against Fourier kernels, and noise whose power spectrum lies
//! between two bounds gives every linear combination of pixels a variance between these bounds.

use crate::complex::Complex;
use crate::exact::{
    count_is_exact, exact_at, is_exact, lemma_count_positive, lemma_decimal, lemma_max,
    lemma_minus_scales, lemma_order, lemma_order_chains, lemma_over, lemma_plus, lemma_times,
    lemma_times_ordered, lemma_times_positive,
};
use crate::finite_sums::{
    lemma_pairs_by_lag, lemma_pairs_of_multiples, lemma_pairs_of_sums, lemma_same_sum,
    lemma_sum_of_multiples, lemma_sum_of_one_value, lemma_total_is_sum_over_pairs, pair_count,
    sum_over_pairs, sum_to,
};
use crate::float_trait::Bm3dFloat;
use crate::grid::{partial_sum, shape_fits, total, Grid, Matrix};
use crate::levels::mean_of;
use crate::observation::{
    lemma_weighted_gathering, lemma_wrapped_inside, weighted_gathering, weighted_values,
};
use crate::spectral::{
    coefficient_sigmas, complex_of, folded_autocorrelation, is_fft, is_forward_transform, is_ifft,
    is_inverse_transform, lag_weight, real_parts, variance_floor, windowed_lags,
    wrapped_positions,
};
use crate::sums::{lemma_sum_of_constant, lemma_sum_of_same};
use crate::white_noise::{
    first_cell_is_mean, is_patch_spectrum, law_squared_sigmas_average_to_the_pixel_variance,
    mean_is_first_cell,
};
use vstd::prelude::*;

verus! {

/// Whether the kernel with the real part `h` and the imaginary part `g` splits at the difference
/// of `(i, j)` and `(k, l)`: its real part there is that of the product of the kernel at `(i, j)`
/// and the conjugate kernel at `(k, l)`.
pub open spec fn splits_at<F: Bm3dFloat>(
    h: spec_fn(int, int) -> F,
    g: spec_fn(int, int) -> F,
    i: int,
    j: int,
    k: int,
    l: int,
) -> bool {
    h(i - k, j - l) == h(i, j).times_spec(h(k, l)).plus_spec(g(i, j).times_spec(g(k, l)))
}

/// Whether `h` and `g` are the real and the imaginary part of a Fourier kernel on a periodic grid
/// of `n x n` cells: `h` is periodic, one at the origin, and the kernel splits at differences.
pub open spec fn is_fourier_kernel<F: Bm3dFloat>(
    h: spec_fn(int, int) -> F,
    g: spec_fn(int, int) -> F,
    n: int,
) -> bool {
    &&& h(0, 0) == F::one_spec()
    &&& forall|i: int, j: int| #[trigger] h(i % n, j % n) == h(i, j)
    &&& forall|i: int, j: int, k: int, l: int| #[trigger] splits_at(h, g, i, j, k, l)
}

/// The sum of an image of `n x n` pixels against `h`.
pub open spec fn sum_against<F: Bm3dFloat>(
    image: Matrix<F>,
    h: spec_fn(int, int) -> F,
    n: nat,
) -> F {
    total(Matrix::from_fn(n, n, |i: int, j: int| image.at(i, j).times_spec(h(i, j))))
}

/// Whether the real part of a spectrum entry is the sum of the image against a Fourier kernel.
pub open spec fn is_kernel_sum<F: Bm3dFloat>(image: Matrix<F>, n: nat, v: F) -> bool {
    exists|h: spec_fn(int, int) -> F, g: spec_fn(int, int) -> F| #[trigger]
        is_fourier_kernel(h, g, n as int) && v == sum_against(image, h, n)
}

/// Whether the real parts of all spectra of `n x n` images are sums against Fourier kernels.
pub open spec fn sums_against_kernels<F: Bm3dFloat, Fft: Fn(&Grid<F>) -> Grid<Complex<F>>>(
    fft2d: Fft,
    n: nat,
) -> bool {
    forall|image: Matrix<F>, spectrum: Matrix<Complex<F>>, r: int, c: int|
        image.rows == n && image.cols == n && #[trigger] is_fft(fft2d, image, spectrum) && 0 <= r
            < n && 0 <= c < n ==> is_kernel_sum(image, n, (#[trigger] spectrum.at(r, c)).re)
}

/// The terms of the variance of a linear combination of pixels with the coefficients `x`, for
/// pairs of pixels in rows `p` and `q`.
pub open spec fn row_form<F: Bm3dFloat>(
    acf: Matrix<F>,
    x: spec_fn(int, int) -> F,
    n: nat,
    p: int,
    q: int,
) -> F {
    sum_over_pairs(
        |s: int, t: int|
            x(p, s).times_spec(x(q, t)).times_spec(
                acf.at((p - q) % acf.rows as int, (s - t) % acf.cols as int),
            ),
        n,
    )
}

/// The variance of a linear combination of the pixels of an `n x n` patch with the coefficients
/// `x`, under noise with the autocorrelation `acf`.
pub open spec fn variance_of_combination<F: Bm3dFloat>(
    acf: Matrix<F>,
    x: spec_fn(int, int) -> F,
    n: nat,
) -> F {
    sum_over_pairs(|p: int, q: int| row_form(acf, x, n, p, q), n)
}

/// The sum of the squares of the coefficients `x`.
pub open spec fn power_of<F: Bm3dFloat>(x: spec_fn(int, int) -> F, n: nat) -> F {
    sum_over_pairs(|i: int, j: int| x(i, j).times_spec(x(i, j)), n)
}

/// Whether all cells of `m` lie between `lo` and `hi`.
pub open spec fn lies_between<F: Bm3dFloat>(m: Matrix<F>, lo: F, hi: F) -> bool {
    forall|r: int, c: int|
        m.has(r, c) ==> lo.le_spec(#[trigger] m.at(r, c)) && m.at(r, c).le_spec(hi)
}

/// Whether noise whose power spectrum lies between two bounds gives every linear combination of
/// the pixels of an `n x n` patch a variance between these bounds times the power of its
/// coefficients.
/// A Fourier transform does so on a grid that is no smaller than the patch; on a smaller one,
/// pixels of the patch fall together.
pub open spec fn bounded_spectra_bound_variances<
    F: Bm3dFloat,
    Ifft: Fn(&Grid<Complex<F>>) -> Grid<F>,
>(ifft2d: Ifft, rows: nat, cols: nat, n: nat) -> bool {
    forall|psd: Matrix<F>, lo: F, hi: F, acf: Matrix<F>, x: spec_fn(int, int) -> F|
        psd.rows == rows && psd.cols == cols && #[trigger] lies_between(psd, lo, hi)
            && #[trigger] is_ifft(ifft2d, complex_of(psd), acf) ==> lo.times_spec(
            power_of(x, n),
        ).le_spec(#[trigger] variance_of_combination(acf, x, n)) && variance_of_combination(
            acf,
            x,
            n,
        ).le_spec(hi.times_spec(power_of(x, n)))
}

/// The weight of a lag times the length of the window is the number of pairs with that lag.
pub proof fn lemma_weight_counts_pairs<F: Bm3dFloat>(n: int, lag: int)
    requires
        is_exact::<F>(),
        0 < n <= isize::MAX,
        -n < lag < n,
    ensures
        lag_weight::<F>(n, lag).times_spec(F::usize_as_spec(n as usize)) == pair_count::<F>(n, lag),
{
    let distance = if lag < 0 {
        -lag
    } else {
        lag
    };
    let size = F::usize_as_spec(n as usize);
    let d = F::usize_as_spec(distance as usize);
    assert(count_is_exact::<F>(distance as usize));
    lemma_count_positive::<F>(n as usize);
    lemma_over(d, size);
    lemma_minus_scales(F::one_spec(), d.over_spec(size), size);
    lemma_times(size, size, size);
}

/// The value of the autocorrelation at a lag times the kernel there.
spec fn tapered<F: Bm3dFloat>(
    acf: Matrix<F>,
    h: spec_fn(int, int) -> F,
    u: int,
    v: int,
) -> F {
    acf.at(u % acf.rows as int, v % acf.cols as int).times_spec(h(u, v))
}

/// The sum of the folded autocorrelation against a kernel, times the number of pixels of a patch,
/// is the sum over all pairs of pixels of the autocorrelation times the kernel.
proof fn lemma_folded_sum_is_over_pairs<F: Bm3dFloat>(
    acf: Matrix<F>,
    h: spec_fn(int, int) -> F,
    n: nat,
)
    requires
        is_exact::<F>(),
        0 < n <= isize::MAX,
        !acf.is_empty(),
        forall|i: int, j: int| #[trigger] h(i % n as int, j % n as int) == h(i, j),
    ensures
        sum_against(folded_autocorrelation(acf, n as int), h, n).times_spec(
            F::usize_as_spec(n as usize).times_spec(F::usize_as_spec(n as usize)),
        ) == sum_over_pairs(
            |p: int, q: int| sum_over_pairs(|s: int, t: int| tapered(acf, h, p - q, s - t), n),
            n,
        ),
{
    let lags = (2 * n - 1) as nat;
    let center = n - 1;
    let size = F::usize_as_spec(n as usize);
    let kk = size.times_spec(size);
    let to = wrapped_positions(lags, center, n as int);
    let window = windowed_lags(acf, n as int);
    let folded = folded_autocorrelation(acf, n as int);
    let weight = Matrix::from_fn(n, n, |i: int, j: int| h(i, j));
    lemma_wrapped_inside(lags, center, n as int);

    // From the folded cells to the lags.
    let against = Matrix::from_fn(n, n, |i: int, j: int| folded.at(i, j).times_spec(h(i, j)));
    let gathering = weighted_gathering(window, to, to, weight, lags, 0);
    lemma_sum_of_same(against, gathering, n, 0);
    lemma_weighted_gathering(window, to, to, weight, lags, 0);
    let terms = weighted_values(window, to, to, weight);
    let term = |a: int, b: int| terms.at(a, b);
    lemma_total_is_sum_over_pairs(terms, term);

    // The weights count pairs.
    let counted = |a: int, b: int|
        pair_count::<F>(n as int, b - center).times_spec(
            tapered(acf, h, a - center, b - center),
        ).times_spec(pair_count::<F>(n as int, a - center));
    assert forall|a: int, b: int| 0 <= a < lags && 0 <= b < lags implies #[trigger] counted(a, b)
        == term(a, b).times_spec(kk) by {
        let u = a - center;
        let v = b - center;
        let wu = lag_weight::<F>(n as int, u);
        let wv = lag_weight::<F>(n as int, v);
        let y = acf.at(u % acf.rows as int, v % acf.cols as int);
        let z = h(u, v);
        assert(to[a] == u % n as int && to[b] == v % n as int);
        assert(h(u % n as int, v % n as int) == z);
        assert(term(a, b) == wu.times_spec(wv).times_spec(y).times_spec(z));
        lemma_weight_counts_pairs::<F>(n as int, u);
        lemma_weight_counts_pairs::<F>(n as int, v);
        lemma_regroup(wu, wv, y, z, size);
    }
    lemma_pairs_of_multiples(term, counted, kk, lags);

    // The columns.
    let by_lag = |u: int| sum_over_pairs(|s: int, t: int| tapered(acf, h, u, s - t), n);
    let outer = |a: int| sum_to(|b: int| counted(a, b), lags);
    let rows = |a: int| pair_count::<F>(n as int, a - center).times_spec(by_lag(a - center));
    assert forall|a: int| 0 <= a < lags implies #[trigger] outer(a) == rows(a) by {
        let u = a - center;
        let along = |v: int| tapered(acf, h, u, v);
        let inner = |b: int| pair_count::<F>(n as int, b - center).times_spec(along(b - center));
        let pairs = |s: int, t: int| tapered(acf, h, u, s - t);
        lemma_pairs_by_lag(along, pairs, inner, n);
        lemma_sum_of_multiples(
            inner,
            |b: int| counted(a, b),
            pair_count::<F>(n as int, u),
            lags,
        );
        lemma_times(by_lag(u), pair_count::<F>(n as int, u), by_lag(u));
    }
    lemma_same_sum(outer, rows, lags);

    // The rows.
    let row_pairs = |p: int, q: int|
        sum_over_pairs(|s: int, t: int| tapered(acf, h, p - q, s - t), n);
    lemma_pairs_by_lag(by_lag, row_pairs, rows, n);
}

/// A product of four factors and the square of a fifth, regrouped.
proof fn lemma_regroup<F: Bm3dFloat>(a: F, b: F, y: F, z: F, k: F)
    requires
        is_exact::<F>(),
    ensures
        b.times_spec(k).times_spec(y.times_spec(z)).times_spec(a.times_spec(k)) == a.times_spec(
            b,
        ).times_spec(y).times_spec(z).times_spec(k.times_spec(k)),
{
    let yz = y.times_spec(z);
    let ab = a.times_spec(b);
    // The right-hand side is (ab * yz) * (k * k).
    lemma_times(ab, y, z);
    let kk = k.times_spec(k);
    // The left-hand side is (yz * (bk)) * (ak) = yz * ((bk) * (ak)).
    let bk = b.times_spec(k);
    let ak = a.times_spec(k);
    lemma_times(bk, yz, ak);
    lemma_times(yz, bk, ak);
    // (bk) * (ak) = (ab) * (kk).
    lemma_times(b, k, ak);
    lemma_times(k, a, k);
    lemma_times(a, k, k);
    lemma_times(b, a, kk);
    lemma_times(b, a, a);
    lemma_times(k, ak, ak);
    lemma_times(ab, yz, kk);
    lemma_times(yz, ab, kk);
    assert(k.times_spec(ak) == a.times_spec(kk));
    assert(bk.times_spec(ak) == ab.times_spec(kk));
}

/// The sum over all pairs of pixels of the autocorrelation times the real part of a kernel is the
/// variance of two combinations: with the real and with the imaginary part as coefficients.
proof fn lemma_pair_sum_is_variance<F: Bm3dFloat>(
    acf: Matrix<F>,
    h: spec_fn(int, int) -> F,
    g: spec_fn(int, int) -> F,
    n: nat,
)
    requires
        is_exact::<F>(),
        is_fourier_kernel(h, g, n as int),
    ensures
        sum_over_pairs(
            |p: int, q: int| sum_over_pairs(|s: int, t: int| tapered(acf, h, p - q, s - t), n),
            n,
        ) == variance_of_combination(acf, h, n).plus_spec(variance_of_combination(acf, g, n)),
{
    let whole = |p: int, q: int|
        sum_over_pairs(|s: int, t: int| tapered(acf, h, p - q, s - t), n);
    let of_h = |p: int, q: int| row_form(acf, h, n, p, q);
    let of_g = |p: int, q: int| row_form(acf, g, n, p, q);
    assert forall|p: int, q: int| 0 <= p < n && 0 <= q < n implies #[trigger] whole(p, q) == of_h(
        p,
        q,
    ).plus_spec(of_g(p, q)) by {
        let inner = |s: int, t: int| tapered(acf, h, p - q, s - t);
        let inner_h = |s: int, t: int|
            h(p, s).times_spec(h(q, t)).times_spec(
                acf.at((p - q) % acf.rows as int, (s - t) % acf.cols as int),
            );
        let inner_g = |s: int, t: int|
            g(p, s).times_spec(g(q, t)).times_spec(
                acf.at((p - q) % acf.rows as int, (s - t) % acf.cols as int),
            );
        assert forall|s: int, t: int| 0 <= s < n && 0 <= t < n implies #[trigger] inner(s, t)
            == inner_h(s, t).plus_spec(inner_g(s, t)) by {
            let y = acf.at((p - q) % acf.rows as int, (s - t) % acf.cols as int);
            let hh = h(p, s).times_spec(h(q, t));
            let gg = g(p, s).times_spec(g(q, t));
            assert(splits_at(h, g, p, s, q, t));
            lemma_times(hh, gg, y);
            lemma_times(y, hh.plus_spec(gg), y);
        }
        lemma_pairs_of_sums(inner_h, inner_g, inner, n);
    }
    lemma_pairs_of_sums(of_h, of_g, whole, n);
}

/// The powers of the two parts of a kernel add up to the number of pixels.
proof fn lemma_kernel_power<F: Bm3dFloat>(
    h: spec_fn(int, int) -> F,
    g: spec_fn(int, int) -> F,
    n: nat,
)
    requires
        is_exact::<F>(),
        n <= usize::MAX,
        is_fourier_kernel(h, g, n as int),
    ensures
        power_of(h, n).plus_spec(power_of(g, n)) == F::usize_as_spec(n as usize).times_spec(
            F::usize_as_spec(n as usize),
        ),
{
    let one = F::one_spec();
    let size = F::usize_as_spec(n as usize);
    let hh = |i: int, j: int| h(i, j).times_spec(h(i, j));
    let gg = |i: int, j: int| g(i, j).times_spec(g(i, j));
    let ones = |i: int, j: int| one;
    assert forall|i: int, j: int| 0 <= i < n && 0 <= j < n implies #[trigger] ones(i, j) == hh(
        i,
        j,
    ).plus_spec(gg(i, j)) by {
        assert(splits_at(h, g, i, j, i, j));
    }
    lemma_pairs_of_sums(hh, gg, ones, n);
    let outer = |i: int| sum_to(|j: int| ones(i, j), n);
    assert forall|i: int| 0 <= i < n implies #[trigger] outer(i) == size by {
        lemma_sum_of_one_value(|j: int| ones(i, j), one, n);
        lemma_times(size, size, size);
    }
    lemma_sum_of_one_value(outer, size, n);
}

/// Inequalities may be added.
proof fn lemma_plus_ordered<F: Bm3dFloat>(a: F, b: F, c: F, d: F)
    requires
        is_exact::<F>(),
        a.le_spec(b),
        c.le_spec(d),
    ensures
        a.plus_spec(c).le_spec(b.plus_spec(d)),
{
    lemma_order(a, b);
    lemma_order(c, d);
    assert(exact_at(a, b, c));
    assert(exact_at(c, d, b));
    lemma_plus(b, c, c);
    lemma_plus(b, d, d);
    lemma_order(a.plus_spec(c), b.plus_spec(c));
    lemma_order(b.plus_spec(c), b.plus_spec(d));
    lemma_order_chains(a.plus_spec(c), b.plus_spec(c), b.plus_spec(d));
}

/// The variances of the patch coefficients, before they are bounded from below, lie between the
/// bounds of the noise power spectrum.
pub proof fn law_variances_lie_between_the_bounds<
    F: Bm3dFloat,
    Fft: Fn(&Grid<F>) -> Grid<Complex<F>>,
    Ifft: Fn(&Grid<Complex<F>>) -> Grid<F>,
>(
    fft2d: Fft,
    ifft2d: Ifft,
    noise_psd: Matrix<F>,
    patch_size: int,
    spectrum: Matrix<Complex<F>>,
    lo: F,
    hi: F,
)
    requires
        is_exact::<F>(),
        0 < patch_size <= noise_psd.rows,
        patch_size <= noise_psd.cols,
        shape_fits(patch_size, patch_size),
        is_forward_transform(fft2d, patch_size, patch_size),
        is_inverse_transform(ifft2d, noise_psd.rows as int, noise_psd.cols as int),
        sums_against_kernels(fft2d, patch_size as nat),
        bounded_spectra_bound_variances(
            ifft2d,
            noise_psd.rows,
            noise_psd.cols,
            patch_size as nat,
        ),
        lies_between(noise_psd, lo, hi),
        is_patch_spectrum(fft2d, ifft2d, noise_psd, patch_size, spectrum),
    ensures
        lies_between(real_parts(spectrum), lo, hi),
{
    let n = patch_size as nat;
    let size = F::usize_as_spec(n as usize);
    let kk = size.times_spec(size);
    let acf = choose|acf: Matrix<F>|
        {
            &&& #[trigger] is_ifft(ifft2d, complex_of(noise_psd), acf)
            &&& is_fft(fft2d, folded_autocorrelation(acf, patch_size), spectrum)
        };
    let folded = folded_autocorrelation(acf, patch_size);
    lemma_count_positive::<F>(n as usize);
    lemma_times_positive(size, size);
    let parts = real_parts(spectrum);
    assert forall|r: int, c: int| parts.has(r, c) implies lo.le_spec(#[trigger] parts.at(r, c))
        && parts.at(r, c).le_spec(hi) by {
        let v = spectrum.at(r, c).re;
        assert(is_kernel_sum(folded, n, v));
        let (h, g) = choose|h: spec_fn(int, int) -> F, g: spec_fn(int, int) -> F| #[trigger]
            is_fourier_kernel(h, g, n as int) && v == sum_against(folded, h, n);
        lemma_folded_sum_is_over_pairs(acf, h, n);
        lemma_pair_sum_is_variance(acf, h, g, n);
        lemma_kernel_power(h, g, n);
        let ph = power_of(h, n);
        let pg = power_of(g, n);
        let vh = variance_of_combination(acf, h, n);
        let vg = variance_of_combination(acf, g, n);
        lemma_plus_ordered(lo.times_spec(ph), vh, lo.times_spec(pg), vg);
        lemma_plus_ordered(vh, hi.times_spec(ph), vg, hi.times_spec(pg));
        lemma_factor_out(lo, ph, pg);
        lemma_factor_out(hi, ph, pg);
        lemma_times_ordered(lo, v, kk);
        lemma_times_ordered(v, hi, kk);
    }
}

/// A common factor on the left may be taken out of a sum.
proof fn lemma_factor_out<F: Bm3dFloat>(k: F, a: F, b: F)
    requires
        is_exact::<F>(),
    ensures
        k.times_spec(a).plus_spec(k.times_spec(b)) == k.times_spec(a.plus_spec(b)),
{
    lemma_times(a, b, k);
    lemma_times(k, a, a);
    lemma_times(k, b, b);
    lemma_times(k, a.plus_spec(b), a);
}

/// The sum of values that are at most `hi` is at most as many times `hi`.
proof fn lemma_sum_below<F: Bm3dFloat>(m: Matrix<F>, hi: F, a: nat, b: nat)
    requires
        is_exact::<F>(),
        a < m.rows && b <= m.cols || a == m.rows && b == 0,
        m.rows * m.cols <= usize::MAX,
        forall|r: int, c: int| m.has(r, c) ==> (#[trigger] m.at(r, c)).le_spec(hi),
    ensures
        0 <= a * m.cols + b <= m.rows * m.cols,
        partial_sum(m, a, b).le_spec(
            F::usize_as_spec((a * m.cols + b) as usize).times_spec(hi),
        ),
    decreases a, b,
{
    let all = Matrix::from_fn(m.rows, m.cols, |r: int, c: int| hi);
    lemma_sum_of_constant(all, hi, a, b);
    lemma_order(partial_sum(m, a, b), partial_sum(all, a, b));
    if b > 0 {
        let e = (b - 1) as nat;
        lemma_sum_below(m, hi, a, e);
        lemma_sum_of_constant(all, hi, a, e);
        assert(m.has(a as int, b - 1));
        assert(m.at(a as int, b - 1).le_spec(hi));
        lemma_plus_ordered(
            partial_sum(m, a, e),
            partial_sum(all, a, e),
            m.at(a as int, b - 1),
            hi,
        );
    } else if a > 0 {
        lemma_sum_below(m, hi, (a - 1) as nat, m.cols);
        lemma_sum_of_constant(all, hi, (a - 1) as nat, m.cols);
    }
}

/// No variance of a patch coefficient is raised if the lower bound of the noise power spectrum is
/// not below the bounds that variances are raised to.
pub proof fn law_bounded_variances_are_not_raised<
    F: Bm3dFloat,
    Fft: Fn(&Grid<F>) -> Grid<Complex<F>>,
    Ifft: Fn(&Grid<Complex<F>>) -> Grid<F>,
>(
    fft2d: Fft,
    ifft2d: Ifft,
    noise_psd: Matrix<F>,
    patch_size: int,
    spectrum: Matrix<Complex<F>>,
    lo: F,
    hi: F,
)
    requires
        is_exact::<F>(),
        0 < patch_size <= noise_psd.rows,
        patch_size <= noise_psd.cols,
        shape_fits(patch_size, patch_size),
        is_forward_transform(fft2d, patch_size, patch_size),
        is_inverse_transform(ifft2d, noise_psd.rows as int, noise_psd.cols as int),
        sums_against_kernels(fft2d, patch_size as nat),
        bounded_spectra_bound_variances(
            ifft2d,
            noise_psd.rows,
            noise_psd.cols,
            patch_size as nat,
        ),
        lies_between(noise_psd, lo, hi),
        hi.times_spec(F::from_decimal_spec(1, 6)).le_spec(lo),
        F::from_decimal_spec(1, 24).le_spec(lo),
        is_patch_spectrum(fft2d, ifft2d, noise_psd, patch_size, spectrum),
    ensures
        lies_between(real_parts(spectrum), lo, hi),
        forall|r: int, c: int|
            spectrum.has(r, c) ==> variance_floor(spectrum).le_spec(
                (#[trigger] spectrum.at(r, c)).re,
            ),
{
    let n = patch_size as nat;
    law_variances_lie_between_the_bounds(
        fft2d,
        ifft2d,
        noise_psd,
        patch_size,
        spectrum,
        lo,
        hi,
    );
    let parts = real_parts(spectrum);
    let ratio = F::from_decimal_spec(1, 6);
    let least = F::from_decimal_spec(1, 24);
    let floor = variance_floor(spectrum);
    // The mean variance is at most hi.
    assert(n * n > 0) by (nonlinear_arith)
        requires
            n > 0,
    ;
    let count = F::usize_as_spec((n * n) as usize);
    lemma_count_positive::<F>((n * n) as usize);
    assert(spectrum.rows == n && spectrum.cols == n);
    assert forall|r: int, c: int| parts.has(r, c) implies (#[trigger] parts.at(r, c)).le_spec(
        hi,
    ) by {}
    lemma_sum_below(parts, hi, n, 0);
    let mean = total(parts).over_spec(count);
    lemma_over(total(parts), count);
    lemma_times(count, hi, hi);
    lemma_times_ordered(mean, hi, count);
    lemma_decimal::<F>(1, 6);
    lemma_times_ordered(mean, hi, ratio);
    lemma_order_chains(mean.times_spec(ratio), hi.times_spec(ratio), lo);
    lemma_max(mean.times_spec(ratio), least);
    assert(floor.le_spec(lo));
    assert forall|r: int, c: int| spectrum.has(r, c) implies floor.le_spec(
        (#[trigger] spectrum.at(r, c)).re,
    ) by {
        let v = spectrum.at(r, c).re;
        assert(parts.has(r, c) && parts.at(r, c) == v);
        lemma_order_chains(floor, lo, v);
    }
}

/// The squares of the noise levels per patch coefficient lie between the bounds of the noise power
/// spectrum, if its lower bound is not below the bounds that variances are raised to and the
/// roots are exact. No variance is raised then.
pub proof fn law_squared_sigmas_lie_between_the_bounds<
    F: Bm3dFloat,
    Fft: Fn(&Grid<F>) -> Grid<Complex<F>>,
    Ifft: Fn(&Grid<Complex<F>>) -> Grid<F>,
>(
    fft2d: Fft,
    ifft2d: Ifft,
    noise_psd: Matrix<F>,
    patch_size: int,
    spectrum: Matrix<Complex<F>>,
    lo: F,
    hi: F,
)
    requires
        is_exact::<F>(),
        0 < patch_size <= noise_psd.rows,
        patch_size <= noise_psd.cols,
        shape_fits(patch_size, patch_size),
        is_forward_transform(fft2d, patch_size, patch_size),
        is_inverse_transform(ifft2d, noise_psd.rows as int, noise_psd.cols as int),
        sums_against_kernels(fft2d, patch_size as nat),
        bounded_spectra_bound_variances(
            ifft2d,
            noise_psd.rows,
            noise_psd.cols,
            patch_size as nat,
        ),
        lies_between(noise_psd, lo, hi),
        hi.times_spec(F::from_decimal_spec(1, 6)).le_spec(lo),
        F::from_decimal_spec(1, 24).le_spec(lo),
        is_patch_spectrum(fft2d, ifft2d, noise_psd, patch_size, spectrum),
        forall|r: int, c: int|
            spectrum.has(r, c) ==> {
                let v = (#[trigger] spectrum.at(r, c)).re;
                v.sqrt_spec().times_spec(v.sqrt_spec()) == v
            },
    ensures
        lies_between(coefficient_sigmas(spectrum).map(|s: F| s.times_spec(s)), lo, hi),
        forall|r: int, c: int|
            spectrum.has(r, c) ==> variance_floor(spectrum).le_spec(
                (#[trigger] spectrum.at(r, c)).re,
            ),
{
    law_bounded_variances_are_not_raised(
        fft2d,
        ifft2d,
        noise_psd,
        patch_size,
        spectrum,
        lo,
        hi,
    );
    let parts = real_parts(spectrum);
    let floor = variance_floor(spectrum);
    let squares = coefficient_sigmas(spectrum).map(|s: F| s.times_spec(s));
    assert forall|r: int, c: int| squares.has(r, c) implies lo.le_spec(
        #[trigger] squares.at(r, c),
    ) && squares.at(r, c).le_spec(hi) by {
        let v = spectrum.at(r, c).re;
        assert(parts.has(r, c) && parts.at(r, c) == v);
        lemma_max(v, floor);
        lemma_order(v, floor);
        lemma_order(floor, v);
        assert(squares.at(r, c) == v);
    }
}

/// The squares of the noise levels of a bounded noise power spectrum average to its mean, the
/// pixel variance of the noise.
pub proof fn law_bounded_squared_sigmas_average_to_the_pixel_variance<
    F: Bm3dFloat,
    Fft: Fn(&Grid<F>) -> Grid<Complex<F>>,
    Ifft: Fn(&Grid<Complex<F>>) -> Grid<F>,
>(
    fft2d: Fft,
    ifft2d: Ifft,
    noise_psd: Matrix<F>,
    patch_size: int,
    spectrum: Matrix<Complex<F>>,
    lo: F,
    hi: F,
)
    requires
        is_exact::<F>(),
        0 < patch_size <= noise_psd.rows,
        patch_size <= noise_psd.cols,
        shape_fits(patch_size, patch_size),
        is_forward_transform(fft2d, patch_size, patch_size),
        is_inverse_transform(ifft2d, noise_psd.rows as int, noise_psd.cols as int),
        sums_against_kernels(fft2d, patch_size as nat),
        bounded_spectra_bound_variances(
            ifft2d,
            noise_psd.rows,
            noise_psd.cols,
            patch_size as nat,
        ),
        lies_between(noise_psd, lo, hi),
        hi.times_spec(F::from_decimal_spec(1, 6)).le_spec(lo),
        F::from_decimal_spec(1, 24).le_spec(lo),
        is_patch_spectrum(fft2d, ifft2d, noise_psd, patch_size, spectrum),
        forall|r: int, c: int|
            spectrum.has(r, c) ==> {
                let v = (#[trigger] spectrum.at(r, c)).re;
                v.sqrt_spec().times_spec(v.sqrt_spec()) == v
            },
        first_cell_is_mean(ifft2d, noise_psd.rows, noise_psd.cols),
        mean_is_first_cell(fft2d, patch_size as nat, patch_size as nat),
    ensures
        mean_of(coefficient_sigmas(spectrum).map(|s: F| s.times_spec(s))) == mean_of(noise_psd),
{
    law_bounded_variances_are_not_raised(
        fft2d,
        ifft2d,
        noise_psd,
        patch_size,
        spectrum,
        lo,
        hi,
    );
    assert forall|r: int, c: int| spectrum.has(r, c) implies {
        let v = (#[trigger] spectrum.at(r, c)).re;
        variance_floor(spectrum).le_spec(v) && v.sqrt_spec().times_spec(v.sqrt_spec()) == v
    } by {}
    law_squared_sigmas_average_to_the_pixel_variance(
        fft2d,
        ifft2d,
        noise_psd,
        patch_size,
        spectrum,
    );
}

} // verus!
