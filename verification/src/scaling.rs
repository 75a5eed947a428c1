//! The regularization does not depend on the range of the data.
//!
//! The laws here are stated for scalars that compute exactly.

use crate::complex::Complex;
use crate::config::Bm3dDeblurConfig;
use crate::deblur::{first_filter, second_filter};
use crate::exact::{
    is_exact, lemma_decimal, lemma_max, lemma_max_scales, lemma_minus_scales, lemma_order,
    lemma_order_chains, lemma_over_reduces, lemma_square_of_product, lemma_times,
    lemma_times_ordered, lemma_times_positive, lemma_times_zero,
};
use crate::float_trait::Bm3dFloat;
use crate::grid::{lemma_same_matrix, total, Matrix};
use crate::levels::{inverse_count, mean_of, squared_deviations, variance_of};
use crate::psf::epsilon;
use crate::spectral::{
    inverse_regularization, min_regularization, signal_power, signal_psd, wiener_filter,
    wiener_regularization, wiener_response,
};
use crate::sums::lemma_sum_scales;
use vstd::prelude::*;

verus! {

/// The matrix with every cell multiplied by `k`.
pub open spec fn scaled_by<F: Bm3dFloat>(m: Matrix<F>, k: F) -> Matrix<F> {
    m.map(|x: F| x.times_spec(k))
}

/// The spectrum with every entry multiplied by `k`.
pub open spec fn spectrum_scaled_by<F: Bm3dFloat>(
    spectrum: Matrix<Complex<F>>,
    k: F,
) -> Matrix<Complex<F>> {
    spectrum.map(|z: Complex<F>| z.scaled_spec(k))
}

/// The estimated power of the signal before it is bounded from below by [`epsilon`].
pub open spec fn unbounded_power<F: Bm3dFloat>(variance: F, sigma_sq: F) -> F {
    variance.minus_spec(sigma_sq).max_spec(variance.times_spec(F::from_decimal_spec(5, 2)))
}

/// The regularization of the first stage stays the same when all powers are multiplied by one
/// positive factor, as long as the power of the signal does not fall below the bound that
/// guards its division.
pub proof fn law_first_regularization_is_scale_invariant<F: Bm3dFloat>(
    reg_ri: F,
    variance: F,
    sigma_sq: F,
    k: F,
)
    requires
        is_exact::<F>(),
        F::zero_spec().lt_spec(k),
        epsilon::<F>().le_spec(unbounded_power(variance, sigma_sq)),
        epsilon::<F>().le_spec(unbounded_power(variance, sigma_sq).times_spec(k)),
    ensures
        inverse_regularization(reg_ri, variance.times_spec(k), sigma_sq.times_spec(k))
            == inverse_regularization(reg_ri, variance, sigma_sq),
{
    let zero = F::zero_spec();
    let share = F::from_decimal_spec(5, 2);
    let power = unbounded_power(variance, sigma_sq);
    lemma_minus_scales(variance, sigma_sq, k);
    lemma_times(variance, k, share);
    lemma_times(k, share, k);
    lemma_times(variance, share, k);
    lemma_max_scales(variance.minus_spec(sigma_sq), variance.times_spec(share), k);
    assert(unbounded_power(variance.times_spec(k), sigma_sq.times_spec(k)) == power.times_spec(k));
    lemma_order(epsilon(), power);
    lemma_order(epsilon(), power.times_spec(k));
    lemma_max(power, epsilon());
    lemma_max(power.times_spec(k), epsilon());
    lemma_order(power, epsilon());
    lemma_order(power.times_spec(k), epsilon());
    assert(signal_power(variance, sigma_sq) == power);
    assert(signal_power(variance.times_spec(k), sigma_sq.times_spec(k)) == power.times_spec(k));
    lemma_decimal::<F>(1, 12);
    lemma_order(zero, epsilon());
    lemma_order_chains(zero, epsilon(), power);
    lemma_order(zero, power);
    lemma_order(zero, k);
    lemma_times(reg_ri, sigma_sq, k);
    lemma_over_reduces(reg_ri.times_spec(sigma_sq), power, k);
}

/// The regularization of the second stage grows with the powers, so that the Wiener inverse
/// stays the same when all powers are multiplied by one positive factor.
pub proof fn law_wiener_inverse_is_scale_invariant<F: Bm3dFloat>(
    transfer: Matrix<Complex<F>>,
    reg_rwi: F,
    sigma_sq: F,
    psd: Matrix<F>,
    inv_n: F,
    k: F,
)
    requires
        is_exact::<F>(),
        F::zero_spec().lt_spec(k),
        transfer.rows <= psd.rows,
        transfer.cols <= psd.cols,
    ensures
        wiener_filter(
            transfer,
            scaled_by(psd, k),
            wiener_regularization(reg_rwi, sigma_sq.times_spec(k), scaled_by(psd, k), inv_n),
        ) == wiener_filter(
            transfer,
            psd,
            wiener_regularization(reg_rwi, sigma_sq, psd, inv_n),
        ),
{
    let scaled = scaled_by(psd, k);
    let floor = min_regularization::<F>();
    let sum = total(psd);
    let reg = wiener_regularization(reg_rwi, sigma_sq, psd, inv_n);
    let reg_scaled = wiener_regularization(reg_rwi, sigma_sq.times_spec(k), scaled, inv_n);
    lemma_sum_scales(psd, scaled, k, psd.rows, 0);
    lemma_times(reg_rwi, sigma_sq, k);
    lemma_times(sum, k, inv_n);
    lemma_times(k, inv_n, k);
    lemma_times(sum, inv_n, k);
    lemma_times(floor, sum.times_spec(inv_n), k);
    lemma_max_scales(
        reg_rwi.times_spec(sigma_sq),
        floor.times_spec(sum.times_spec(inv_n)),
        k,
    );
    assert(reg_scaled == reg.times_spec(k));
    let a = wiener_filter(transfer, scaled, reg_scaled);
    let b = wiener_filter(transfer, psd, reg);
    assert forall|r: int, c: int| a.has(r, c) implies #[trigger] a.at(r, c) == b.at(r, c) by {
        lemma_response_scales(transfer.at(r, c), psd.at(r, c), reg, k);
    }
    lemma_same_matrix(a, b);
}

/// The response of the Wiener inverse at one frequency does not depend on a common factor.
proof fn lemma_response_scales<F: Bm3dFloat>(v: Complex<F>, psd: F, reg: F, k: F)
    requires
        is_exact::<F>(),
        F::zero_spec().lt_spec(k),
    ensures
        wiener_response(v, psd.times_spec(k), reg.times_spec(k)) == wiener_response(v, psd, reg),
{
    let zero = F::zero_spec();
    let gain = v.norm_sqr_spec();
    let denom = gain.times_spec(psd).plus_spec(reg);
    lemma_times(gain, psd, k);
    lemma_times(gain.times_spec(psd), reg, k);
    assert(gain.times_spec(psd.times_spec(k)).plus_spec(reg.times_spec(k)) == denom.times_spec(k));
    lemma_times_ordered(zero, denom, k);
    lemma_times_zero(k);
    lemma_order(zero, denom);
    lemma_order(zero, k);
    if zero.lt_spec(denom) {
        let w = v.conj_spec();
        lemma_times(w.re, psd, k);
        lemma_times(w.im, psd, k);
        lemma_over_reduces(w.re.times_spec(psd), denom, k);
        lemma_over_reduces(w.im.times_spec(psd), denom, k);
    }
}

/// The mean grows with the image, and the variance with its square.
pub proof fn law_moments_scale<F: Bm3dFloat>(image: Matrix<F>, k: F)
    requires
        is_exact::<F>(),
    ensures
        mean_of(scaled_by(image, k)) == mean_of(image).times_spec(k),
        variance_of(scaled_by(image, k)) == variance_of(image).times_spec(k.times_spec(k)),
{
    let scaled = scaled_by(image, k);
    if image.is_empty() {
        lemma_times_zero(k);
        lemma_times_zero(k.times_spec(k));
    } else {
        let inv_n: F = inverse_count(image);
        let mean = mean_of(image);
        lemma_sum_scales(image, scaled, k, image.rows, 0);
        lemma_times(total(image), k, inv_n);
        lemma_times(k, inv_n, k);
        lemma_times(total(image), inv_n, k);
        let before = squared_deviations(image, mean);
        let after = squared_deviations(scaled, mean.times_spec(k));
        let kk = k.times_spec(k);
        assert forall|r: int, c: int| before.has(r, c) implies #[trigger] after.at(r, c)
            == before.at(r, c).times_spec(kk) by {
            let x = image.at(r, c);
            lemma_minus_scales(x, mean, k);
            lemma_square_of_product(x.minus_spec(mean), k);
        }
        lemma_sum_scales(before, after, kk, image.rows, 0);
        lemma_times(total(before), kk, inv_n);
        lemma_times(kk, inv_n, kk);
        lemma_times(total(before), inv_n, kk);
    }
}

/// The power spectrum grows with the square of the spectrum.
proof fn lemma_power_scales<F: Bm3dFloat>(spectrum: Matrix<Complex<F>>, inv_n: F, k: F)
    requires
        is_exact::<F>(),
    ensures
        signal_psd(spectrum_scaled_by(spectrum, k), inv_n) == scaled_by(
            signal_psd(spectrum, inv_n),
            k.times_spec(k),
        ),
{
    let a = signal_psd(spectrum_scaled_by(spectrum, k), inv_n);
    let b = scaled_by(signal_psd(spectrum, inv_n), k.times_spec(k));
    let kk = k.times_spec(k);
    assert forall|r: int, c: int| a.has(r, c) implies #[trigger] a.at(r, c) == b.at(r, c) by {
        let z = spectrum.at(r, c);
        let power = z.norm_sqr_spec();
        assert(spectrum_scaled_by(spectrum, k).at(r, c) == z.scaled_spec(k));
        lemma_square_of_product(z.re, k);
        lemma_square_of_product(z.im, k);
        lemma_times(z.re.times_spec(z.re), z.im.times_spec(z.im), kk);
        assert(z.scaled_spec(k).norm_sqr_spec() == power.times_spec(kk));
        lemma_times(power, kk, inv_n);
        lemma_times(kk, inv_n, kk);
        lemma_times(power, inv_n, kk);
    }
    lemma_same_matrix(a, b);
}

/// Both inverse filters stay the same when the image, the noise level and the spectrum of the
/// pilot are multiplied by one positive factor: the regularization factors do not have to be
/// tuned to the range of the data. The power of the signal must not fall below the bound that
/// guards its division.
pub proof fn law_filters_are_scale_invariant<F: Bm3dFloat>(
    observed: Matrix<F>,
    sigma: F,
    config: Bm3dDeblurConfig<F>,
    transfer: Matrix<Complex<F>>,
    pilot_spectrum: Matrix<Complex<F>>,
    k: F,
)
    requires
        is_exact::<F>(),
        F::zero_spec().lt_spec(k),
        transfer.rows == pilot_spectrum.rows,
        transfer.cols == pilot_spectrum.cols,
        epsilon::<F>().le_spec(unbounded_power(variance_of(observed), sigma.times_spec(sigma))),
        epsilon::<F>().le_spec(
            unbounded_power(variance_of(observed), sigma.times_spec(sigma)).times_spec(
                k.times_spec(k),
            ),
        ),
    ensures
        first_filter(scaled_by(observed, k), sigma.times_spec(k), config, transfer) == first_filter(
            observed,
            sigma,
            config,
            transfer,
        ),
        second_filter(
            scaled_by(observed, k),
            sigma.times_spec(k),
            config,
            transfer,
            spectrum_scaled_by(pilot_spectrum, k),
        ) == second_filter(observed, sigma, config, transfer, pilot_spectrum),
{
    let kk = k.times_spec(k);
    let sigma_sq = sigma.times_spec(sigma);
    let inv_n: F = inverse_count(observed);
    lemma_times_positive(k, k);
    law_moments_scale(observed, k);
    lemma_square_of_product(sigma, k);
    law_first_regularization_is_scale_invariant(
        config.reg_ri,
        variance_of(observed),
        sigma_sq,
        kk,
    );
    lemma_power_scales(pilot_spectrum, inv_n, k);
    law_wiener_inverse_is_scale_invariant(
        transfer,
        config.reg_rwi,
        sigma_sq,
        signal_psd(pilot_spectrum, inv_n),
        inv_n,
        kk,
    );
}

} // verus!
