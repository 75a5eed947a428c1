//! What the two passes of the collaborative filter are given.
//!
//! The laws here are stated for scalars that compute exactly. They describe the images and the
//! noise levels that a run hands to the filter by what has to hold of them, frequency by frequency
//! and pixel by pixel.

use crate::complex::Complex;
use crate::config::{law_valid_settings, Bm3dDeblurConfig};
use crate::deblur::{
    first_filter, is_deblurring, is_first_stage, is_second_stage, is_stage, pilot_of, second_filter,
};
use crate::exact::{
    exact_at, is_exact, lemma_count_positive, lemma_decimal, lemma_max, lemma_minus,
    lemma_minus_scales, lemma_order, lemma_order_chains, lemma_over, lemma_plus,
    lemma_plus_positive, lemma_signs, lemma_square_not_negative, lemma_square_of_product,
    lemma_times, lemma_times_positive, lemma_times_zero,
};
use crate::float_trait::Bm3dFloat;
use crate::grid::{total, Grid, Matrix, MAX_CELLS};
use crate::kernel::{is_filter_outcome, operations_fit, Bm3dKernelConfig, Bm3dMode, Operations};
use crate::levels::{lowered, mean_of, raised, variance_of};
use crate::responses::{
    law_first_inversion_undoes_the_blur, law_second_inversion_undoes_the_blur,
    law_signal_power_is_shared_out, lemma_power,
};
use crate::spectral::{
    filtered, filtered_noise, inverse_regularization, is_fft, is_ifft, is_patch_noise_sigma,
    signal_power, signal_psd, wiener_regularization,
};
use crate::white_noise::constant;
use vstd::prelude::*;

verus! {

/// What holds of the frequency `p` that an inversion makes of the observed frequency `z`, where
/// `v` is the transfer function, `s` the power of the signal and `reg` the regularization: `p`
/// times `|v|^2 * s + reg` is `conj(v) * z * s`, written in parts.
pub open spec fn inverts_at<F: Bm3dFloat>(
    z: Complex<F>,
    v: Complex<F>,
    s: F,
    reg: F,
    p: Complex<F>,
) -> bool {
    let power = v.re.times_spec(v.re).plus_spec(v.im.times_spec(v.im));
    let denominator = power.times_spec(s).plus_spec(reg);
    &&& p.re.times_spec(denominator) == v.re.times_spec(z.re).plus_spec(
        v.im.times_spec(z.im),
    ).times_spec(s)
    &&& p.im.times_spec(denominator) == v.re.times_spec(z.im).minus_spec(
        v.im.times_spec(z.re),
    ).times_spec(s)
    &&& denominator == F::zero_spec() ==> p.re == F::zero_spec() && p.im == F::zero_spec()
}

/// What holds of the power `n` that white noise of standard deviation `sigma` has at a frequency
/// behind that inversion: `n` times the square of `|v|^2 * s + reg` is `sigma^2 * |v|^2 * s^2`.
pub open spec fn colours_at<F: Bm3dFloat>(v: Complex<F>, s: F, reg: F, sigma: F, n: F) -> bool {
    let power = v.re.times_spec(v.re).plus_spec(v.im.times_spec(v.im));
    let denominator = power.times_spec(s).plus_spec(reg);
    &&& n.times_spec(denominator.times_spec(denominator)) == sigma.times_spec(sigma).times_spec(
        power.times_spec(s.times_spec(s)),
    )
    &&& denominator == F::zero_spec() ==> n == F::zero_spec()
}

/// Whether `mean` is the mean of all pixels: times their number it is their sum.
pub open spec fn averages<F: Bm3dFloat>(image: Matrix<F>, mean: F) -> bool {
    mean.times_spec(F::usize_as_spec((image.rows * image.cols) as usize)) == total(image)
}

/// Whether `centered` has the shape of `image`, and gives it back once `level` is added to it.
pub open spec fn is_below<F: Bm3dFloat>(centered: Matrix<F>, level: F, image: Matrix<F>) -> bool {
    &&& centered.rows == image.rows
    &&& centered.cols == image.cols
    &&& forall|r: int, c: int|
        image.has(r, c) ==> #[trigger] centered.at(r, c).plus_spec(level) == image.at(r, c)
}

/// Whether `noisy` may be the observation with its blur undone: its mean is taken away, its
/// frequencies are inverted, and the mean is added again.
pub open spec fn is_inverted<
    F: Bm3dFloat,
    Fft: Fn(&Grid<F>) -> Grid<Complex<F>>,
    Ifft: Fn(&Grid<Complex<F>>) -> Grid<F>,
>(
    fft2d: Fft,
    ifft2d: Ifft,
    observed: Matrix<F>,
    transfer: Matrix<Complex<F>>,
    power: Matrix<F>,
    reg: F,
    noisy: Matrix<F>,
) -> bool {
    exists|
        mean: F,
        centered: Matrix<F>,
        spectrum: Matrix<Complex<F>>,
        product: Matrix<Complex<F>>,
        inverted: Matrix<F>,
    |
        {
            &&& averages(observed, mean)
            &&& #[trigger] is_below(centered, mean, observed)
            &&& #[trigger] is_fft(fft2d, centered, spectrum)
            &&& product.rows == observed.rows
            &&& product.cols == observed.cols
            &&& forall|r: int, c: int|
                observed.has(r, c) ==> inverts_at(
                    spectrum.at(r, c),
                    transfer.at(r, c),
                    power.at(r, c),
                    reg,
                    #[trigger] product.at(r, c),
                )
            &&& #[trigger] is_ifft(ifft2d, product, inverted)
            &&& is_below(inverted, mean, noisy)
        }
}

/// Whether `sigmas` may describe, per patch coefficient, the noise behind the inversion.
pub open spec fn describes_noise<
    F: Bm3dFloat,
    Fft: Fn(&Grid<F>) -> Grid<Complex<F>>,
    Ifft: Fn(&Grid<Complex<F>>) -> Grid<F>,
>(
    fft2d: Fft,
    ifft2d: Ifft,
    transfer: Matrix<Complex<F>>,
    power: Matrix<F>,
    reg: F,
    sigma: F,
    patch_size: int,
    sigmas: Matrix<F>,
) -> bool {
    exists|noise: Matrix<F>|
        {
            &&& noise.rows == transfer.rows
            &&& noise.cols == transfer.cols
            &&& forall|r: int, c: int|
                transfer.has(r, c) ==> colours_at(
                    transfer.at(r, c),
                    power.at(r, c),
                    reg,
                    sigma,
                    #[trigger] noise.at(r, c),
                )
            &&& #[trigger] is_patch_noise_sigma(fft2d, ifft2d, noise, patch_size, sigmas)
        }
}

/// Whether `outcome` is one that a pass may have: the filter is given the observation with its
/// blur undone, the noise that is left in it, and the settings with the given threshold. Without a
/// pilot the noisy image is its own.
pub open spec fn is_pass<
    F: Bm3dFloat,
    Fft: Fn(&Grid<F>) -> Grid<Complex<F>>,
    Ifft: Fn(&Grid<Complex<F>>) -> Grid<F>,
    Step: Fn(
        &Grid<F>,
        &Grid<F>,
        Bm3dMode,
        &Grid<F>,
        &Grid<F>,
        Option<&Grid<F>>,
        &Bm3dKernelConfig<F>,
    ) -> Result<Grid<F>, String>,
    Robust: Fn(&Vec<F>) -> F,
>(
    ops: Operations<Fft, Ifft, Step, Robust>,
    observed: Matrix<F>,
    sigma: F,
    config: Bm3dDeblurConfig<F>,
    transfer: Matrix<Complex<F>>,
    power: Matrix<F>,
    reg: F,
    pilot: Option<Matrix<F>>,
    mode: Bm3dMode,
    threshold: F,
    outcome: Result<Matrix<F>, Seq<char>>,
) -> bool {
    exists|noisy: Matrix<F>, guide: Matrix<F>, sigmas: Matrix<F>, settings: Bm3dKernelConfig<F>|
        {
            &&& is_inverted(ops.fft2d, ops.ifft2d, observed, transfer, power, reg, noisy)
            &&& describes_noise(
                ops.fft2d,
                ops.ifft2d,
                transfer,
                power,
                reg,
                sigma,
                config.patch_size as int,
                sigmas,
            )
            &&& settings.sigma_random == F::zero_spec()
            &&& settings.threshold == threshold
            &&& settings.patch_size == config.patch_size
            &&& settings.step_size == config.step_size
            &&& settings.search_window == config.search_window
            &&& settings.max_matches == config.max_matches
            &&& settings.use_hadamard_fast_path == Some(false)
            &&& guide == match pilot {
                Some(p) => p,
                None => noisy,
            }
            &&& #[trigger] is_filter_outcome(
                ops.run_bm3d_step_colored_noise,
                noisy,
                guide,
                mode,
                sigmas,
                settings,
                outcome,
            )
        }
}

/// Whether `power` is the power spectrum of `pilot` about the mean of `observed`: times the number
/// of pixels it is the squared magnitude of every frequency.
pub open spec fn is_power_about_mean<F: Bm3dFloat, Fft: Fn(&Grid<F>) -> Grid<Complex<F>>>(
    fft2d: Fft,
    observed: Matrix<F>,
    pilot: Matrix<F>,
    power: Matrix<F>,
) -> bool {
    exists|mean: F, centered: Matrix<F>, spectrum: Matrix<Complex<F>>|
        {
            &&& averages(observed, mean)
            &&& #[trigger] is_below(centered, mean, pilot)
            &&& #[trigger] is_fft(fft2d, centered, spectrum)
            &&& power.rows == observed.rows
            &&& power.cols == observed.cols
            &&& forall|r: int, c: int|
                observed.has(r, c) ==> (#[trigger] power.at(r, c)).times_spec(
                    F::usize_as_spec((observed.rows * observed.cols) as usize),
                ) == spectrum.at(r, c).re.times_spec(spectrum.at(r, c).re).plus_spec(
                    spectrum.at(r, c).im.times_spec(spectrum.at(r, c).im),
                )
        }
}

/// A response that turns the transfer function into a real number inverts a frequency and colours
/// the noise as it should.
proof fn lemma_response_inverts<F: Bm3dFloat>(
    z: Complex<F>,
    v: Complex<F>,
    s: F,
    reg: F,
    w: Complex<F>,
    sigma: F,
)
    requires
        is_exact::<F>(),
        ({
            let power = v.re.times_spec(v.re).plus_spec(v.im.times_spec(v.im));
            let d = power.times_spec(s).plus_spec(reg);
            &&& w.re.times_spec(d) == v.re.times_spec(s)
            &&& w.im.times_spec(d) == v.im.neg_spec().times_spec(s)
            &&& d == F::zero_spec() ==> w.re == F::zero_spec() && w.im == F::zero_spec()
        }),
    ensures
        inverts_at(z, v, s, reg, z.times_spec(w)),
        colours_at(v, s, reg, sigma, sigma.times_spec(sigma).times_spec(w.norm_sqr_spec())),
{
    let zero = F::zero_spec();
    let power = v.re.times_spec(v.re).plus_spec(v.im.times_spec(v.im));
    let d = power.times_spec(s).plus_spec(reg);
    let n = v.im.neg_spec();
    // The real part.
    let aa = z.re.times_spec(w.re);
    let bb = z.im.times_spec(w.im);
    lemma_minus_scales(aa, bb, d);
    lemma_times(z.re, w.re, d);
    lemma_times(z.re, v.re, s);
    lemma_times(z.im, w.im, d);
    lemma_times(z.im, n, s);
    lemma_signs(z.im, v.im);
    let y = z.im.times_spec(v.im);
    lemma_signs(y, s);
    let x = z.re.times_spec(v.re);
    assert(aa.times_spec(d) == x.times_spec(s));
    assert(bb.times_spec(d) == y.times_spec(s).neg_spec());
    assert(exact_at(x.times_spec(s), y.times_spec(s).neg_spec(), zero));
    lemma_signs(y.times_spec(s), s);
    lemma_times(x, y, s);
    lemma_times(z.im, v.im, s);
    assert(aa.minus_spec(bb).times_spec(d) == x.plus_spec(y).times_spec(s));
    // The imaginary part.
    let cc = z.re.times_spec(w.im);
    let ee = z.im.times_spec(w.re);
    lemma_times(cc, ee, d);
    lemma_times(z.re, w.im, d);
    lemma_times(z.re, n, s);
    lemma_signs(z.re, v.im);
    let t = z.re.times_spec(v.im);
    lemma_signs(t, s);
    lemma_times(z.im, w.re, d);
    lemma_times(z.im, v.re, s);
    let u = z.im.times_spec(v.re);
    assert(cc.times_spec(d) == t.times_spec(s).neg_spec());
    assert(ee.times_spec(d) == u.times_spec(s));
    lemma_plus(t.times_spec(s).neg_spec(), u.times_spec(s), zero);
    assert(exact_at(u.times_spec(s), t.times_spec(s), zero));
    lemma_minus_scales(u, t, s);
    lemma_times(z.re, v.im, s);
    assert(cc.plus_spec(ee).times_spec(d) == u.minus_spec(t).times_spec(s));
    // The noise.
    let f = w.norm_sqr_spec();
    let dd = d.times_spec(d);
    let ss = s.times_spec(s);
    lemma_times(w.re.times_spec(w.re), w.im.times_spec(w.im), dd);
    lemma_square_of_product(w.re, d);
    lemma_square_of_product(w.im, d);
    lemma_square_of_product(v.re, s);
    lemma_square_of_product(n, s);
    lemma_signs(v.im, v.im);
    lemma_signs(v.im, n);
    lemma_signs(v.im.times_spec(v.im), s);
    assert(n.times_spec(n) == v.im.times_spec(v.im));
    lemma_times(v.re.times_spec(v.re), v.im.times_spec(v.im), ss);
    assert(f.times_spec(dd) == power.times_spec(ss));
    lemma_times(sigma.times_spec(sigma), f, dd);
    if d == zero {
        lemma_times_zero(z.re);
        lemma_times_zero(z.im);
        lemma_times_zero(zero);
        lemma_minus(zero, zero);
        lemma_plus(zero, zero, zero);
        lemma_times_zero(sigma.times_spec(sigma));
    }
}

/// The mean is what its name says, and taking it away is undone by adding it.
proof fn lemma_centering<F: Bm3dFloat>(image: Matrix<F>, other: Matrix<F>, mean: F)
    requires
        is_exact::<F>(),
        !image.is_empty(),
        image.rows * image.cols <= MAX_CELLS,
        mean == mean_of(image),
    ensures
        averages(image, mean),
        is_below(lowered(other, mean), mean, other),
        is_below(other, mean, raised(other, mean)),
{
    let n = image.rows * image.cols;
    assert(n >= 1) by (nonlinear_arith)
        requires
            n == image.rows * image.cols,
            image.rows >= 1,
            image.cols >= 1,
    ;
    let count = F::usize_as_spec(n as usize);
    let share = F::one_spec().over_spec(count);
    lemma_count_positive::<F>(n as usize);
    lemma_over(F::one_spec(), count);
    lemma_times(total(image), share, count);
    lemma_times(total(image), share, share);
    let low = lowered(other, mean);
    assert forall|r: int, c: int| other.has(r, c) implies #[trigger] low.at(r, c).plus_spec(mean)
        == other.at(r, c) by {
        lemma_minus(other.at(r, c), mean);
    }
}

/// A stage is a pass if its filter undoes the blur at every frequency.
proof fn lemma_stage_is_pass<
    F: Bm3dFloat,
    Fft: Fn(&Grid<F>) -> Grid<Complex<F>>,
    Ifft: Fn(&Grid<Complex<F>>) -> Grid<F>,
    Step: Fn(
        &Grid<F>,
        &Grid<F>,
        Bm3dMode,
        &Grid<F>,
        &Grid<F>,
        Option<&Grid<F>>,
        &Bm3dKernelConfig<F>,
    ) -> Result<Grid<F>, String>,
    Robust: Fn(&Vec<F>) -> F,
>(
    ops: Operations<Fft, Ifft, Step, Robust>,
    observed: Matrix<F>,
    sigma: F,
    config: Bm3dDeblurConfig<F>,
    transfer: Matrix<Complex<F>>,
    spectrum: Matrix<Complex<F>>,
    filter: Matrix<Complex<F>>,
    power: Matrix<F>,
    reg: F,
    pilot: Option<Matrix<F>>,
    mode: Bm3dMode,
    threshold: F,
    outcome: Result<Matrix<F>, Seq<char>>,
)
    requires
        is_exact::<F>(),
        !observed.is_empty(),
        observed.rows * observed.cols <= MAX_CELLS,
        transfer.rows == observed.rows,
        transfer.cols == observed.cols,
        filter.rows == observed.rows,
        filter.cols == observed.cols,
        spectrum.rows == observed.rows,
        spectrum.cols == observed.cols,
        operations_fit(
            ops,
            observed.rows as int,
            observed.cols as int,
            config.patch_size as int,
        ),
        is_fft(ops.fft2d, lowered(observed, mean_of(observed)), spectrum),
        forall|r: int, c: int|
            observed.has(r, c) ==> ({
                let v = transfer.at(r, c);
                let s = power.at(r, c);
                let w = #[trigger] filter.at(r, c);
                let d = v.re.times_spec(v.re).plus_spec(v.im.times_spec(v.im)).times_spec(
                    s,
                ).plus_spec(reg);
                &&& w.re.times_spec(d) == v.re.times_spec(s)
                &&& w.im.times_spec(d) == v.im.neg_spec().times_spec(s)
                &&& d == F::zero_spec() ==> w.re == F::zero_spec() && w.im == F::zero_spec()
            }),
        is_stage(
            ops,
            spectrum,
            filter,
            mean_of(observed),
            sigma.times_spec(sigma),
            pilot,
            mode,
            Bm3dKernelConfig::for_pass(config, threshold),
            outcome,
        ),
    ensures
        is_pass(
            ops,
            observed,
            sigma,
            config,
            transfer,
            power,
            reg,
            pilot,
            mode,
            threshold,
            outcome,
        ),
{
    let mean = mean_of(observed);
    let sigma_sq = sigma.times_spec(sigma);
    let settings = Bm3dKernelConfig::for_pass(config, threshold);
    let (inverted, sigmas) = choose|inverted: Matrix<F>, sigmas: Matrix<F>|
        {
            let noisy = raised(inverted, mean);
            &&& #[trigger] is_ifft(ops.ifft2d, filtered(spectrum, filter), inverted)
            &&& #[trigger] is_patch_noise_sigma(
                ops.fft2d,
                ops.ifft2d,
                filtered_noise(filter, sigma_sq),
                settings.patch_size as int,
                sigmas,
            )
            &&& is_filter_outcome(
                ops.run_bm3d_step_colored_noise,
                noisy,
                pilot_of(pilot, noisy),
                mode,
                sigmas,
                settings,
                outcome,
            )
        };
    let noisy = raised(inverted, mean);
    let product = filtered(spectrum, filter);
    let noise = filtered_noise(filter, sigma_sq);
    let centered = lowered(observed, mean);
    lemma_centering(observed, observed, mean);
    lemma_centering(observed, inverted, mean);
    assert forall|r: int, c: int| observed.has(r, c) implies inverts_at(
        spectrum.at(r, c),
        transfer.at(r, c),
        power.at(r, c),
        reg,
        #[trigger] product.at(r, c),
    ) by {
        let w = filter.at(r, c);
        lemma_response_inverts(
            spectrum.at(r, c),
            transfer.at(r, c),
            power.at(r, c),
            reg,
            w,
            sigma,
        );
    }
    assert forall|r: int, c: int| transfer.has(r, c) implies colours_at(
        transfer.at(r, c),
        power.at(r, c),
        reg,
        sigma,
        #[trigger] noise.at(r, c),
    ) by {
        let w = filter.at(r, c);
        assert(observed.has(r, c));
        lemma_response_inverts(
            spectrum.at(r, c),
            transfer.at(r, c),
            power.at(r, c),
            reg,
            w,
            sigma,
        );
    }
    assert(is_below(centered, mean, observed) && is_fft(ops.fft2d, centered, spectrum) && is_ifft(
        ops.ifft2d,
        product,
        inverted,
    ));
    assert(is_inverted(ops.fft2d, ops.ifft2d, observed, transfer, power, reg, noisy));
    assert(is_patch_noise_sigma(
        ops.fft2d,
        ops.ifft2d,
        noise,
        config.patch_size as int,
        sigmas,
    ));
    assert(describes_noise(
        ops.fft2d,
        ops.ifft2d,
        transfer,
        power,
        reg,
        sigma,
        config.patch_size as int,
        sigmas,
    ));
}

/// The regularization of the first inversion is positive.
pub proof fn lemma_first_regularization_positive<F: Bm3dFloat>(
    reg_ri: F,
    variance: F,
    sigma_sq: F,
)
    requires
        is_exact::<F>(),
    ensures
        F::zero_spec().lt_spec(inverse_regularization(reg_ri, variance, sigma_sq)),
{
    let zero = F::zero_spec();
    let floor = F::from_decimal_spec(1, 8);
    let lambda = inverse_regularization(reg_ri, variance, sigma_sq);
    lemma_decimal::<F>(1, 8);
    lemma_order(zero, floor);
    lemma_order(zero, lambda);
    let other = reg_ri.times_spec(sigma_sq).over_spec(
        signal_power(variance, sigma_sq),
    );
    lemma_max(other, floor);
    lemma_order_chains(zero, floor, lambda);
}

/// The first stage gives the filter the observation with its blur undone: every frequency `Z` of
/// the observation about its mean becomes `conj(V) * Z / (|V|^2 + lambda)`. The noise is described
/// as white noise of the given level behind that inversion, the noisy image is its own pilot, and
/// the filter thresholds with the configured threshold.
pub proof fn law_first_pass_sees_the_inverted_image<
    F: Bm3dFloat,
    Fft: Fn(&Grid<F>) -> Grid<Complex<F>>,
    Ifft: Fn(&Grid<Complex<F>>) -> Grid<F>,
    Step: Fn(
        &Grid<F>,
        &Grid<F>,
        Bm3dMode,
        &Grid<F>,
        &Grid<F>,
        Option<&Grid<F>>,
        &Bm3dKernelConfig<F>,
    ) -> Result<Grid<F>, String>,
    Robust: Fn(&Vec<F>) -> F,
>(
    ops: Operations<Fft, Ifft, Step, Robust>,
    observed: Matrix<F>,
    sigma: F,
    config: Bm3dDeblurConfig<F>,
    transfer: Matrix<Complex<F>>,
    spectrum: Matrix<Complex<F>>,
    outcome: Result<Matrix<F>, Seq<char>>,
)
    requires
        is_exact::<F>(),
        !observed.is_empty(),
        observed.rows * observed.cols <= MAX_CELLS,
        transfer.rows == observed.rows,
        transfer.cols == observed.cols,
        spectrum.rows == observed.rows,
        spectrum.cols == observed.cols,
        operations_fit(
            ops,
            observed.rows as int,
            observed.cols as int,
            config.patch_size as int,
        ),
        is_fft(ops.fft2d, lowered(observed, mean_of(observed)), spectrum),
        is_first_stage(ops, observed, sigma, config, transfer, spectrum, outcome),
    ensures
        is_pass(
            ops,
            observed,
            sigma,
            config,
            transfer,
            constant(observed.rows, observed.cols, F::one_spec()),
            inverse_regularization(config.reg_ri, variance_of(observed), sigma.times_spec(sigma)),
            None,
            Bm3dMode::HardThreshold,
            config.threshold,
            outcome,
        ),
{
    let zero = F::zero_spec();
    let one = F::one_spec();
    let lambda = inverse_regularization(
        config.reg_ri,
        variance_of(observed),
        sigma.times_spec(sigma),
    );
    let filter = first_filter(observed, sigma, config, transfer);
    let ones = constant(observed.rows, observed.cols, one);
    lemma_first_regularization_positive(
        config.reg_ri,
        variance_of(observed),
        sigma.times_spec(sigma),
    );
    lemma_order(zero, lambda);
    assert forall|r: int, c: int| observed.has(r, c) implies ({
        let v = transfer.at(r, c);
        let s = ones.at(r, c);
        let w = #[trigger] filter.at(r, c);
        let d = v.re.times_spec(v.re).plus_spec(v.im.times_spec(v.im)).times_spec(s).plus_spec(
            lambda,
        );
        &&& w.re.times_spec(d) == v.re.times_spec(s)
        &&& w.im.times_spec(d) == v.im.neg_spec().times_spec(s)
        &&& d == zero ==> w.re == zero && w.im == zero
    }) by {
        let v = transfer.at(r, c);
        let power = v.re.times_spec(v.re).plus_spec(v.im.times_spec(v.im));
        law_first_inversion_undoes_the_blur(transfer, lambda, r, c);
        lemma_times(power, power, power);
        lemma_times(v.re, v.re, v.re);
        lemma_times(v.im.neg_spec(), v.re, v.re);
        lemma_power(v);
        lemma_plus_positive(power, lambda);
        lemma_order(zero, power.plus_spec(lambda));
    }
    lemma_stage_is_pass(
        ops,
        observed,
        sigma,
        config,
        transfer,
        spectrum,
        filter,
        ones,
        lambda,
        None,
        Bm3dMode::HardThreshold,
        config.threshold,
        outcome,
    );
}

/// The second stage gives the filter the same observation, inverted with the power `S` of the
/// first estimate about the mean: every frequency `Z` becomes
/// `conj(V) * S * Z / (|V|^2 * S + reg)`. The noise is described as white noise of the given level
/// behind that inversion, the first estimate is the pilot, and nothing is thresholded.
pub proof fn law_second_pass_sees_the_inverted_image<
    F: Bm3dFloat,
    Fft: Fn(&Grid<F>) -> Grid<Complex<F>>,
    Ifft: Fn(&Grid<Complex<F>>) -> Grid<F>,
    Step: Fn(
        &Grid<F>,
        &Grid<F>,
        Bm3dMode,
        &Grid<F>,
        &Grid<F>,
        Option<&Grid<F>>,
        &Bm3dKernelConfig<F>,
    ) -> Result<Grid<F>, String>,
    Robust: Fn(&Vec<F>) -> F,
>(
    ops: Operations<Fft, Ifft, Step, Robust>,
    observed: Matrix<F>,
    sigma: F,
    config: Bm3dDeblurConfig<F>,
    transfer: Matrix<Complex<F>>,
    spectrum: Matrix<Complex<F>>,
    first: Matrix<F>,
    outcome: Result<Matrix<F>, Seq<char>>,
)
    requires
        is_exact::<F>(),
        config.violation() is None,
        !observed.is_empty(),
        observed.rows * observed.cols <= MAX_CELLS,
        transfer.rows == observed.rows,
        transfer.cols == observed.cols,
        spectrum.rows == observed.rows,
        spectrum.cols == observed.cols,
        first.rows == observed.rows,
        first.cols == observed.cols,
        operations_fit(
            ops,
            observed.rows as int,
            observed.cols as int,
            config.patch_size as int,
        ),
        is_fft(ops.fft2d, lowered(observed, mean_of(observed)), spectrum),
        is_second_stage(ops, observed, sigma, config, transfer, spectrum, first, outcome),
    ensures
        exists|power: Matrix<F>|
            {
                &&& #[trigger] is_power_about_mean(ops.fft2d, observed, first, power)
                &&& is_pass(
                    ops,
                    observed,
                    sigma,
                    config,
                    transfer,
                    power,
                    wiener_regularization(
                        config.reg_rwi,
                        sigma.times_spec(sigma),
                        power,
                        F::one_spec().over_spec(
                            F::usize_as_spec((observed.rows * observed.cols) as usize),
                        ),
                    ),
                    Some(first),
                    Bm3dMode::Wiener,
                    F::zero_spec(),
                    outcome,
                )
            },
{
    let zero = F::zero_spec();
    let sigma_sq = sigma.times_spec(sigma);
    let mean = mean_of(observed);
    let n = observed.rows * observed.cols;
    let count = F::usize_as_spec(n as usize);
    let share = F::one_spec().over_spec(count);
    let pilot_spectrum = choose|pilot_spectrum: Matrix<Complex<F>>|
        {
            &&& #[trigger] is_fft(ops.fft2d, lowered(first, mean), pilot_spectrum)
            &&& is_stage(
                ops,
                spectrum,
                second_filter(observed, sigma, config, transfer, pilot_spectrum),
                mean,
                sigma_sq,
                Some(first),
                Bm3dMode::Wiener,
                Bm3dKernelConfig::for_pass(config, zero),
                outcome,
            )
        };
    let power = signal_psd(pilot_spectrum, share);
    let reg = wiener_regularization(config.reg_rwi, sigma_sq, power, share);
    let filter = second_filter(observed, sigma, config, transfer, pilot_spectrum);
    assert(n >= 1) by (nonlinear_arith)
        requires
            n == observed.rows * observed.cols,
            observed.rows >= 1,
            observed.cols >= 1,
    ;
    lemma_count_positive::<F>(n as usize);
    lemma_centering(observed, first, mean);
    assert(pilot_spectrum.rows == observed.rows && pilot_spectrum.cols == observed.cols);
    assert forall|r: int, c: int| observed.has(r, c) implies (#[trigger] power.at(
        r,
        c,
    )).times_spec(count) == pilot_spectrum.at(r, c).re.times_spec(
        pilot_spectrum.at(r, c).re,
    ).plus_spec(pilot_spectrum.at(r, c).im.times_spec(pilot_spectrum.at(r, c).im)) by {
        law_signal_power_is_shared_out(pilot_spectrum, count, r, c);
    }
    assert(is_power_about_mean(ops.fft2d, observed, first, power));
    // The regularization is not negative.
    law_valid_settings(config);
    lemma_order(config.reg_rwi, zero);
    lemma_square_not_negative(sigma);
    lemma_order(zero, sigma_sq);
    let plain = config.reg_rwi.times_spec(sigma_sq);
    lemma_times_zero(sigma_sq);
    lemma_times_zero(config.reg_rwi);
    if zero.lt_spec(sigma_sq) {
        lemma_times_positive(config.reg_rwi, sigma_sq);
    }
    lemma_order(zero, plain);
    lemma_max(plain, F::from_decimal_spec(1, 8).times_spec(total(power).times_spec(share)));
    lemma_order_chains(zero, plain, reg);
    assert forall|r: int, c: int| observed.has(r, c) implies ({
        let v = transfer.at(r, c);
        let s = power.at(r, c);
        let w = #[trigger] filter.at(r, c);
        let d = v.re.times_spec(v.re).plus_spec(v.im.times_spec(v.im)).times_spec(s).plus_spec(
            reg,
        );
        &&& w.re.times_spec(d) == v.re.times_spec(s)
        &&& w.im.times_spec(d) == v.im.neg_spec().times_spec(s)
        &&& d == zero ==> w.re == zero && w.im == zero
    }) by {
        let v = transfer.at(r, c);
        law_signal_power_is_shared_out(pilot_spectrum, count, r, c);
        law_second_inversion_undoes_the_blur(transfer, power, reg, r, c);
        lemma_order(zero, zero);
    }
    lemma_stage_is_pass(
        ops,
        observed,
        sigma,
        config,
        transfer,
        spectrum,
        filter,
        power,
        reg,
        Some(first),
        Bm3dMode::Wiener,
        zero,
        outcome,
    );
}

/// An image that comes out of a pass has the shape of the observation.
proof fn lemma_pass_keeps_shape<
    F: Bm3dFloat,
    Fft: Fn(&Grid<F>) -> Grid<Complex<F>>,
    Ifft: Fn(&Grid<Complex<F>>) -> Grid<F>,
    Step: Fn(
        &Grid<F>,
        &Grid<F>,
        Bm3dMode,
        &Grid<F>,
        &Grid<F>,
        Option<&Grid<F>>,
        &Bm3dKernelConfig<F>,
    ) -> Result<Grid<F>, String>,
    Robust: Fn(&Vec<F>) -> F,
>(
    ops: Operations<Fft, Ifft, Step, Robust>,
    observed: Matrix<F>,
    sigma: F,
    config: Bm3dDeblurConfig<F>,
    transfer: Matrix<Complex<F>>,
    power: Matrix<F>,
    reg: F,
    pilot: Option<Matrix<F>>,
    mode: Bm3dMode,
    threshold: F,
    image: Matrix<F>,
)
    requires
        operations_fit(
            ops,
            observed.rows as int,
            observed.cols as int,
            config.patch_size as int,
        ),
        is_pass(
            ops,
            observed,
            sigma,
            config,
            transfer,
            power,
            reg,
            pilot,
            mode,
            threshold,
            Ok::<Matrix<F>, Seq<char>>(image),
        ),
    ensures
        image.rows == observed.rows,
        image.cols == observed.cols,
{
}

/// Whether `outcome` is one that the first pass over `observed` may have.
pub open spec fn is_first_pass<
    F: Bm3dFloat,
    Fft: Fn(&Grid<F>) -> Grid<Complex<F>>,
    Ifft: Fn(&Grid<Complex<F>>) -> Grid<F>,
    Step: Fn(
        &Grid<F>,
        &Grid<F>,
        Bm3dMode,
        &Grid<F>,
        &Grid<F>,
        Option<&Grid<F>>,
        &Bm3dKernelConfig<F>,
    ) -> Result<Grid<F>, String>,
    Robust: Fn(&Vec<F>) -> F,
>(
    ops: Operations<Fft, Ifft, Step, Robust>,
    observed: Matrix<F>,
    sigma: F,
    config: Bm3dDeblurConfig<F>,
    transfer: Matrix<Complex<F>>,
    outcome: Result<Matrix<F>, Seq<char>>,
) -> bool {
    is_pass(
        ops,
        observed,
        sigma,
        config,
        transfer,
        constant(observed.rows, observed.cols, F::one_spec()),
        inverse_regularization(config.reg_ri, variance_of(observed), sigma.times_spec(sigma)),
        None,
        Bm3dMode::HardThreshold,
        config.threshold,
        outcome,
    )
}

/// Whether `outcome` is one that the second pass over `observed` may have, with `first` as its
/// pilot.
pub open spec fn is_second_pass<
    F: Bm3dFloat,
    Fft: Fn(&Grid<F>) -> Grid<Complex<F>>,
    Ifft: Fn(&Grid<Complex<F>>) -> Grid<F>,
    Step: Fn(
        &Grid<F>,
        &Grid<F>,
        Bm3dMode,
        &Grid<F>,
        &Grid<F>,
        Option<&Grid<F>>,
        &Bm3dKernelConfig<F>,
    ) -> Result<Grid<F>, String>,
    Robust: Fn(&Vec<F>) -> F,
>(
    ops: Operations<Fft, Ifft, Step, Robust>,
    observed: Matrix<F>,
    sigma: F,
    config: Bm3dDeblurConfig<F>,
    transfer: Matrix<Complex<F>>,
    first: Matrix<F>,
    outcome: Result<Matrix<F>, Seq<char>>,
) -> bool {
    exists|power: Matrix<F>|
        {
            &&& #[trigger] is_power_about_mean(ops.fft2d, observed, first, power)
            &&& is_pass(
                ops,
                observed,
                sigma,
                config,
                transfer,
                power,
                wiener_regularization(
                    config.reg_rwi,
                    sigma.times_spec(sigma),
                    power,
                    F::one_spec().over_spec(
                        F::usize_as_spec((observed.rows * observed.cols) as usize),
                    ),
                ),
                Some(first),
                Bm3dMode::Wiener,
                F::zero_spec(),
                outcome,
            )
        }
}

/// Deblurring on the padded grid runs the first pass over the observation, and then, if the
/// settings ask for it, the second pass over the same observation, for which the image from the
/// first is the pilot. The images of the passes are the two estimates; without a second pass the
/// image from the first is both. An error of either pass is handed on.
pub proof fn law_deblurring_runs_the_passes<
    F: Bm3dFloat,
    Fft: Fn(&Grid<F>) -> Grid<Complex<F>>,
    Ifft: Fn(&Grid<Complex<F>>) -> Grid<F>,
    Step: Fn(
        &Grid<F>,
        &Grid<F>,
        Bm3dMode,
        &Grid<F>,
        &Grid<F>,
        Option<&Grid<F>>,
        &Bm3dKernelConfig<F>,
    ) -> Result<Grid<F>, String>,
    Robust: Fn(&Vec<F>) -> F,
>(
    ops: Operations<Fft, Ifft, Step, Robust>,
    observed: Matrix<F>,
    sigma: F,
    config: Bm3dDeblurConfig<F>,
    transfer: Matrix<Complex<F>>,
    outcome: Result<(Matrix<F>, Matrix<F>), Seq<char>>,
)
    requires
        is_exact::<F>(),
        config.violation() is None,
        !observed.is_empty(),
        observed.rows * observed.cols <= MAX_CELLS,
        transfer.rows == observed.rows,
        transfer.cols == observed.cols,
        operations_fit(
            ops,
            observed.rows as int,
            observed.cols as int,
            config.patch_size as int,
        ),
        is_deblurring(ops, observed, sigma, config, transfer, outcome),
    ensures
        match outcome {
            Ok((estimate, first)) => {
                &&& is_first_pass(
                    ops,
                    observed,
                    sigma,
                    config,
                    transfer,
                    Ok::<Matrix<F>, Seq<char>>(first),
                )
                &&& if config.wiener_stage {
                    is_second_pass(
                        ops,
                        observed,
                        sigma,
                        config,
                        transfer,
                        first,
                        Ok::<Matrix<F>, Seq<char>>(estimate),
                    )
                } else {
                    estimate == first
                }
            },
            Err(error) => {
                ||| is_first_pass(
                    ops,
                    observed,
                    sigma,
                    config,
                    transfer,
                    Err::<Matrix<F>, Seq<char>>(error),
                )
                ||| config.wiener_stage && exists|first: Matrix<F>|
                    {
                        &&& #[trigger] is_first_pass(
                            ops,
                            observed,
                            sigma,
                            config,
                            transfer,
                            Ok::<Matrix<F>, Seq<char>>(first),
                        )
                        &&& is_second_pass(
                            ops,
                            observed,
                            sigma,
                            config,
                            transfer,
                            first,
                            Err::<Matrix<F>, Seq<char>>(error),
                        )
                    }
            },
        },
{
    let ones = constant(observed.rows, observed.cols, F::one_spec());
    let lambda = inverse_regularization(
        config.reg_ri,
        variance_of(observed),
        sigma.times_spec(sigma),
    );
    assert forall|spectrum: Matrix<Complex<F>>, o: Result<Matrix<F>, Seq<char>>|
        is_fft(ops.fft2d, lowered(observed, mean_of(observed)), spectrum)
            && #[trigger] is_first_stage(
            ops,
            observed,
            sigma,
            config,
            transfer,
            spectrum,
            o,
        ) implies is_first_pass(ops, observed, sigma, config, transfer, o) && (o matches Ok(image)
        ==> image.rows == observed.rows && image.cols == observed.cols) by {
        law_first_pass_sees_the_inverted_image(
            ops,
            observed,
            sigma,
            config,
            transfer,
            spectrum,
            o,
        );
        match o {
            Ok(image) => {
                lemma_pass_keeps_shape(
                    ops,
                    observed,
                    sigma,
                    config,
                    transfer,
                    ones,
                    lambda,
                    None,
                    Bm3dMode::HardThreshold,
                    config.threshold,
                    image,
                );
            },
            Err(error) => {},
        }
    }
    assert forall|
        spectrum: Matrix<Complex<F>>,
        first: Matrix<F>,
        o: Result<Matrix<F>, Seq<char>>,
    |
        is_fft(ops.fft2d, lowered(observed, mean_of(observed)), spectrum) && first.rows
            == observed.rows && first.cols == observed.cols && #[trigger] is_second_stage(
            ops,
            observed,
            sigma,
            config,
            transfer,
            spectrum,
            first,
            o,
        ) implies is_second_pass(ops, observed, sigma, config, transfer, first, o) by {
        law_second_pass_sees_the_inverted_image(
            ops,
            observed,
            sigma,
            config,
            transfer,
            spectrum,
            first,
            o,
        );
    }
}

/// The filter is called with two descriptions of streak noise that say nothing, a single zero each,
/// and with the noise levels per patch coefficient.
pub proof fn law_filter_is_told_of_no_streaks<
    F: Bm3dFloat,
    Step: Fn(
        &Grid<F>,
        &Grid<F>,
        Bm3dMode,
        &Grid<F>,
        &Grid<F>,
        Option<&Grid<F>>,
        &Bm3dKernelConfig<F>,
    ) -> Result<Grid<F>, String>,
>(
    step: Step,
    noisy: Matrix<F>,
    pilot: Matrix<F>,
    mode: Bm3dMode,
    sigmas: Matrix<F>,
    settings: Bm3dKernelConfig<F>,
    outcome: Result<Matrix<F>, Seq<char>>,
)
    requires
        is_filter_outcome(step, noisy, pilot, mode, sigmas, settings, outcome),
    ensures
        exists|
            n: Grid<F>,
            p: Grid<F>,
            d: Grid<F>,
            e: Grid<F>,
            s: Grid<F>,
            answer: Result<Grid<F>, String>,
        |
            {
                &&& n@ == noisy
                &&& p@ == pilot
                &&& d@.rows == 1 && d@.cols == 1 && d@.at(0, 0) == F::zero_spec()
                &&& e@.rows == 1 && e@.cols == 1 && e@.at(0, 0) == F::zero_spec()
                &&& s@ == sigmas
                &&& match (answer, outcome) {
                    (Ok(g), Ok(image)) => g@ == image,
                    (Err(text), Err(error)) => text@ == error,
                    _ => false,
                }
                &&& #[trigger] call_ensures(
                    step,
                    (&n, &p, mode, &d, &e, Some(&s), &settings),
                    answer,
                )
            },
{
}

} // verus!
