//! The deblurring runs.
//!
//! ## Observation model
//!
//! ```text
//! z = y (*) v + n,    n ~ N(0, sigma^2) white
//! ```
//!
//! where `v` is a known point spread function (PSF) that sums to 1 and `(*)` is
//! convolution with the PSF centred at `(psf_rows / 2, psf_cols / 2)`.
//!
//! ## Algorithm
//!
//! **Stage 1 - Regularized Inverse (RI)**
//!
//! ```text
//! RI(f)  = conj(V(f)) / (|V(f)|^2 + lambda_RI)
//! z_RI   = IFFT( FFT(z) * RI )
//! S_RI(f)= sigma^2 * |RI(f)|^2          (noise PSD of z_RI, colored)
//! y_RI   = BM3D-hard-threshold(z_RI, S_RI)
//! ```
//!
//! **Stage 2 - Regularized Wiener Inverse (RWI)**
//!
//! ```text
//! S_y(f)  = |FFT(y_RI)|^2 / (rows * cols)      (pilot signal PSD)
//! RWI(f)  = conj(V) * S_y / (|V|^2 * S_y + alpha_RWI * sigma^2)
//! z_RWI   = IFFT( FFT(z) * RWI )
//! S_RWI(f)= sigma^2 * |RWI(f)|^2
//! y_hat   = BM3D-wiener(z_RWI, pilot = y_RI, S_RWI)
//! ```
//!
//! Both filtering passes see *colored* noise, described by one standard deviation per patch
//! coefficient. The transforms, the filter and the robust estimator are the caller's
//! [`Operations`]; what is stated here holds for every answer that they may give.

use crate::complex::Complex;
use crate::config::Bm3dDeblurConfig;
use crate::float_trait::Bm3dFloat;
use crate::grid::{lemma_same_matrix, Grid, Matrix};
use crate::kernel::{
    content_of, is_filter_outcome, operations_fit, placeholder, Bm3dKernelConfig, Bm3dMode,
    Operations,
};
use crate::levels::{
    from_working, inverse_count, into_working_range, lower_by, lowered, mean_and_variance, mean_of,
    normalization, normalization_params, raise_by, raised, to_working, variance_of,
};
use crate::noise::{
    estimate_white_noise_sigma, is_white_noise_sigma, law_samples_are_bounded,
};
use crate::padding::{
    crop_to_input_range, law_padding_leaves_room, margins, pad_for_deconvolution, padded,
    padded_shape, padded_shape_spec, padding_fits,
};
use crate::psf::{normalize_psf, normalized_psf, psf_violation};
use crate::spectral::{
    apply_filter, filtered, filtered_noise, inverse_filter, inverse_regularization, is_fft, is_ifft,
    is_patch_noise_sigma, noise_behind, patch_noise_sigma, placed_psf, power_spectrum,
    psf_transfer_function, regularization_of_inverse, regularization_of_wiener,
    regularized_inverse, regularized_wiener_inverse, signal_psd, wiener_filter,
    wiener_regularization,
};
use crate::stack::{Stack, StackModel};
use crate::text::{too_small, too_small_message};
use vstd::prelude::*;

verus! {

/// Result of [`bm3d_deblur_detailed`].
#[derive(Debug, Clone)]
pub struct Bm3dDeblurResult<F: Bm3dFloat> {
    /// Final estimate (stage 2 output, or stage 1 if `wiener_stage` is disabled).
    pub estimate: Grid<F>,
    /// Intermediate estimate from the regularized inverse stage.
    pub estimate_ri: Grid<F>,
    /// Noise standard deviation that was used, in input units.
    pub sigma: F,
}

/// The pilot of a stage: without one, the noisy image is its own pilot.
pub open spec fn pilot_of<F: Bm3dFloat>(pilot: Option<Matrix<F>>, noisy: Matrix<F>) -> Matrix<F> {
    match pilot {
        Some(p) => p,
        None => noisy,
    }
}

/// Whether `outcome` is one that a stage may have: the observed spectrum is multiplied by
/// `filter` and taken back to an image, to which the mean is added; the noise that the filter
/// has coloured is described per patch coefficient; and the collaborative filter gives the
/// outcome.
pub open spec fn is_stage<
    F: Bm3dFloat,
    Fft: Fn(&Grid<F>) -> Grid<Complex<F>>,
    Ifft: Fn(&Grid<Complex<F>>) -> Grid<F>,
    Step: Fn(
        &Grid<F>,
        &Grid<F>,
        Bm3dMode,
        &Grid<F>,
        &Grid<F>,
        Option<&Grid<F>>,
        &Bm3dKernelConfig<F>,
    ) -> Result<Grid<F>, String>,
    Robust: Fn(&Vec<F>) -> F,
>(
    ops: Operations<Fft, Ifft, Step, Robust>,
    spectrum: Matrix<Complex<F>>,
    filter: Matrix<Complex<F>>,
    mean: F,
    sigma_sq: F,
    pilot: Option<Matrix<F>>,
    mode: Bm3dMode,
    kernel: Bm3dKernelConfig<F>,
    outcome: Result<Matrix<F>, Seq<char>>,
) -> bool {
    exists|inverted: Matrix<F>, sigmas: Matrix<F>|
        {
            let noisy = raised(inverted, mean);
            &&& #[trigger] is_ifft(ops.ifft2d, filtered(spectrum, filter), inverted)
            &&& #[trigger] is_patch_noise_sigma(
                ops.fft2d,
                ops.ifft2d,
                filtered_noise(filter, sigma_sq),
                kernel.patch_size as int,
                sigmas,
            )
            &&& is_filter_outcome(
                ops.run_bm3d_step_colored_noise,
                noisy,
                pilot_of(pilot, noisy),
                mode,
                sigmas,
                kernel,
                outcome,
            )
        }
}

/// The regularized inverse filter of the first stage.
pub open spec fn first_filter<F: Bm3dFloat>(
    observed: Matrix<F>,
    sigma: F,
    config: Bm3dDeblurConfig<F>,
    transfer: Matrix<Complex<F>>,
) -> Matrix<Complex<F>> {
    inverse_filter(
        transfer,
        inverse_regularization(config.reg_ri, variance_of(observed), sigma.times_spec(sigma)),
    )
}

/// The Wiener inverse filter of the second stage, for the spectrum of the centred pilot.
pub open spec fn second_filter<F: Bm3dFloat>(
    observed: Matrix<F>,
    sigma: F,
    config: Bm3dDeblurConfig<F>,
    transfer: Matrix<Complex<F>>,
    pilot_spectrum: Matrix<Complex<F>>,
) -> Matrix<Complex<F>> {
    let inv_n = inverse_count(observed);
    let psd = signal_psd(pilot_spectrum, inv_n);
    wiener_filter(
        transfer,
        psd,
        wiener_regularization(config.reg_rwi, sigma.times_spec(sigma), psd, inv_n),
    )
}

/// Whether `outcome` is one that the first stage may have.
pub open spec fn is_first_stage<
    F: Bm3dFloat,
    Fft: Fn(&Grid<F>) -> Grid<Complex<F>>,
    Ifft: Fn(&Grid<Complex<F>>) -> Grid<F>,
    Step: Fn(
        &Grid<F>,
        &Grid<F>,
        Bm3dMode,
        &Grid<F>,
        &Grid<F>,
        Option<&Grid<F>>,
        &Bm3dKernelConfig<F>,
    ) -> Result<Grid<F>, String>,
    Robust: Fn(&Vec<F>) -> F,
>(
    ops: Operations<Fft, Ifft, Step, Robust>,
    observed: Matrix<F>,
    sigma: F,
    config: Bm3dDeblurConfig<F>,
    transfer: Matrix<Complex<F>>,
    spectrum: Matrix<Complex<F>>,
    outcome: Result<Matrix<F>, Seq<char>>,
) -> bool {
    is_stage(
        ops,
        spectrum,
        first_filter(observed, sigma, config, transfer),
        mean_of(observed),
        sigma.times_spec(sigma),
        None,
        Bm3dMode::HardThreshold,
        Bm3dKernelConfig::for_pass(config, config.threshold),
        outcome,
    )
}

/// Whether `outcome` is one that the second stage may have after the first has given `first`.
pub open spec fn is_second_stage<
    F: Bm3dFloat,
    Fft: Fn(&Grid<F>) -> Grid<Complex<F>>,
    Ifft: Fn(&Grid<Complex<F>>) -> Grid<F>,
    Step: Fn(
        &Grid<F>,
        &Grid<F>,
        Bm3dMode,
        &Grid<F>,
        &Grid<F>,
        Option<&Grid<F>>,
        &Bm3dKernelConfig<F>,
    ) -> Result<Grid<F>, String>,
    Robust: Fn(&Vec<F>) -> F,
>(
    ops: Operations<Fft, Ifft, Step, Robust>,
    observed: Matrix<F>,
    sigma: F,
    config: Bm3dDeblurConfig<F>,
    transfer: Matrix<Complex<F>>,
    spectrum: Matrix<Complex<F>>,
    first: Matrix<F>,
    outcome: Result<Matrix<F>, Seq<char>>,
) -> bool {
    exists|pilot_spectrum: Matrix<Complex<F>>|
        {
            &&& #[trigger] is_fft(
                ops.fft2d,
                lowered(first, mean_of(observed)),
                pilot_spectrum,
            )
            &&& is_stage(
                ops,
                spectrum,
                second_filter(observed, sigma, config, transfer, pilot_spectrum),
                mean_of(observed),
                sigma.times_spec(sigma),
                Some(first),
                Bm3dMode::Wiener,
                Bm3dKernelConfig::for_pass(config, F::zero_spec()),
                outcome,
            )
        }
}

/// Whether the first stage may succeed and the second then fail with `error`.
pub open spec fn fails_in_second_stage<
    F: Bm3dFloat,
    Fft: Fn(&Grid<F>) -> Grid<Complex<F>>,
    Ifft: Fn(&Grid<Complex<F>>) -> Grid<F>,
    Step: Fn(
        &Grid<F>,
        &Grid<F>,
        Bm3dMode,
        &Grid<F>,
        &Grid<F>,
        Option<&Grid<F>>,
        &Bm3dKernelConfig<F>,
    ) -> Result<Grid<F>, String>,
    Robust: Fn(&Vec<F>) -> F,
>(
    ops: Operations<Fft, Ifft, Step, Robust>,
    observed: Matrix<F>,
    sigma: F,
    config: Bm3dDeblurConfig<F>,
    transfer: Matrix<Complex<F>>,
    spectrum: Matrix<Complex<F>>,
    error: Seq<char>,
) -> bool {
    exists|first: Matrix<F>|
        {
            &&& #[trigger] is_first_stage(
                ops,
                observed,
                sigma,
                config,
                transfer,
                spectrum,
                Ok::<Matrix<F>, Seq<char>>(first),
            )
            &&& is_second_stage(
                ops,
                observed,
                sigma,
                config,
                transfer,
                spectrum,
                first,
                Err::<Matrix<F>, Seq<char>>(error),
            )
        }
}

/// Whether `outcome` is one that deblurring the padded image `observed` may have: the final
/// and the first-stage estimate, or the error of the stage that failed. Both stages invert the
/// spectrum of the image with its mean removed. Without the Wiener stage both estimates are
/// that of the first stage.
pub open spec fn is_deblurring<
    F: Bm3dFloat,
    Fft: Fn(&Grid<F>) -> Grid<Complex<F>>,
    Ifft: Fn(&Grid<Complex<F>>) -> Grid<F>,
    Step: Fn(
        &Grid<F>,
        &Grid<F>,
        Bm3dMode,
        &Grid<F>,
        &Grid<F>,
        Option<&Grid<F>>,
        &Bm3dKernelConfig<F>,
    ) -> Result<Grid<F>, String>,
    Robust: Fn(&Vec<F>) -> F,
>(
    ops: Operations<Fft, Ifft, Step, Robust>,
    observed: Matrix<F>,
    sigma: F,
    config: Bm3dDeblurConfig<F>,
    transfer: Matrix<Complex<F>>,
    outcome: Result<(Matrix<F>, Matrix<F>), Seq<char>>,
) -> bool {
    exists|spectrum: Matrix<Complex<F>>|
        {
            &&& #[trigger] is_fft(ops.fft2d, lowered(observed, mean_of(observed)), spectrum)
            &&& match outcome {
                Ok((estimate, first)) => {
                    &&& is_first_stage(
                        ops,
                        observed,
                        sigma,
                        config,
                        transfer,
                        spectrum,
                        Ok::<Matrix<F>, Seq<char>>(first),
                    )
                    &&& if config.wiener_stage {
                        is_second_stage(
                            ops,
                            observed,
                            sigma,
                            config,
                            transfer,
                            spectrum,
                            first,
                            Ok::<Matrix<F>, Seq<char>>(estimate),
                        )
                    } else {
                        estimate == first
                    }
                },
                Err(error) => {
                    ||| is_first_stage(
                        ops,
                        observed,
                        sigma,
                        config,
                        transfer,
                        spectrum,
                        Err::<Matrix<F>, Seq<char>>(error),
                    )
                    ||| config.wiener_stage && fails_in_second_stage(
                        ops,
                        observed,
                        sigma,
                        config,
                        transfer,
                        spectrum,
                        error,
                    )
                },
            }
        }
}

/// The content of an outcome of [`deblur_padded`].
pub open spec fn pair_content<F: Bm3dFloat>(
    o: Result<(Grid<F>, Grid<F>), String>,
) -> Result<(Matrix<F>, Matrix<F>), Seq<char>> {
    match o {
        Ok((estimate, first)) => Ok((estimate@, first@)),
        Err(e) => Err(e@),
    }
}

/// One stage: inversion with `filter`, description of the coloured noise, and a pass of the
/// collaborative filter.
fn run_stage<
    F: Bm3dFloat,
    Fft: Fn(&Grid<F>) -> Grid<Complex<F>>,
    Ifft: Fn(&Grid<Complex<F>>) -> Grid<F>,
    Step: Fn(
        &Grid<F>,
        &Grid<F>,
        Bm3dMode,
        &Grid<F>,
        &Grid<F>,
        Option<&Grid<F>>,
        &Bm3dKernelConfig<F>,
    ) -> Result<Grid<F>, String>,
    Robust: Fn(&Vec<F>) -> F,
>(
    ops: &Operations<Fft, Ifft, Step, Robust>,
    spectrum: &Grid<Complex<F>>,
    filter: &Grid<Complex<F>>,
    mean: F,
    sigma_sq: F,
    pilot: Option<&Grid<F>>,
    mode: Bm3dMode,
    kernel: &Bm3dKernelConfig<F>,
) -> (outcome: Result<Grid<F>, String>)
    requires
        operations_fit(
            *ops,
            spectrum@.rows as int,
            spectrum@.cols as int,
            kernel.patch_size as int,
        ),
        kernel.patch_size > 0,
        kernel.step_size > 0,
        kernel.search_window > 0,
        kernel.max_matches > 0,
        spectrum@.rows == filter@.rows >= kernel.patch_size,
        spectrum@.cols == filter@.cols >= kernel.patch_size,
        pilot matches Some(p) ==> p@.rows == spectrum@.rows && p@.cols == spectrum@.cols,
    ensures
        is_stage(
            *ops,
            spectrum@,
            filter@,
            mean,
            sigma_sq,
            match pilot {
                Some(p) => Some(p@),
                None => None,
            },
            mode,
            *kernel,
            content_of(outcome),
        ),
        outcome matches Ok(g) ==> g@.rows == spectrum@.rows && g@.cols == spectrum@.cols,
{
    let (rows, cols) = spectrum.dim();
    let ifft2d = &ops.ifft2d;
    let step = &ops.run_bm3d_step_colored_noise;
    let response = apply_filter(spectrum, filter);
    let inverted = ifft2d(&response);
    let noisy = raise_by(&inverted, mean);
    let psd = noise_behind(filter, sigma_sq);
    proof {
        assert(kernel.patch_size * kernel.patch_size <= rows * cols) by (nonlinear_arith)
            requires
                kernel.patch_size <= rows,
                kernel.patch_size <= cols,
        ;
    }
    let sigmas = patch_noise_sigma(&psd, kernel.patch_size, &ops.fft2d, &ops.ifft2d);
    let blank = |r: usize, c: usize| -> (v: F)
        ensures
            v == F::zero_spec(),
        { F::zero() };
    let dummy = Grid::from_shape_fn(1, 1, &blank);
    proof {
        lemma_same_matrix(dummy@, placeholder::<F>());
    }
    let outcome = match pilot {
        Some(p) => step(&noisy, p, mode, &dummy, &dummy, Some(&sigmas), kernel),
        None => step(&noisy, &noisy, mode, &dummy, &dummy, Some(&sigmas), kernel),
    };
    assert(is_ifft(ops.ifft2d, filtered(spectrum@, filter@), inverted@));
    outcome
}

/// Deblurring of an already padded / normalized image.
/// Returns `(final_estimate, ri_estimate)`, both on the padded grid.
pub fn deblur_padded<
    F: Bm3dFloat,
    Fft: Fn(&Grid<F>) -> Grid<Complex<F>>,
    Ifft: Fn(&Grid<Complex<F>>) -> Grid<F>,
    Step: Fn(
        &Grid<F>,
        &Grid<F>,
        Bm3dMode,
        &Grid<F>,
        &Grid<F>,
        Option<&Grid<F>>,
        &Bm3dKernelConfig<F>,
    ) -> Result<Grid<F>, String>,
    Robust: Fn(&Vec<F>) -> F,
>(
    observed: &Grid<F>,
    sigma: F,
    config: &Bm3dDeblurConfig<F>,
    transfer: &Grid<Complex<F>>,
    ops: &Operations<Fft, Ifft, Step, Robust>,
) -> (outcome: Result<(Grid<F>, Grid<F>), String>)
    requires
        operations_fit(
            *ops,
            observed@.rows as int,
            observed@.cols as int,
            config.patch_size as int,
        ),
        config.violation() is None,
        transfer@.rows == observed@.rows >= config.patch_size,
        transfer@.cols == observed@.cols >= config.patch_size,
    ensures
        is_deblurring(*ops, observed@, sigma, *config, transfer@, pair_content(outcome)),
        outcome matches Ok((estimate, first)) ==> is_deblurring(
            *ops,
            observed@,
            sigma,
            *config,
            transfer@,
            Ok::<(Matrix<F>, Matrix<F>), Seq<char>>((estimate@, first@)),
        ),
        outcome matches Err(e) ==> is_deblurring(
            *ops,
            observed@,
            sigma,
            *config,
            transfer@,
            Err::<(Matrix<F>, Matrix<F>), Seq<char>>(e@),
        ),
        outcome matches Ok((estimate, first)) ==> estimate@.rows == first@.rows == observed@.rows
            && estimate@.cols == first@.cols == observed@.cols,
{
    let (rows, cols) = observed.dim();
    let fft2d = &ops.fft2d;
    let sigma_sq = sigma.times(sigma);
    let (mean, variance) = mean_and_variance(observed);

    // Both inversions run on the mean-removed image, and the mean is added back before
    // each filtering pass. The DC bin is the one frequency the PSF leaves untouched
    // (`V(0) == 1` because the PSF sums to 1), yet a regularized inverse still shrinks it
    // by `1 / (1 + lambda_RI)`. Whatever value maps to zero is therefore what the image
    // decays towards when the regularization is large. Centring on the mean makes that a
    // harmless loss of contrast; without it, the caller's normalization offset decides,
    // which for a min-max normalized chroma channel would drag the whole image towards
    // its most saturated extreme.
    let centered = lower_by(observed, mean);

    // Observation spectrum, reused by both stages.
    let spectrum = fft2d(&centered);
    assert(is_fft(ops.fft2d, lowered(observed@, mean_of(observed@)), spectrum@));

    // --- Stage 1: regularized inversion -------------------------------------
    let lambda_ri = regularization_of_inverse(config.reg_ri, variance, sigma_sq);
    let ri_filter = regularized_inverse(transfer, lambda_ri);
    let hard_config = Bm3dKernelConfig::new_for_pass(config, config.threshold);
    let first = run_stage(
        ops,
        &spectrum,
        &ri_filter,
        mean,
        sigma_sq,
        None,
        Bm3dMode::HardThreshold,
        &hard_config,
    );
    let y_ri = match first {
        Ok(y_ri) => y_ri,
        Err(error) => {
            return Err(error);
        },
    };
    assert(is_first_stage(
        *ops,
        observed@,
        sigma,
        *config,
        transfer@,
        spectrum@,
        Ok::<Matrix<F>, Seq<char>>(y_ri@),
    ));
    if !config.wiener_stage {
        return Ok((y_ri.clone(), y_ri));
    }

    // --- Stage 2: regularized Wiener inversion ------------------------------
    // The pilot is centred the same way as the observation, so the DC bin stays out of
    // both the signal PSD estimate and the inversion.
    let pilot_centered = lower_by(&y_ri, mean);
    let pilot_spectrum = fft2d(&pilot_centered);
    assert(is_fft(ops.fft2d, lowered(y_ri@, mean_of(observed@)), pilot_spectrum@));
    let inv_n = F::one().over(F::usize_as(rows * cols));
    let psd = power_spectrum(&pilot_spectrum, inv_n);
    let rwi_reg = regularization_of_wiener(config.reg_rwi, sigma_sq, &psd, inv_n);
    let rwi_filter = regularized_wiener_inverse(transfer, &psd, rwi_reg);
    let wiener_config = Bm3dKernelConfig::new_for_pass(config, F::zero());
    let second = run_stage(
        ops,
        &spectrum,
        &rwi_filter,
        mean,
        sigma_sq,
        Some(&y_ri),
        Bm3dMode::Wiener,
        &wiener_config,
    );
    assert(is_second_stage(
        *ops,
        observed@,
        sigma,
        *config,
        transfer@,
        spectrum@,
        y_ri@,
        content_of(second),
    ));
    match second {
        Ok(y_final) => Ok((y_final, y_ri)),
        Err(error) => Err(error),
    }
}

/// The first reason to turn a request down, if there is one: settings that break a rule, an
/// image that holds no complete patch, or a PSF that cannot be normalized.
pub open spec fn rejection<F: Bm3dFloat>(
    rows: int,
    cols: int,
    psf: Matrix<F>,
    config: Bm3dDeblurConfig<F>,
) -> Option<Seq<char>> {
    if config.violation() is Some {
        config.violation()
    } else if rows < config.patch_size || cols < config.patch_size {
        Some(too_small_message(rows, cols, config.patch_size as int))
    } else {
        psf_violation(psf)
    }
}

/// Whether `sigma` is a noise level, in working units, that may be used for the image `work`:
/// the one that was set, or else an estimate.
pub open spec fn is_noise_level<F: Bm3dFloat, Robust: Fn(&Vec<F>) -> F>(
    robust: Robust,
    config: Bm3dDeblurConfig<F>,
    work: Matrix<F>,
    scale: F,
    sigma: F,
) -> bool {
    if F::zero_spec().lt_spec(config.sigma) {
        sigma == config.sigma.over_spec(scale)
    } else {
        is_white_noise_sigma(robust, work, sigma)
    }
}

/// The estimate on the padded grid, cropped to the image and taken back to input units.
pub open spec fn restored<F: Bm3dFloat>(
    estimate: Matrix<F>,
    observed: Matrix<F>,
    psf: Matrix<F>,
    config: Bm3dDeblurConfig<F>,
) -> Matrix<F> {
    let (offset, scale) = normalization(observed, config.normalize);
    let (top, left) = margins(
        psf.rows as int,
        psf.cols as int,
        config.patch_size as int,
        config.boundary,
    );
    from_working(estimate.part(top, left, observed.rows, observed.cols), offset, scale)
}

/// Whether `outcome` is one that deblurring `observed` with a known transfer function may
/// have: final estimate, first-stage estimate and noise level in input units, or an error.
pub open spec fn is_image_outcome<
    F: Bm3dFloat,
    Fft: Fn(&Grid<F>) -> Grid<Complex<F>>,
    Ifft: Fn(&Grid<Complex<F>>) -> Grid<F>,
    Step: Fn(
        &Grid<F>,
        &Grid<F>,
        Bm3dMode,
        &Grid<F>,
        &Grid<F>,
        Option<&Grid<F>>,
        &Bm3dKernelConfig<F>,
    ) -> Result<Grid<F>, String>,
    Robust: Fn(&Vec<F>) -> F,
>(
    ops: Operations<Fft, Ifft, Step, Robust>,
    observed: Matrix<F>,
    psf: Matrix<F>,
    config: Bm3dDeblurConfig<F>,
    transfer: Matrix<Complex<F>>,
    outcome: Result<(Matrix<F>, Matrix<F>, F), Seq<char>>,
) -> bool {
    let (offset, scale) = normalization(observed, config.normalize);
    let work = to_working(observed, offset, scale);
    let large = padded(
        work,
        psf.rows as int,
        psf.cols as int,
        config.patch_size as int,
        config.boundary,
    );
    exists|sigma: F, on_grid: Result<(Matrix<F>, Matrix<F>), Seq<char>>|
        {
            &&& is_noise_level(ops.estimate_robust_sigma, config, work, scale, sigma)
            &&& #[trigger] is_deblurring(ops, large, sigma, config, transfer, on_grid)
            &&& outcome == match on_grid {
                Ok((estimate, first)) => Ok::<(Matrix<F>, Matrix<F>, F), Seq<char>>(
                    (
                        restored(estimate, observed, psf, config),
                        restored(first, observed, psf, config),
                        sigma.times_spec(scale),
                    ),
                ),
                Err(error) => Err(error),
            }
        }
}

/// Whether `transfer` is a transfer function of the PSF, normalized, on the padded grid of an
/// image of the given shape.
pub open spec fn is_transfer<F: Bm3dFloat, Fft: Fn(&Grid<F>) -> Grid<Complex<F>>>(
    fft2d: Fft,
    rows: int,
    cols: int,
    psf: Matrix<F>,
    config: Bm3dDeblurConfig<F>,
    transfer: Matrix<Complex<F>>,
) -> bool {
    let shape = padded_shape_spec(
        rows,
        cols,
        psf.rows as int,
        psf.cols as int,
        config.patch_size as int,
        config.boundary,
    );
    is_fft(fft2d, placed_psf(normalized_psf(psf), shape.0 as nat, shape.1 as nat), transfer)
}

/// Whether `outcome` is one that a request to deblur the single image `observed` may have,
/// once it has not been turned down.
pub open spec fn is_run<
    F: Bm3dFloat,
    Fft: Fn(&Grid<F>) -> Grid<Complex<F>>,
    Ifft: Fn(&Grid<Complex<F>>) -> Grid<F>,
    Step: Fn(
        &Grid<F>,
        &Grid<F>,
        Bm3dMode,
        &Grid<F>,
        &Grid<F>,
        Option<&Grid<F>>,
        &Bm3dKernelConfig<F>,
    ) -> Result<Grid<F>, String>,
    Robust: Fn(&Vec<F>) -> F,
>(
    ops: Operations<Fft, Ifft, Step, Robust>,
    observed: Matrix<F>,
    psf: Matrix<F>,
    config: Bm3dDeblurConfig<F>,
    outcome: Result<(Matrix<F>, Matrix<F>, F), Seq<char>>,
) -> bool {
    exists|transfer: Matrix<Complex<F>>|
        {
            &&& #[trigger] is_transfer(
                ops.fft2d,
                observed.rows as int,
                observed.cols as int,
                psf,
                config,
                transfer,
            )
            &&& is_image_outcome(ops, observed, psf, config, transfer, outcome)
        }
}

/// The content of an outcome of [`bm3d_deblur_detailed`].
pub open spec fn detail_content<F: Bm3dFloat>(
    o: Result<Bm3dDeblurResult<F>, String>,
) -> Result<(Matrix<F>, Matrix<F>, F), Seq<char>> {
    match o {
        Ok(result) => Ok((result.estimate@, result.estimate_ri@, result.sigma)),
        Err(e) => Err(e@),
    }
}

/// Whether the padded image of a request has a shape that a grid can have.
pub open spec fn request_fits<F: Bm3dFloat>(
    rows: int,
    cols: int,
    psf: Matrix<F>,
    config: Bm3dDeblurConfig<F>,
) -> bool {
    padding_fits(
        rows,
        cols,
        psf.rows as int,
        psf.cols as int,
        config.patch_size as int,
        config.boundary,
    )
}

/// Whether the operations do what a request asks of them.
pub open spec fn operations_serve<
    F: Bm3dFloat,
    Fft: Fn(&Grid<F>) -> Grid<Complex<F>>,
    Ifft: Fn(&Grid<Complex<F>>) -> Grid<F>,
    Step: Fn(
        &Grid<F>,
        &Grid<F>,
        Bm3dMode,
        &Grid<F>,
        &Grid<F>,
        Option<&Grid<F>>,
        &Bm3dKernelConfig<F>,
    ) -> Result<Grid<F>, String>,
    Robust: Fn(&Vec<F>) -> F,
>(
    ops: Operations<Fft, Ifft, Step, Robust>,
    rows: int,
    cols: int,
    psf: Matrix<F>,
    config: Bm3dDeblurConfig<F>,
) -> bool {
    let shape = padded_shape_spec(
        rows,
        cols,
        psf.rows as int,
        psf.cols as int,
        config.patch_size as int,
        config.boundary,
    );
    operations_fit(ops, shape.0, shape.1, config.patch_size as int)
}

/// Checks a request and prepares it: the normalized PSF.
fn accept_request<F: Bm3dFloat>(
    rows: usize,
    cols: usize,
    psf: &Grid<F>,
    config: &Bm3dDeblurConfig<F>,
) -> (r: Result<Grid<F>, String>)
    ensures
        match rejection(rows as int, cols as int, psf@, *config) {
            Some(message) => r matches Err(e) && e@ == message,
            None => r matches Ok(g) && g@ == normalized_psf(psf@),
        },
{
    match config.validate() {
        Ok(()) => {},
        Err(error) => {
            return Err(error);
        },
    }
    if rows < config.patch_size || cols < config.patch_size {
        return Err(too_small(rows, cols, config.patch_size));
    }
    normalize_psf(psf)
}

/// The shape of the padded grid that a request leads to: an error if the request is turned
/// down, and `None` if no grid can have that shape.
pub fn request_shape<F: Bm3dFloat>(
    rows: usize,
    cols: usize,
    psf: &Grid<F>,
    config: &Bm3dDeblurConfig<F>,
) -> (r: Result<Option<(usize, usize)>, String>)
    ensures
        match rejection(rows as int, cols as int, psf@, *config) {
            Some(message) => r matches Err(e) && e@ == message,
            None => match r {
                Ok(Some(shape)) => request_fits(rows as int, cols as int, psf@, *config) && (
                    shape.0 as int,
                    shape.1 as int,
                ) == padded_shape_spec(
                    rows as int,
                    cols as int,
                    psf@.rows as int,
                    psf@.cols as int,
                    config.patch_size as int,
                    config.boundary,
                ),
                Ok(None) => !request_fits(rows as int, cols as int, psf@, *config),
                Err(e) => false,
            },
        },
{
    match accept_request(rows, cols, psf, config) {
        Ok(_) => Ok(padded_shape(rows, cols, psf.dim(), config.patch_size, config.boundary)),
        Err(error) => Err(error),
    }
}

/// The transfer function of the normalized PSF `unit_psf` on the padded grid.
fn request_transfer<
    F: Bm3dFloat,
    Fft: Fn(&Grid<F>) -> Grid<Complex<F>>,
    Ifft: Fn(&Grid<Complex<F>>) -> Grid<F>,
    Step: Fn(
        &Grid<F>,
        &Grid<F>,
        Bm3dMode,
        &Grid<F>,
        &Grid<F>,
        Option<&Grid<F>>,
        &Bm3dKernelConfig<F>,
    ) -> Result<Grid<F>, String>,
    Robust: Fn(&Vec<F>) -> F,
>(
    rows: usize,
    cols: usize,
    psf: &Grid<F>,
    unit_psf: &Grid<F>,
    config: &Bm3dDeblurConfig<F>,
    ops: &Operations<Fft, Ifft, Step, Robust>,
) -> (transfer: Grid<Complex<F>>)
    requires
        unit_psf@ == normalized_psf(psf@),
        rows > 0,
        cols > 0,
        request_fits(rows as int, cols as int, psf@, *config),
        operations_serve(*ops, rows as int, cols as int, psf@, *config),
    ensures
        is_transfer(ops.fft2d, rows as int, cols as int, psf@, *config, transfer@),
        (transfer@.rows as int, transfer@.cols as int) == padded_shape_spec(
            rows as int,
            cols as int,
            psf@.rows as int,
            psf@.cols as int,
            config.patch_size as int,
            config.boundary,
        ),
{
    let (prows, pcols) = padded_shape(
        rows,
        cols,
        psf.dim(),
        config.patch_size,
        config.boundary,
    ).unwrap();
    proof {
        law_padding_leaves_room(
            rows as int,
            cols as int,
            psf@.rows as int,
            psf@.cols as int,
            config.patch_size as int,
            config.boundary,
        );
    }
    psf_transfer_function(unit_psf, prows, pcols, &ops.fft2d)
}

/// Deblurs one image with a transfer function that is known already.
fn deblur_image<
    F: Bm3dFloat,
    Fft: Fn(&Grid<F>) -> Grid<Complex<F>>,
    Ifft: Fn(&Grid<Complex<F>>) -> Grid<F>,
    Step: Fn(
        &Grid<F>,
        &Grid<F>,
        Bm3dMode,
        &Grid<F>,
        &Grid<F>,
        Option<&Grid<F>>,
        &Bm3dKernelConfig<F>,
    ) -> Result<Grid<F>, String>,
    Robust: Fn(&Vec<F>) -> F,
>(
    observed: &Grid<F>,
    psf: &Grid<F>,
    config: &Bm3dDeblurConfig<F>,
    transfer: &Grid<Complex<F>>,
    ops: &Operations<Fft, Ifft, Step, Robust>,
) -> (outcome: Result<Bm3dDeblurResult<F>, String>)
    requires
        config.violation() is None,
        observed@.rows >= config.patch_size,
        observed@.cols >= config.patch_size,
        request_fits(observed@.rows as int, observed@.cols as int, psf@, *config),
        operations_serve(*ops, observed@.rows as int, observed@.cols as int, psf@, *config),
        (transfer@.rows as int, transfer@.cols as int) == padded_shape_spec(
            observed@.rows as int,
            observed@.cols as int,
            psf@.rows as int,
            psf@.cols as int,
            config.patch_size as int,
            config.boundary,
        ),
    ensures
        is_image_outcome(*ops, observed@, psf@, *config, transfer@, detail_content(outcome)),
        outcome matches Ok(result) ==> result.estimate@.rows == result.estimate_ri@.rows
            == observed@.rows && result.estimate@.cols == result.estimate_ri@.cols
            == observed@.cols,
{
    let (rows, cols) = observed.dim();

    // 1. Normalize (the blur model is affine equivariant because the PSF sums to 1).
    let (offset, scale) = normalization_params(observed, config.normalize);
    let work = into_working_range(observed, offset, scale);

    // 2. Noise level in working units.
    proof {
        if rows >= 2 && cols >= 2 {
            law_samples_are_bounded(work@);
        }
    }
    let sigma_work = if F::zero().lt(config.sigma) {
        config.sigma.over(scale)
    } else {
        estimate_white_noise_sigma(&work, &ops.estimate_robust_sigma)
    };

    // 3. Pad, deconvolve, crop.
    proof {
        law_padding_leaves_room(
            rows as int,
            cols as int,
            psf@.rows as int,
            psf@.cols as int,
            config.patch_size as int,
            config.boundary,
        );
    }
    let (pad_rows, pad_cols, large) = pad_for_deconvolution(
        &work,
        psf.dim(),
        config.patch_size,
        config.boundary,
    );
    let on_grid = deblur_padded(&large, sigma_work, config, transfer, ops);
    assert(is_deblurring(
        *ops,
        large@,
        sigma_work,
        *config,
        transfer@,
        pair_content(on_grid),
    ));
    match on_grid {
        Ok((estimate, estimate_ri)) => Ok(
            Bm3dDeblurResult {
                estimate: crop_to_input_range(
                    &estimate,
                    pad_rows,
                    pad_cols,
                    rows,
                    cols,
                    offset,
                    scale,
                ),
                estimate_ri: crop_to_input_range(
                    &estimate_ri,
                    pad_rows,
                    pad_cols,
                    rows,
                    cols,
                    offset,
                    scale,
                ),
                sigma: sigma_work.times(scale),
            },
        ),
        Err(error) => Err(error),
    }
}

/// BM3D-DEB deblurring of a single 2D image.
///
/// # Arguments
///
/// * `observed` - Blurred and noisy observation (H x W)
/// * `psf` - Point spread function; normalized internally, must sum to a non-zero value
/// * `config` - Configuration, see [`Bm3dDeblurConfig`]
/// * `ops` - The transforms, the collaborative filter and the robust estimator
///
/// # Errors
///
/// Returns an error if the configuration is invalid, if the image is smaller than
/// `patch_size`, or if the PSF is empty / sums to zero; and passes on an error of the
/// collaborative filter.
pub fn bm3d_deblur<
    F: Bm3dFloat,
    Fft: Fn(&Grid<F>) -> Grid<Complex<F>>,
    Ifft: Fn(&Grid<Complex<F>>) -> Grid<F>,
    Step: Fn(
        &Grid<F>,
        &Grid<F>,
        Bm3dMode,
        &Grid<F>,
        &Grid<F>,
        Option<&Grid<F>>,
        &Bm3dKernelConfig<F>,
    ) -> Result<Grid<F>, String>,
    Robust: Fn(&Vec<F>) -> F,
>(
    observed: &Grid<F>,
    psf: &Grid<F>,
    config: &Bm3dDeblurConfig<F>,
    ops: &Operations<Fft, Ifft, Step, Robust>,
) -> (outcome: Result<Grid<F>, String>)
    requires
        rejection(observed@.rows as int, observed@.cols as int, psf@, *config) is None
            ==> request_fits(observed@.rows as int, observed@.cols as int, psf@, *config)
            && operations_serve(
            *ops,
            observed@.rows as int,
            observed@.cols as int,
            psf@,
            *config,
        ),
    ensures
        match rejection(observed@.rows as int, observed@.cols as int, psf@, *config) {
            Some(message) => outcome matches Err(e) && e@ == message,
            None => is_estimate_of_run(*ops, observed@, psf@, *config, content_of(outcome)),
        },
        outcome matches Ok(estimate) ==> is_estimate_of_run(
            *ops,
            observed@,
            psf@,
            *config,
            Ok::<Matrix<F>, Seq<char>>(estimate@),
        ),
        outcome matches Ok(g) ==> g@.rows == observed@.rows && g@.cols == observed@.cols,
{
    let detailed = bm3d_deblur_detailed(observed, psf, config, ops);
    match detailed {
        Ok(result) => {
            assert(rejection(observed@.rows as int, observed@.cols as int, psf@, *config) is None);
            assert(is_run(
                *ops,
                observed@,
                psf@,
                *config,
                Ok::<(Matrix<F>, Matrix<F>, F), Seq<char>>(
                    (result.estimate@, result.estimate_ri@, result.sigma),
                ),
            ));
            Ok(result.estimate)
        },
        Err(error) => Err(error),
    }
}

/// BM3D-DEB deblurring that also returns the intermediate estimate and the noise level.
///
/// Useful for diagnostics and for tuning `reg_ri` / `reg_rwi`.
pub fn bm3d_deblur_detailed<
    F: Bm3dFloat,
    Fft: Fn(&Grid<F>) -> Grid<Complex<F>>,
    Ifft: Fn(&Grid<Complex<F>>) -> Grid<F>,
    Step: Fn(
        &Grid<F>,
        &Grid<F>,
        Bm3dMode,
        &Grid<F>,
        &Grid<F>,
        Option<&Grid<F>>,
        &Bm3dKernelConfig<F>,
    ) -> Result<Grid<F>, String>,
    Robust: Fn(&Vec<F>) -> F,
>(
    observed: &Grid<F>,
    psf: &Grid<F>,
    config: &Bm3dDeblurConfig<F>,
    ops: &Operations<Fft, Ifft, Step, Robust>,
) -> (outcome: Result<Bm3dDeblurResult<F>, String>)
    requires
        rejection(observed@.rows as int, observed@.cols as int, psf@, *config) is None
            ==> request_fits(observed@.rows as int, observed@.cols as int, psf@, *config)
            && operations_serve(
            *ops,
            observed@.rows as int,
            observed@.cols as int,
            psf@,
            *config,
        ),
    ensures
        match rejection(observed@.rows as int, observed@.cols as int, psf@, *config) {
            Some(message) => outcome matches Err(e) && e@ == message,
            None => is_run(*ops, observed@, psf@, *config, detail_content(outcome)),
        },
        outcome matches Ok(result) ==> is_run(
            *ops,
            observed@,
            psf@,
            *config,
            Ok::<(Matrix<F>, Matrix<F>, F), Seq<char>>(
                (result.estimate@, result.estimate_ri@, result.sigma),
            ),
        ),
        outcome matches Ok(result) ==> result.estimate@.rows == result.estimate_ri@.rows
            == observed@.rows && result.estimate@.cols == result.estimate_ri@.cols
            == observed@.cols,
        !config.wiener_stage ==> (outcome matches Ok(result) ==> result.estimate@
            == result.estimate_ri@),
{
    let (rows, cols) = observed.dim();
    let unit_psf = match accept_request(rows, cols, psf, config) {
        Ok(unit_psf) => unit_psf,
        Err(error) => {
            return Err(error);
        },
    };
    let transfer = request_transfer(rows, cols, psf, &unit_psf, config, ops);
    deblur_image(observed, psf, config, &transfer, ops)
}

/// Whether `outcome` is the final estimate, or the error, of some outcome that a request to
/// deblur the single image `observed` may have.
pub open spec fn is_estimate_of_run<
    F: Bm3dFloat,
    Fft: Fn(&Grid<F>) -> Grid<Complex<F>>,
    Ifft: Fn(&Grid<Complex<F>>) -> Grid<F>,
    Step: Fn(
        &Grid<F>,
        &Grid<F>,
        Bm3dMode,
        &Grid<F>,
        &Grid<F>,
        Option<&Grid<F>>,
        &Bm3dKernelConfig<F>,
    ) -> Result<Grid<F>, String>,
    Robust: Fn(&Vec<F>) -> F,
>(
    ops: Operations<Fft, Ifft, Step, Robust>,
    observed: Matrix<F>,
    psf: Matrix<F>,
    config: Bm3dDeblurConfig<F>,
    outcome: Result<Matrix<F>, Seq<char>>,
) -> bool {
    exists|full: Result<(Matrix<F>, Matrix<F>, F), Seq<char>>|
        #[trigger] is_run(ops, observed, psf, config, full) && outcome == estimate_of(full)
}

/// The final estimate in an outcome, or its error.
pub open spec fn estimate_of<F: Bm3dFloat>(
    full: Result<(Matrix<F>, Matrix<F>, F), Seq<char>>,
) -> Result<Matrix<F>, Seq<char>> {
    match full {
        Ok((estimate, first, sigma)) => Ok(estimate),
        Err(error) => Err(error),
    }
}

/// Whether `outcome` is the final estimate, or the error, of some outcome that deblurring one
/// slice with the transfer function of its stack may have.
pub open spec fn is_slice_outcome<
    F: Bm3dFloat,
    Fft: Fn(&Grid<F>) -> Grid<Complex<F>>,
    Ifft: Fn(&Grid<Complex<F>>) -> Grid<F>,
    Step: Fn(
        &Grid<F>,
        &Grid<F>,
        Bm3dMode,
        &Grid<F>,
        &Grid<F>,
        Option<&Grid<F>>,
        &Bm3dKernelConfig<F>,
    ) -> Result<Grid<F>, String>,
    Robust: Fn(&Vec<F>) -> F,
>(
    ops: Operations<Fft, Ifft, Step, Robust>,
    slice: Matrix<F>,
    psf: Matrix<F>,
    config: Bm3dDeblurConfig<F>,
    transfer: Matrix<Complex<F>>,
    outcome: Result<Matrix<F>, Seq<char>>,
) -> bool {
    exists|full: Result<(Matrix<F>, Matrix<F>, F), Seq<char>>|
        #[trigger] is_image_outcome(ops, slice, psf, config, transfer, full) && outcome
            == estimate_of(full)
}

/// Whether `outcome` is an answer that the observer of progress may give when told that
/// `completed` of `total` slices are done. Without an observer all is well.
pub open spec fn is_progress_outcome<P: Fn(usize, usize) -> Result<(), String>>(
    progress: Option<&P>,
    completed: int,
    total: int,
    outcome: Result<(), Seq<char>>,
) -> bool {
    match progress {
        None => outcome is Ok,
        Some(p) => exists|answer: Result<(), String>|
            {
                &&& #[trigger] call_ensures(*p, (completed as usize, total as usize), answer)
                &&& outcome == match answer {
                    Ok(u) => Ok::<(), Seq<char>>(()),
                    Err(e) => Err(e@),
                }
            },
    }
}

/// Whether `done` may be the estimates of the first slices of a stack, each of them reported
/// to an observer that did not object.
pub open spec fn are_first_slices<
    F: Bm3dFloat,
    Fft: Fn(&Grid<F>) -> Grid<Complex<F>>,
    Ifft: Fn(&Grid<Complex<F>>) -> Grid<F>,
    Step: Fn(
        &Grid<F>,
        &Grid<F>,
        Bm3dMode,
        &Grid<F>,
        &Grid<F>,
        Option<&Grid<F>>,
        &Bm3dKernelConfig<F>,
    ) -> Result<Grid<F>, String>,
    Robust: Fn(&Vec<F>) -> F,
    P: Fn(usize, usize) -> Result<(), String>,
>(
    ops: Operations<Fft, Ifft, Step, Robust>,
    observed: Seq<Matrix<F>>,
    psf: Matrix<F>,
    config: Bm3dDeblurConfig<F>,
    transfer: Matrix<Complex<F>>,
    progress: Option<&P>,
    done: Seq<Matrix<F>>,
) -> bool {
    &&& done.len() <= observed.len()
    &&& forall|i: int|
        0 <= i < done.len() ==> {
            &&& is_slice_outcome(
                ops,
                observed[i],
                psf,
                config,
                transfer,
                Ok::<Matrix<F>, Seq<char>>(#[trigger] done[i]),
            )
            &&& is_progress_outcome(progress, i + 1, observed.len() as int, Ok(()))
        }
}

/// Whether a run over a stack may stop with `error` at slice `k`: the slice cannot be
/// deblurred, or the observer objects once it has been.
pub open spec fn stops_at_slice<
    F: Bm3dFloat,
    Fft: Fn(&Grid<F>) -> Grid<Complex<F>>,
    Ifft: Fn(&Grid<Complex<F>>) -> Grid<F>,
    Step: Fn(
        &Grid<F>,
        &Grid<F>,
        Bm3dMode,
        &Grid<F>,
        &Grid<F>,
        Option<&Grid<F>>,
        &Bm3dKernelConfig<F>,
    ) -> Result<Grid<F>, String>,
    Robust: Fn(&Vec<F>) -> F,
    P: Fn(usize, usize) -> Result<(), String>,
>(
    ops: Operations<Fft, Ifft, Step, Robust>,
    observed: Seq<Matrix<F>>,
    psf: Matrix<F>,
    config: Bm3dDeblurConfig<F>,
    transfer: Matrix<Complex<F>>,
    progress: Option<&P>,
    k: int,
    error: Seq<char>,
) -> bool {
    ||| is_slice_outcome(
        ops,
        observed[k],
        psf,
        config,
        transfer,
        Err::<Matrix<F>, Seq<char>>(error),
    )
    ||| {
        &&& exists|estimate: Matrix<F>| #[trigger]
            is_slice_outcome(
                ops,
                observed[k],
                psf,
                config,
                transfer,
                Ok::<Matrix<F>, Seq<char>>(estimate),
            )
        &&& is_progress_outcome(progress, k + 1, observed.len() as int, Err(error))
    }
}

/// Whether a run over a stack may stop with `error` after some slices have gone well.
pub open spec fn stops_with<
    F: Bm3dFloat,
    Fft: Fn(&Grid<F>) -> Grid<Complex<F>>,
    Ifft: Fn(&Grid<Complex<F>>) -> Grid<F>,
    Step: Fn(
        &Grid<F>,
        &Grid<F>,
        Bm3dMode,
        &Grid<F>,
        &Grid<F>,
        Option<&Grid<F>>,
        &Bm3dKernelConfig<F>,
    ) -> Result<Grid<F>, String>,
    Robust: Fn(&Vec<F>) -> F,
    P: Fn(usize, usize) -> Result<(), String>,
>(
    ops: Operations<Fft, Ifft, Step, Robust>,
    observed: Seq<Matrix<F>>,
    psf: Matrix<F>,
    config: Bm3dDeblurConfig<F>,
    transfer: Matrix<Complex<F>>,
    progress: Option<&P>,
    error: Seq<char>,
) -> bool {
    exists|done: Seq<Matrix<F>>|
        {
            &&& done.len() < observed.len()
            &&& #[trigger] are_first_slices(ops, observed, psf, config, transfer, progress, done)
            &&& stops_at_slice(
                ops,
                observed,
                psf,
                config,
                transfer,
                progress,
                done.len() as int,
                error,
            )
        }
}

/// Whether `outcome` is one that a request to deblur a stack may have, once it has not been
/// turned down. One transfer function serves all slices; a stack of no slices is given back
/// without any work.
pub open spec fn is_stack_run<
    F: Bm3dFloat,
    Fft: Fn(&Grid<F>) -> Grid<Complex<F>>,
    Ifft: Fn(&Grid<Complex<F>>) -> Grid<F>,
    Step: Fn(
        &Grid<F>,
        &Grid<F>,
        Bm3dMode,
        &Grid<F>,
        &Grid<F>,
        Option<&Grid<F>>,
        &Bm3dKernelConfig<F>,
    ) -> Result<Grid<F>, String>,
    Robust: Fn(&Vec<F>) -> F,
    P: Fn(usize, usize) -> Result<(), String>,
>(
    ops: Operations<Fft, Ifft, Step, Robust>,
    observed: StackModel<F>,
    psf: Matrix<F>,
    config: Bm3dDeblurConfig<F>,
    progress: Option<&P>,
    outcome: Result<StackModel<F>, Seq<char>>,
) -> bool {
    if observed.slices.len() == 0 {
        outcome == Ok::<StackModel<F>, Seq<char>>(observed)
    } else {
        exists|transfer: Matrix<Complex<F>>|
            {
                &&& #[trigger] is_transfer(
                    ops.fft2d,
                    observed.rows as int,
                    observed.cols as int,
                    psf,
                    config,
                    transfer,
                )
                &&& match outcome {
                    Ok(estimates) => {
                        &&& estimates.rows == observed.rows
                        &&& estimates.cols == observed.cols
                        &&& estimates.slices.len() == observed.slices.len()
                        &&& are_first_slices(
                            ops,
                            observed.slices,
                            psf,
                            config,
                            transfer,
                            progress,
                            estimates.slices,
                        )
                    },
                    Err(error) => stops_with(
                        ops,
                        observed.slices,
                        psf,
                        config,
                        transfer,
                        progress,
                        error,
                    ),
                }
            }
    }
}

/// The content of an outcome of [`bm3d_deblur_stack`].
pub open spec fn stack_content<F: Bm3dFloat>(
    o: Result<Stack<F>, String>,
) -> Result<StackModel<F>, Seq<char>> {
    match o {
        Ok(stack) => Ok(stack@),
        Err(e) => Err(e@),
    }
}

/// BM3D-DEB deblurring of a 3D stack, slice by slice.
///
/// The transfer function is computed once and reused for every slice. Normalization and (if
/// enabled) noise estimation are done per slice.
///
/// An optional `progress_fn` callback is invoked after each slice with
/// `(completed, total)` counts. If the callback returns `Err`, the loop aborts and the
/// error is propagated.
pub fn bm3d_deblur_stack<
    F: Bm3dFloat,
    Fft: Fn(&Grid<F>) -> Grid<Complex<F>>,
    Ifft: Fn(&Grid<Complex<F>>) -> Grid<F>,
    Step: Fn(
        &Grid<F>,
        &Grid<F>,
        Bm3dMode,
        &Grid<F>,
        &Grid<F>,
        Option<&Grid<F>>,
        &Bm3dKernelConfig<F>,
    ) -> Result<Grid<F>, String>,
    Robust: Fn(&Vec<F>) -> F,
    P: Fn(usize, usize) -> Result<(), String>,
>(
    observed: &Stack<F>,
    psf: &Grid<F>,
    config: &Bm3dDeblurConfig<F>,
    ops: &Operations<Fft, Ifft, Step, Robust>,
    progress_fn: Option<&P>,
) -> (outcome: Result<Stack<F>, String>)
    requires
        observed@.slices.len() > 0 && rejection(
            observed@.rows as int,
            observed@.cols as int,
            psf@,
            *config,
        ) is None ==> request_fits(observed@.rows as int, observed@.cols as int, psf@, *config)
            && operations_serve(
            *ops,
            observed@.rows as int,
            observed@.cols as int,
            psf@,
            *config,
        ),
        progress_fn matches Some(p) ==> forall|completed: usize, total: usize|
            0 < completed <= total && total == observed@.slices.len() ==> #[trigger] call_requires(
                *p,
                (completed, total),
            ),
    ensures
        match rejection(observed@.rows as int, observed@.cols as int, psf@, *config) {
            Some(message) => outcome matches Err(e) && e@ == message,
            None => is_stack_run(
                *ops,
                observed@,
                psf@,
                *config,
                progress_fn,
                stack_content(outcome),
            ),
        },
        outcome matches Ok(stack) ==> is_stack_run(
            *ops,
            observed@,
            psf@,
            *config,
            progress_fn,
            Ok::<StackModel<F>, Seq<char>>(stack@),
        ),
        outcome matches Ok(stack) ==> stack@.rows == observed@.rows && stack@.cols
            == observed@.cols && stack@.slices.len() == observed@.slices.len(),
{
    let (n, rows, cols) = observed.dim();
    let unit_psf = match accept_request(rows, cols, psf, config) {
        Ok(unit_psf) => unit_psf,
        Err(error) => {
            return Err(error);
        },
    };
    let mut output = Stack::new(rows, cols);
    if n == 0 {
        assert(output@.slices =~= observed@.slices);
        return Ok(output);
    }

    // Padding geometry is identical for every slice, so build the transfer function once.
    let transfer = request_transfer(rows, cols, psf, &unit_psf, config, ops);

    let mut i: usize = 0;
    while i < n
        invariant
            i <= n == observed@.slices.len(),
            operations_serve(*ops, rows as int, cols as int, psf@, *config),
            rejection(rows as int, cols as int, psf@, *config) is None,
            request_fits(rows as int, cols as int, psf@, *config),
            rows == observed@.rows,
            cols == observed@.cols,
            is_transfer(ops.fft2d, rows as int, cols as int, psf@, *config, transfer@),
            (transfer@.rows as int, transfer@.cols as int) == padded_shape_spec(
                rows as int,
                cols as int,
                psf@.rows as int,
                psf@.cols as int,
                config.patch_size as int,
                config.boundary,
            ),
            progress_fn matches Some(p) ==> forall|completed: usize, total: usize|
                0 < completed <= total && total == observed@.slices.len()
                    ==> #[trigger] call_requires(*p, (completed, total)),
            output@.rows == rows,
            output@.cols == cols,
            output@.slices.len() == i,
            are_first_slices(
                *ops,
                observed@.slices,
                psf@,
                *config,
                transfer@,
                progress_fn,
                output@.slices,
            ),
        decreases n - i,
    {
        let slice = observed.slice(i);
        let detailed = deblur_image(slice, psf, config, &transfer, ops);
        assert(is_image_outcome(
            *ops,
            observed@.slices[i as int],
            psf@,
            *config,
            transfer@,
            detail_content(detailed),
        ));
        let result = match detailed {
            Ok(result) => result,
            Err(error) => {
                assert(is_slice_outcome(
                    *ops,
                    observed@.slices[i as int],
                    psf@,
                    *config,
                    transfer@,
                    Err::<Matrix<F>, Seq<char>>(error@),
                ));
                return Err(error);
            },
        };
        assert(is_slice_outcome(
            *ops,
            observed@.slices[i as int],
            psf@,
            *config,
            transfer@,
            Ok::<Matrix<F>, Seq<char>>(result.estimate@),
        ));
        if let Some(callback) = progress_fn {
            let answer = callback(i + 1, n);
            assert(call_ensures(*callback, ((i + 1) as usize, n), answer));
            match answer {
                Ok(()) => {},
                Err(error) => {
                    assert(is_progress_outcome(progress_fn, i + 1, n as int, Err(error@)));
                    return Err(error);
                },
            }
        }
        assert(is_progress_outcome(progress_fn, i + 1, n as int, Ok(())));
        let ghost before = output@.slices;
        output = output.with_slice(result.estimate);
        proof {
            let done = output@.slices;
            assert forall|j: int| 0 <= j < done.len() implies {
                &&& is_slice_outcome(
                    *ops,
                    observed@.slices[j],
                    psf@,
                    *config,
                    transfer@,
                    Ok::<Matrix<F>, Seq<char>>(#[trigger] done[j]),
                )
                &&& is_progress_outcome(progress_fn, j + 1, n as int, Ok(()))
            } by {
                if j < i {
                    assert(done[j] == before[j]);
                }
            }
            assert(are_first_slices(
                *ops,
                observed@.slices,
                psf@,
                *config,
                transfer@,
                progress_fn,
                done,
            ));
        }
        i = i + 1;
    }
    Ok(output)
}

} // verus!
