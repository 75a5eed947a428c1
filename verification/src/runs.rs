//! What holds of every deblurring run, whatever the operations answer.

use crate::complex::Complex;
use crate::config::Bm3dDeblurConfig;
use crate::deblur::{
    are_first_slices, estimate_of, first_filter, is_deblurring, is_estimate_of_run,
    is_first_stage, is_image_outcome, is_noise_level, is_progress_outcome, is_run,
    is_second_stage, is_slice_outcome, is_stack_run, is_stage, is_transfer, pilot_of,
    second_filter, stops_at_slice, stops_with,
};
use crate::float_trait::Bm3dFloat;
use crate::grid::{lemma_same_matrix, Grid, Matrix};
use crate::kernel::{is_filter_outcome, Bm3dKernelConfig, Bm3dMode, Operations};
use crate::laws::estimator_is_function;
use crate::levels::{lowered, mean_of, normalization, raised, to_working};
use crate::padding::padded;
use crate::spectral::{
    coefficient_sigmas, complex_of, filtered, filtered_noise, folded_autocorrelation, is_fft,
    is_ifft, is_patch_noise_sigma,
};
use crate::stack::StackModel;
use crate::white_noise::constant;
use vstd::prelude::*;

verus! {

/// Every slice of a deblurred stack is what deblurring that slice alone may give.
pub proof fn law_slices_are_deblurred_alone<
    F: Bm3dFloat,
    Fft: Fn(&Grid<F>) -> Grid<Complex<F>>,
    Ifft: Fn(&Grid<Complex<F>>) -> Grid<F>,
    Step: Fn(
        &Grid<F>,
        &Grid<F>,
        Bm3dMode,
        &Grid<F>,
        &Grid<F>,
        Option<&Grid<F>>,
        &Bm3dKernelConfig<F>,
    ) -> Result<Grid<F>, String>,
    Robust: Fn(&Vec<F>) -> F,
    P: Fn(usize, usize) -> Result<(), String>,
>(
    ops: Operations<Fft, Ifft, Step, Robust>,
    observed: StackModel<F>,
    psf: Matrix<F>,
    config: Bm3dDeblurConfig<F>,
    progress: Option<&P>,
    estimates: StackModel<F>,
    i: int,
)
    requires
        0 <= i < observed.slices.len(),
        observed.slices[i].rows == observed.rows,
        observed.slices[i].cols == observed.cols,
        is_stack_run(
            ops,
            observed,
            psf,
            config,
            progress,
            Ok::<StackModel<F>, Seq<char>>(estimates),
        ),
    ensures
        estimates.slices.len() == observed.slices.len(),
        is_estimate_of_run(
            ops,
            observed.slices[i],
            psf,
            config,
            Ok::<Matrix<F>, Seq<char>>(estimates.slices[i]),
        ),
{
    let slice = observed.slices[i];
    let transfer = choose|transfer: Matrix<Complex<F>>|
        {
            &&& #[trigger] is_transfer(
                ops.fft2d,
                observed.rows as int,
                observed.cols as int,
                psf,
                config,
                transfer,
            )
            &&& estimates.slices.len() == observed.slices.len()
            &&& are_first_slices(
                ops,
                observed.slices,
                psf,
                config,
                transfer,
                progress,
                estimates.slices,
            )
        };
    let outcome = Ok::<Matrix<F>, Seq<char>>(estimates.slices[i]);
    assert(is_slice_outcome(ops, slice, psf, config, transfer, outcome));
    let full = choose|full: Result<(Matrix<F>, Matrix<F>, F), Seq<char>>|
        #[trigger] is_image_outcome(ops, slice, psf, config, transfer, full) && outcome
            == estimate_of(full);
    assert(is_transfer(
        ops.fft2d,
        slice.rows as int,
        slice.cols as int,
        psf,
        config,
        transfer,
    ));
    assert(is_run(ops, slice, psf, config, full));
}

/// Whether the collaborative filter never answers with an error.
pub open spec fn filter_never_fails<
    F: Bm3dFloat,
    Step: Fn(
        &Grid<F>,
        &Grid<F>,
        Bm3dMode,
        &Grid<F>,
        &Grid<F>,
        Option<&Grid<F>>,
        &Bm3dKernelConfig<F>,
    ) -> Result<Grid<F>, String>,
>(step: Step) -> bool {
    forall|
        noisy: Matrix<F>,
        pilot: Matrix<F>,
        mode: Bm3dMode,
        sigmas: Matrix<F>,
        kernel: Bm3dKernelConfig<F>,
        error: Seq<char>,
    |
        !#[trigger] is_filter_outcome(
            step,
            noisy,
            pilot,
            mode,
            sigmas,
            kernel,
            Err::<Matrix<F>, Seq<char>>(error),
        )
}

/// A request that has not been turned down succeeds unless the collaborative filter fails.
pub proof fn law_only_the_filter_can_fail<
    F: Bm3dFloat,
    Fft: Fn(&Grid<F>) -> Grid<Complex<F>>,
    Ifft: Fn(&Grid<Complex<F>>) -> Grid<F>,
    Step: Fn(
        &Grid<F>,
        &Grid<F>,
        Bm3dMode,
        &Grid<F>,
        &Grid<F>,
        Option<&Grid<F>>,
        &Bm3dKernelConfig<F>,
    ) -> Result<Grid<F>, String>,
    Robust: Fn(&Vec<F>) -> F,
>(
    ops: Operations<Fft, Ifft, Step, Robust>,
    observed: Matrix<F>,
    psf: Matrix<F>,
    config: Bm3dDeblurConfig<F>,
    outcome: Result<(Matrix<F>, Matrix<F>, F), Seq<char>>,
)
    requires
        filter_never_fails(ops.run_bm3d_step_colored_noise),
        is_run(ops, observed, psf, config, outcome),
    ensures
        outcome is Ok,
{
}

/// What is lost in the inversion is lost towards the mean: if nothing of the centred image
/// survives a stage, then its collaborative filter is given an image that is the mean
/// everywhere.
pub proof fn law_lost_detail_leaves_the_mean<
    F: Bm3dFloat,
    Fft: Fn(&Grid<F>) -> Grid<Complex<F>>,
    Ifft: Fn(&Grid<Complex<F>>) -> Grid<F>,
    Step: Fn(
        &Grid<F>,
        &Grid<F>,
        Bm3dMode,
        &Grid<F>,
        &Grid<F>,
        Option<&Grid<F>>,
        &Bm3dKernelConfig<F>,
    ) -> Result<Grid<F>, String>,
    Robust: Fn(&Vec<F>) -> F,
>(
    ops: Operations<Fft, Ifft, Step, Robust>,
    spectrum: Matrix<Complex<F>>,
    filter: Matrix<Complex<F>>,
    mean: F,
    sigma_sq: F,
    pilot: Option<Matrix<F>>,
    mode: Bm3dMode,
    kernel: Bm3dKernelConfig<F>,
    outcome: Result<Matrix<F>, Seq<char>>,
)
    requires
        F::zero_spec().plus_spec(mean) == mean,
        forall|inverted: Matrix<F>| #[trigger]
            is_ifft(ops.ifft2d, filtered(spectrum, filter), inverted) ==> inverted == constant(
                spectrum.rows,
                spectrum.cols,
                F::zero_spec(),
            ),
        is_stage(ops, spectrum, filter, mean, sigma_sq, pilot, mode, kernel, outcome),
    ensures
        exists|sigmas: Matrix<F>|
            is_filter_outcome(
                ops.run_bm3d_step_colored_noise,
                constant(spectrum.rows, spectrum.cols, mean),
                pilot_of(pilot, constant(spectrum.rows, spectrum.cols, mean)),
                mode,
                sigmas,
                kernel,
                outcome,
            ),
{
    let nothing = constant(spectrum.rows, spectrum.cols, F::zero_spec());
    let level = constant(spectrum.rows, spectrum.cols, mean);
    let noisy = raised(nothing, mean);
    lemma_same_matrix(noisy, level);
}

/// Whether every operation has a single answer to each question.
pub open spec fn operations_are_functions<
    F: Bm3dFloat,
    Fft: Fn(&Grid<F>) -> Grid<Complex<F>>,
    Ifft: Fn(&Grid<Complex<F>>) -> Grid<F>,
    Step: Fn(
        &Grid<F>,
        &Grid<F>,
        Bm3dMode,
        &Grid<F>,
        &Grid<F>,
        Option<&Grid<F>>,
        &Bm3dKernelConfig<F>,
    ) -> Result<Grid<F>, String>,
    Robust: Fn(&Vec<F>) -> F,
>(ops: Operations<Fft, Ifft, Step, Robust>) -> bool {
    &&& forall|image: Matrix<F>, a: Matrix<Complex<F>>, b: Matrix<Complex<F>>|
        #[trigger] is_fft(ops.fft2d, image, a) && #[trigger] is_fft(ops.fft2d, image, b) ==> a == b
    &&& forall|spectrum: Matrix<Complex<F>>, a: Matrix<F>, b: Matrix<F>|
        #[trigger] is_ifft(ops.ifft2d, spectrum, a) && #[trigger] is_ifft(ops.ifft2d, spectrum, b)
            ==> a == b
    &&& forall|
        noisy: Matrix<F>,
        pilot: Matrix<F>,
        mode: Bm3dMode,
        sigmas: Matrix<F>,
        kernel: Bm3dKernelConfig<F>,
        a: Result<Matrix<F>, Seq<char>>,
        b: Result<Matrix<F>, Seq<char>>,
    |
        #[trigger] is_filter_outcome(
            ops.run_bm3d_step_colored_noise,
            noisy,
            pilot,
            mode,
            sigmas,
            kernel,
            a,
        ) && #[trigger] is_filter_outcome(
            ops.run_bm3d_step_colored_noise,
            noisy,
            pilot,
            mode,
            sigmas,
            kernel,
            b,
        ) ==> a == b
    &&& estimator_is_function(ops.estimate_robust_sigma)
}

/// A stage has a single outcome if the operations do.
proof fn lemma_stage_is_determined<
    F: Bm3dFloat,
    Fft: Fn(&Grid<F>) -> Grid<Complex<F>>,
    Ifft: Fn(&Grid<Complex<F>>) -> Grid<F>,
    Step: Fn(
        &Grid<F>,
        &Grid<F>,
        Bm3dMode,
        &Grid<F>,
        &Grid<F>,
        Option<&Grid<F>>,
        &Bm3dKernelConfig<F>,
    ) -> Result<Grid<F>, String>,
    Robust: Fn(&Vec<F>) -> F,
>(
    ops: Operations<Fft, Ifft, Step, Robust>,
    spectrum: Matrix<Complex<F>>,
    filter: Matrix<Complex<F>>,
    mean: F,
    sigma_sq: F,
    pilot: Option<Matrix<F>>,
    mode: Bm3dMode,
    kernel: Bm3dKernelConfig<F>,
    a: Result<Matrix<F>, Seq<char>>,
    b: Result<Matrix<F>, Seq<char>>,
)
    requires
        operations_are_functions(ops),
        is_stage(ops, spectrum, filter, mean, sigma_sq, pilot, mode, kernel, a),
        is_stage(ops, spectrum, filter, mean, sigma_sq, pilot, mode, kernel, b),
    ensures
        a == b,
{
    let psd = filtered_noise(filter, sigma_sq);
    let size = kernel.patch_size as int;
    assert forall|s: Matrix<F>, t: Matrix<F>|
        #[trigger] is_patch_noise_sigma(ops.fft2d, ops.ifft2d, psd, size, s)
            && #[trigger] is_patch_noise_sigma(ops.fft2d, ops.ifft2d, psd, size, t) implies s
        == t by {
        let (acf, folded) = choose|acf: Matrix<F>, folded: Matrix<Complex<F>>|
            {
                &&& #[trigger] is_ifft(ops.ifft2d, complex_of(psd), acf)
                &&& #[trigger] is_fft(ops.fft2d, folded_autocorrelation(acf, size), folded)
                &&& s == coefficient_sigmas(folded)
            };
        let (acf_t, folded_t) = choose|acf: Matrix<F>, folded: Matrix<Complex<F>>|
            {
                &&& #[trigger] is_ifft(ops.ifft2d, complex_of(psd), acf)
                &&& #[trigger] is_fft(ops.fft2d, folded_autocorrelation(acf, size), folded)
                &&& t == coefficient_sigmas(folded)
            };
        assert(acf == acf_t);
        assert(folded == folded_t);
    }
}

/// The second stage has a single outcome if the operations do.
proof fn lemma_second_stage_is_determined<
    F: Bm3dFloat,
    Fft: Fn(&Grid<F>) -> Grid<Complex<F>>,
    Ifft: Fn(&Grid<Complex<F>>) -> Grid<F>,
    Step: Fn(
        &Grid<F>,
        &Grid<F>,
        Bm3dMode,
        &Grid<F>,
        &Grid<F>,
        Option<&Grid<F>>,
        &Bm3dKernelConfig<F>,
    ) -> Result<Grid<F>, String>,
    Robust: Fn(&Vec<F>) -> F,
>(
    ops: Operations<Fft, Ifft, Step, Robust>,
    observed: Matrix<F>,
    sigma: F,
    config: Bm3dDeblurConfig<F>,
    transfer: Matrix<Complex<F>>,
    spectrum: Matrix<Complex<F>>,
    first: Matrix<F>,
    a: Result<Matrix<F>, Seq<char>>,
    b: Result<Matrix<F>, Seq<char>>,
)
    requires
        operations_are_functions(ops),
        is_second_stage(ops, observed, sigma, config, transfer, spectrum, first, a),
        is_second_stage(ops, observed, sigma, config, transfer, spectrum, first, b),
    ensures
        a == b,
{
    let mean = mean_of(observed);
    let sigma_sq = sigma.times_spec(sigma);
    let kernel = Bm3dKernelConfig::for_pass(config, F::zero_spec());
    let p = choose|p: Matrix<Complex<F>>|
        {
            &&& #[trigger] is_fft(ops.fft2d, lowered(first, mean), p)
            &&& is_stage(
                ops,
                spectrum,
                second_filter(observed, sigma, config, transfer, p),
                mean,
                sigma_sq,
                Some(first),
                Bm3dMode::Wiener,
                kernel,
                a,
            )
        };
    let q = choose|q: Matrix<Complex<F>>|
        {
            &&& #[trigger] is_fft(ops.fft2d, lowered(first, mean), q)
            &&& is_stage(
                ops,
                spectrum,
                second_filter(observed, sigma, config, transfer, q),
                mean,
                sigma_sq,
                Some(first),
                Bm3dMode::Wiener,
                kernel,
                b,
            )
        };
    assert(p == q);
    lemma_stage_is_determined(
        ops,
        spectrum,
        second_filter(observed, sigma, config, transfer, p),
        mean,
        sigma_sq,
        Some(first),
        Bm3dMode::Wiener,
        kernel,
        a,
        b,
    );
}

/// The first stage has a single outcome if the operations do.
proof fn lemma_first_stage_is_determined<
    F: Bm3dFloat,
    Fft: Fn(&Grid<F>) -> Grid<Complex<F>>,
    Ifft: Fn(&Grid<Complex<F>>) -> Grid<F>,
    Step: Fn(
        &Grid<F>,
        &Grid<F>,
        Bm3dMode,
        &Grid<F>,
        &Grid<F>,
        Option<&Grid<F>>,
        &Bm3dKernelConfig<F>,
    ) -> Result<Grid<F>, String>,
    Robust: Fn(&Vec<F>) -> F,
>(
    ops: Operations<Fft, Ifft, Step, Robust>,
    observed: Matrix<F>,
    sigma: F,
    config: Bm3dDeblurConfig<F>,
    transfer: Matrix<Complex<F>>,
    spectrum: Matrix<Complex<F>>,
    a: Result<Matrix<F>, Seq<char>>,
    b: Result<Matrix<F>, Seq<char>>,
)
    requires
        operations_are_functions(ops),
        is_first_stage(ops, observed, sigma, config, transfer, spectrum, a),
        is_first_stage(ops, observed, sigma, config, transfer, spectrum, b),
    ensures
        a == b,
{
    lemma_stage_is_determined(
        ops,
        spectrum,
        first_filter(observed, sigma, config, transfer),
        mean_of(observed),
        sigma.times_spec(sigma),
        None,
        Bm3dMode::HardThreshold,
        Bm3dKernelConfig::for_pass(config, config.threshold),
        a,
        b,
    );
}

/// Deblurring a padded image has a single outcome if the operations do.
pub proof fn law_deblurring_is_determined<
    F: Bm3dFloat,
    Fft: Fn(&Grid<F>) -> Grid<Complex<F>>,
    Ifft: Fn(&Grid<Complex<F>>) -> Grid<F>,
    Step: Fn(
        &Grid<F>,
        &Grid<F>,
        Bm3dMode,
        &Grid<F>,
        &Grid<F>,
        Option<&Grid<F>>,
        &Bm3dKernelConfig<F>,
    ) -> Result<Grid<F>, String>,
    Robust: Fn(&Vec<F>) -> F,
>(
    ops: Operations<Fft, Ifft, Step, Robust>,
    observed: Matrix<F>,
    sigma: F,
    config: Bm3dDeblurConfig<F>,
    transfer: Matrix<Complex<F>>,
    a: Result<(Matrix<F>, Matrix<F>), Seq<char>>,
    b: Result<(Matrix<F>, Matrix<F>), Seq<char>>,
)
    requires
        operations_are_functions(ops),
        is_deblurring(ops, observed, sigma, config, transfer, a),
        is_deblurring(ops, observed, sigma, config, transfer, b),
    ensures
        a == b,
{
    let centered = lowered(observed, mean_of(observed));
    let spectrum = choose|spectrum: Matrix<Complex<F>>| #[trigger]
        is_fft(ops.fft2d, centered, spectrum);
    assert forall|s: Matrix<Complex<F>>| #[trigger] is_fft(ops.fft2d, centered, s) implies s
        == spectrum by {}
    assert forall|x: Result<Matrix<F>, Seq<char>>, y: Result<Matrix<F>, Seq<char>>|
        #[trigger] is_first_stage(ops, observed, sigma, config, transfer, spectrum, x)
            && #[trigger] is_first_stage(ops, observed, sigma, config, transfer, spectrum, y)
        implies x == y by {
        lemma_first_stage_is_determined(
            ops,
            observed,
            sigma,
            config,
            transfer,
            spectrum,
            x,
            y,
        );
    }
    assert forall|
        first: Matrix<F>,
        x: Result<Matrix<F>, Seq<char>>,
        y: Result<Matrix<F>, Seq<char>>,
    |
        #[trigger] is_second_stage(ops, observed, sigma, config, transfer, spectrum, first, x)
            && #[trigger] is_second_stage(
            ops,
            observed,
            sigma,
            config,
            transfer,
            spectrum,
            first,
            y,
        ) implies x == y by {
        lemma_second_stage_is_determined(
            ops,
            observed,
            sigma,
            config,
            transfer,
            spectrum,
            first,
            x,
            y,
        );
    }
}

/// A request that has not been turned down has a single outcome if every operation has a single
/// answer to each question: nothing but the operations decides.
pub proof fn law_runs_are_determined<
    F: Bm3dFloat,
    Fft: Fn(&Grid<F>) -> Grid<Complex<F>>,
    Ifft: Fn(&Grid<Complex<F>>) -> Grid<F>,
    Step: Fn(
        &Grid<F>,
        &Grid<F>,
        Bm3dMode,
        &Grid<F>,
        &Grid<F>,
        Option<&Grid<F>>,
        &Bm3dKernelConfig<F>,
    ) -> Result<Grid<F>, String>,
    Robust: Fn(&Vec<F>) -> F,
>(
    ops: Operations<Fft, Ifft, Step, Robust>,
    observed: Matrix<F>,
    psf: Matrix<F>,
    config: Bm3dDeblurConfig<F>,
    a: Result<(Matrix<F>, Matrix<F>, F), Seq<char>>,
    b: Result<(Matrix<F>, Matrix<F>, F), Seq<char>>,
)
    requires
        operations_are_functions(ops),
        is_run(ops, observed, psf, config, a),
        is_run(ops, observed, psf, config, b),
    ensures
        a == b,
{
    let rows = observed.rows as int;
    let cols = observed.cols as int;
    let v = choose|v: Matrix<Complex<F>>|
        {
            &&& #[trigger] is_transfer(ops.fft2d, rows, cols, psf, config, v)
            &&& is_image_outcome(ops, observed, psf, config, v, a)
        };
    let w = choose|w: Matrix<Complex<F>>|
        {
            &&& #[trigger] is_transfer(ops.fft2d, rows, cols, psf, config, w)
            &&& is_image_outcome(ops, observed, psf, config, w, b)
        };
    assert(v == w);
    lemma_image_outcome_is_determined(ops, observed, psf, config, v, a, b);
}

/// Deblurring an image with a known transfer function has a single outcome if the operations
/// do.
proof fn lemma_image_outcome_is_determined<
    F: Bm3dFloat,
    Fft: Fn(&Grid<F>) -> Grid<Complex<F>>,
    Ifft: Fn(&Grid<Complex<F>>) -> Grid<F>,
    Step: Fn(
        &Grid<F>,
        &Grid<F>,
        Bm3dMode,
        &Grid<F>,
        &Grid<F>,
        Option<&Grid<F>>,
        &Bm3dKernelConfig<F>,
    ) -> Result<Grid<F>, String>,
    Robust: Fn(&Vec<F>) -> F,
>(
    ops: Operations<Fft, Ifft, Step, Robust>,
    observed: Matrix<F>,
    psf: Matrix<F>,
    config: Bm3dDeblurConfig<F>,
    transfer: Matrix<Complex<F>>,
    a: Result<(Matrix<F>, Matrix<F>, F), Seq<char>>,
    b: Result<(Matrix<F>, Matrix<F>, F), Seq<char>>,
)
    requires
        operations_are_functions(ops),
        is_image_outcome(ops, observed, psf, config, transfer, a),
        is_image_outcome(ops, observed, psf, config, transfer, b),
    ensures
        a == b,
{
    let (offset, scale) = normalization(observed, config.normalize);
    let work = to_working(observed, offset, scale);
    let large = padded(
        work,
        psf.rows as int,
        psf.cols as int,
        config.patch_size as int,
        config.boundary,
    );
    assert forall|
        s: F,
        t: F,
        x: Result<(Matrix<F>, Matrix<F>), Seq<char>>,
        y: Result<(Matrix<F>, Matrix<F>), Seq<char>>,
    |
        is_noise_level(ops.estimate_robust_sigma, config, work, scale, s) && is_noise_level(
            ops.estimate_robust_sigma,
            config,
            work,
            scale,
            t,
        ) && #[trigger] is_deblurring(ops, large, s, config, transfer, x)
            && #[trigger] is_deblurring(ops, large, t, config, transfer, y) implies s == t && x
        == y by {
        assert(s == t);
        law_deblurring_is_determined(ops, large, s, config, transfer, x, y);
    }
}

/// Whether the observer of progress has a single answer to each report.
pub open spec fn observer_is_function<P: Fn(usize, usize) -> Result<(), String>>(
    progress: Option<&P>,
) -> bool {
    forall|completed: int, total: int, a: Result<(), Seq<char>>, b: Result<(), Seq<char>>|
        #[trigger] is_progress_outcome(progress, completed, total, a)
            && #[trigger] is_progress_outcome(progress, completed, total, b) ==> a == b
}

/// A run over a stack cannot stop at a slice that it has passed.
proof fn lemma_passed_slice_does_not_stop<
    F: Bm3dFloat,
    Fft: Fn(&Grid<F>) -> Grid<Complex<F>>,
    Ifft: Fn(&Grid<Complex<F>>) -> Grid<F>,
    Step: Fn(
        &Grid<F>,
        &Grid<F>,
        Bm3dMode,
        &Grid<F>,
        &Grid<F>,
        Option<&Grid<F>>,
        &Bm3dKernelConfig<F>,
    ) -> Result<Grid<F>, String>,
    Robust: Fn(&Vec<F>) -> F,
    P: Fn(usize, usize) -> Result<(), String>,
>(
    ops: Operations<Fft, Ifft, Step, Robust>,
    observed: Seq<Matrix<F>>,
    psf: Matrix<F>,
    config: Bm3dDeblurConfig<F>,
    transfer: Matrix<Complex<F>>,
    progress: Option<&P>,
    done: Seq<Matrix<F>>,
    k: int,
    error: Seq<char>,
)
    requires
        operations_are_functions(ops),
        observer_is_function(progress),
        are_first_slices(ops, observed, psf, config, transfer, progress, done),
        0 <= k < done.len(),
    ensures
        !stops_at_slice(ops, observed, psf, config, transfer, progress, k, error),
{
    let good = Ok::<Matrix<F>, Seq<char>>(done[k]);
    let bad = Err::<Matrix<F>, Seq<char>>(error);
    assert(is_slice_outcome(ops, observed[k], psf, config, transfer, good));
    if is_slice_outcome(ops, observed[k], psf, config, transfer, bad) {
        lemma_slice_is_determined(ops, observed[k], psf, config, transfer, good, bad);
    }
    assert(is_progress_outcome(progress, k + 1, observed.len() as int, Ok(())));
    let objection = Err::<(), Seq<char>>(error);
    if is_progress_outcome(progress, k + 1, observed.len() as int, objection) {
        assert(objection == Ok::<(), Seq<char>>(()));
    }
}

/// A slice has a single outcome if the operations do.
proof fn lemma_slice_is_determined<
    F: Bm3dFloat,
    Fft: Fn(&Grid<F>) -> Grid<Complex<F>>,
    Ifft: Fn(&Grid<Complex<F>>) -> Grid<F>,
    Step: Fn(
        &Grid<F>,
        &Grid<F>,
        Bm3dMode,
        &Grid<F>,
        &Grid<F>,
        Option<&Grid<F>>,
        &Bm3dKernelConfig<F>,
    ) -> Result<Grid<F>, String>,
    Robust: Fn(&Vec<F>) -> F,
>(
    ops: Operations<Fft, Ifft, Step, Robust>,
    slice: Matrix<F>,
    psf: Matrix<F>,
    config: Bm3dDeblurConfig<F>,
    transfer: Matrix<Complex<F>>,
    a: Result<Matrix<F>, Seq<char>>,
    b: Result<Matrix<F>, Seq<char>>,
)
    requires
        operations_are_functions(ops),
        is_slice_outcome(ops, slice, psf, config, transfer, a),
        is_slice_outcome(ops, slice, psf, config, transfer, b),
    ensures
        a == b,
{
    let x = choose|full: Result<(Matrix<F>, Matrix<F>, F), Seq<char>>|
        #[trigger] is_image_outcome(ops, slice, psf, config, transfer, full) && a == estimate_of(
            full,
        );
    let y = choose|full: Result<(Matrix<F>, Matrix<F>, F), Seq<char>>|
        #[trigger] is_image_outcome(ops, slice, psf, config, transfer, full) && b == estimate_of(
            full,
        );
    lemma_image_outcome_is_determined(ops, slice, psf, config, transfer, x, y);
}

/// A run over a stack that stops gives a single error if the operations and the observer have
/// single answers.
proof fn lemma_stop_is_determined<
    F: Bm3dFloat,
    Fft: Fn(&Grid<F>) -> Grid<Complex<F>>,
    Ifft: Fn(&Grid<Complex<F>>) -> Grid<F>,
    Step: Fn(
        &Grid<F>,
        &Grid<F>,
        Bm3dMode,
        &Grid<F>,
        &Grid<F>,
        Option<&Grid<F>>,
        &Bm3dKernelConfig<F>,
    ) -> Result<Grid<F>, String>,
    Robust: Fn(&Vec<F>) -> F,
    P: Fn(usize, usize) -> Result<(), String>,
>(
    ops: Operations<Fft, Ifft, Step, Robust>,
    observed: Seq<Matrix<F>>,
    psf: Matrix<F>,
    config: Bm3dDeblurConfig<F>,
    transfer: Matrix<Complex<F>>,
    progress: Option<&P>,
    a: Seq<char>,
    b: Seq<char>,
)
    requires
        operations_are_functions(ops),
        observer_is_function(progress),
        stops_with(ops, observed, psf, config, transfer, progress, a),
        stops_with(ops, observed, psf, config, transfer, progress, b),
    ensures
        a == b,
{
    let x = choose|done: Seq<Matrix<F>>|
        {
            &&& done.len() < observed.len()
            &&& #[trigger] are_first_slices(ops, observed, psf, config, transfer, progress, done)
            &&& stops_at_slice(
                ops,
                observed,
                psf,
                config,
                transfer,
                progress,
                done.len() as int,
                a,
            )
        };
    let y = choose|done: Seq<Matrix<F>>|
        {
            &&& done.len() < observed.len()
            &&& #[trigger] are_first_slices(ops, observed, psf, config, transfer, progress, done)
            &&& stops_at_slice(
                ops,
                observed,
                psf,
                config,
                transfer,
                progress,
                done.len() as int,
                b,
            )
        };
    if x.len() < y.len() {
        lemma_passed_slice_does_not_stop(
            ops,
            observed,
            psf,
            config,
            transfer,
            progress,
            y,
            x.len() as int,
            a,
        );
    } else if y.len() < x.len() {
        lemma_passed_slice_does_not_stop(
            ops,
            observed,
            psf,
            config,
            transfer,
            progress,
            x,
            y.len() as int,
            b,
        );
    } else {
        let k = x.len() as int;
        assert forall|p: Result<Matrix<F>, Seq<char>>, q: Result<Matrix<F>, Seq<char>>|
            #[trigger] is_slice_outcome(ops, observed[k], psf, config, transfer, p)
                && #[trigger] is_slice_outcome(ops, observed[k], psf, config, transfer, q)
            implies p == q by {
            lemma_slice_is_determined(ops, observed[k], psf, config, transfer, p, q);
        }
    }
}

/// A request to deblur a stack that has not been turned down has a single outcome if every
/// operation, and the observer, has a single answer to each question.
pub proof fn law_stack_runs_are_determined<
    F: Bm3dFloat,
    Fft: Fn(&Grid<F>) -> Grid<Complex<F>>,
    Ifft: Fn(&Grid<Complex<F>>) -> Grid<F>,
    Step: Fn(
        &Grid<F>,
        &Grid<F>,
        Bm3dMode,
        &Grid<F>,
        &Grid<F>,
        Option<&Grid<F>>,
        &Bm3dKernelConfig<F>,
    ) -> Result<Grid<F>, String>,
    Robust: Fn(&Vec<F>) -> F,
    P: Fn(usize, usize) -> Result<(), String>,
>(
    ops: Operations<Fft, Ifft, Step, Robust>,
    observed: StackModel<F>,
    psf: Matrix<F>,
    config: Bm3dDeblurConfig<F>,
    progress: Option<&P>,
    a: Result<StackModel<F>, Seq<char>>,
    b: Result<StackModel<F>, Seq<char>>,
)
    requires
        operations_are_functions(ops),
        observer_is_function(progress),
        is_stack_run(ops, observed, psf, config, progress, a),
        is_stack_run(ops, observed, psf, config, progress, b),
    ensures
        a == b,
{
    if observed.slices.len() > 0 {
        let rows = observed.rows as int;
        let cols = observed.cols as int;
        let v = choose|v: Matrix<Complex<F>>| #[trigger]
            is_transfer(ops.fft2d, rows, cols, psf, config, v);
        assert forall|w: Matrix<Complex<F>>| #[trigger]
            is_transfer(ops.fft2d, rows, cols, psf, config, w) implies w == v by {}
        match (a, b) {
            (Ok(x), Ok(y)) => {
                assert forall|i: int| 0 <= i < x.slices.len() implies x.slices[i]
                    == y.slices[i] by {
                    lemma_slice_is_determined(
                        ops,
                        observed.slices[i],
                        psf,
                        config,
                        v,
                        Ok::<Matrix<F>, Seq<char>>(x.slices[i]),
                        Ok::<Matrix<F>, Seq<char>>(y.slices[i]),
                    );
                }
                assert(x.slices =~= y.slices);
            },
            (Ok(x), Err(e)) => {
                lemma_whole_stack_does_not_stop(
                    ops,
                    observed.slices,
                    psf,
                    config,
                    v,
                    progress,
                    x.slices,
                    e,
                );
            },
            (Err(e), Ok(y)) => {
                lemma_whole_stack_does_not_stop(
                    ops,
                    observed.slices,
                    psf,
                    config,
                    v,
                    progress,
                    y.slices,
                    e,
                );
            },
            (Err(d), Err(e)) => {
                lemma_stop_is_determined(
                    ops,
                    observed.slices,
                    psf,
                    config,
                    v,
                    progress,
                    d,
                    e,
                );
            },
        }
    }
}

/// A run that can pass all slices of a stack cannot stop at one of them.
proof fn lemma_whole_stack_does_not_stop<
    F: Bm3dFloat,
    Fft: Fn(&Grid<F>) -> Grid<Complex<F>>,
    Ifft: Fn(&Grid<Complex<F>>) -> Grid<F>,
    Step: Fn(
        &Grid<F>,
        &Grid<F>,
        Bm3dMode,
        &Grid<F>,
        &Grid<F>,
        Option<&Grid<F>>,
        &Bm3dKernelConfig<F>,
    ) -> Result<Grid<F>, String>,
    Robust: Fn(&Vec<F>) -> F,
    P: Fn(usize, usize) -> Result<(), String>,
>(
    ops: Operations<Fft, Ifft, Step, Robust>,
    observed: Seq<Matrix<F>>,
    psf: Matrix<F>,
    config: Bm3dDeblurConfig<F>,
    transfer: Matrix<Complex<F>>,
    progress: Option<&P>,
    done: Seq<Matrix<F>>,
    error: Seq<char>,
)
    requires
        operations_are_functions(ops),
        observer_is_function(progress),
        done.len() == observed.len(),
        are_first_slices(ops, observed, psf, config, transfer, progress, done),
    ensures
        !stops_with(ops, observed, psf, config, transfer, progress, error),
{
    assert forall|k: int| 0 <= k < observed.len() implies !#[trigger] stops_at_slice(
        ops,
        observed,
        psf,
        config,
        transfer,
        progress,
        k,
        error,
    ) by {
        lemma_passed_slice_does_not_stop(
            ops,
            observed,
            psf,
            config,
            transfer,
            progress,
            done,
            k,
            error,
        );
    }
}

/// The plain request gives the final estimate, or the error, of the detailed one, if every
/// operation has a single answer to each question.
pub proof fn law_plain_run_is_the_estimate<
    F: Bm3dFloat,
    Fft: Fn(&Grid<F>) -> Grid<Complex<F>>,
    Ifft: Fn(&Grid<Complex<F>>) -> Grid<F>,
    Step: Fn(
        &Grid<F>,
        &Grid<F>,
        Bm3dMode,
        &Grid<F>,
        &Grid<F>,
        Option<&Grid<F>>,
        &Bm3dKernelConfig<F>,
    ) -> Result<Grid<F>, String>,
    Robust: Fn(&Vec<F>) -> F,
>(
    ops: Operations<Fft, Ifft, Step, Robust>,
    observed: Matrix<F>,
    psf: Matrix<F>,
    config: Bm3dDeblurConfig<F>,
    detailed: Result<(Matrix<F>, Matrix<F>, F), Seq<char>>,
    plain: Result<Matrix<F>, Seq<char>>,
)
    requires
        operations_are_functions(ops),
        is_run(ops, observed, psf, config, detailed),
        is_estimate_of_run(ops, observed, psf, config, plain),
    ensures
        plain == estimate_of(detailed),
{
    let full = choose|full: Result<(Matrix<F>, Matrix<F>, F), Seq<char>>|
        #[trigger] is_run(ops, observed, psf, config, full) && plain == estimate_of(full);
    law_runs_are_determined(ops, observed, psf, config, detailed, full);
}

/// Every slice of a deblurred stack is what deblurring that slice alone gives, if every
/// operation has a single answer to each question: no slice influences another, nor does the
/// observer.
pub proof fn law_slices_equal_single_runs<
    F: Bm3dFloat,
    Fft: Fn(&Grid<F>) -> Grid<Complex<F>>,
    Ifft: Fn(&Grid<Complex<F>>) -> Grid<F>,
    Step: Fn(
        &Grid<F>,
        &Grid<F>,
        Bm3dMode,
        &Grid<F>,
        &Grid<F>,
        Option<&Grid<F>>,
        &Bm3dKernelConfig<F>,
    ) -> Result<Grid<F>, String>,
    Robust: Fn(&Vec<F>) -> F,
    P: Fn(usize, usize) -> Result<(), String>,
>(
    ops: Operations<Fft, Ifft, Step, Robust>,
    observed: StackModel<F>,
    psf: Matrix<F>,
    config: Bm3dDeblurConfig<F>,
    progress: Option<&P>,
    estimates: StackModel<F>,
    i: int,
    alone: Result<Matrix<F>, Seq<char>>,
)
    requires
        operations_are_functions(ops),
        0 <= i < observed.slices.len(),
        observed.slices[i].rows == observed.rows,
        observed.slices[i].cols == observed.cols,
        is_stack_run(
            ops,
            observed,
            psf,
            config,
            progress,
            Ok::<StackModel<F>, Seq<char>>(estimates),
        ),
        is_estimate_of_run(ops, observed.slices[i], psf, config, alone),
    ensures
        estimates.rows == observed.rows,
        estimates.cols == observed.cols,
        estimates.slices.len() == observed.slices.len(),
        alone == Ok::<Matrix<F>, Seq<char>>(estimates.slices[i]),
{
    let slice = observed.slices[i];
    let here = Ok::<Matrix<F>, Seq<char>>(estimates.slices[i]);
    law_slices_are_deblurred_alone(ops, observed, psf, config, progress, estimates, i);
    let full = choose|full: Result<(Matrix<F>, Matrix<F>, F), Seq<char>>|
        #[trigger] is_run(ops, slice, psf, config, full) && here == estimate_of(full);
    law_plain_run_is_the_estimate(ops, slice, psf, config, full, alone);
}

/// Whether two configurations agree in everything but the second stage.
pub open spec fn agree_on_first_stage<F: Bm3dFloat>(
    a: Bm3dDeblurConfig<F>,
    b: Bm3dDeblurConfig<F>,
) -> bool {
    b == (Bm3dDeblurConfig { wiener_stage: b.wiener_stage, reg_rwi: b.reg_rwi, ..a })
}

/// The first-stage estimate does not depend on whether the second stage is run, nor on its
/// regularization; and it is the final estimate where the second stage is not run.
pub proof fn law_first_stage_ignores_the_second<
    F: Bm3dFloat,
    Fft: Fn(&Grid<F>) -> Grid<Complex<F>>,
    Ifft: Fn(&Grid<Complex<F>>) -> Grid<F>,
    Step: Fn(
        &Grid<F>,
        &Grid<F>,
        Bm3dMode,
        &Grid<F>,
        &Grid<F>,
        Option<&Grid<F>>,
        &Bm3dKernelConfig<F>,
    ) -> Result<Grid<F>, String>,
    Robust: Fn(&Vec<F>) -> F,
>(
    ops: Operations<Fft, Ifft, Step, Robust>,
    observed: Matrix<F>,
    sigma: F,
    off: Bm3dDeblurConfig<F>,
    on: Bm3dDeblurConfig<F>,
    transfer: Matrix<Complex<F>>,
    a: (Matrix<F>, Matrix<F>),
    b: (Matrix<F>, Matrix<F>),
)
    requires
        operations_are_functions(ops),
        agree_on_first_stage(off, on),
        is_deblurring(
            ops,
            observed,
            sigma,
            off,
            transfer,
            Ok::<(Matrix<F>, Matrix<F>), Seq<char>>(a),
        ),
        is_deblurring(
            ops,
            observed,
            sigma,
            on,
            transfer,
            Ok::<(Matrix<F>, Matrix<F>), Seq<char>>(b),
        ),
    ensures
        b.1 == a.1,
        !off.wiener_stage ==> a.0 == a.1,
{
    let centered = lowered(observed, mean_of(observed));
    let first_a = Ok::<Matrix<F>, Seq<char>>(a.1);
    let first_b = Ok::<Matrix<F>, Seq<char>>(b.1);
    let s = choose|s: Matrix<Complex<F>>| #[trigger]
        is_fft(ops.fft2d, centered, s) && is_first_stage(
            ops,
            observed,
            sigma,
            off,
            transfer,
            s,
            first_a,
        );
    let t = choose|t: Matrix<Complex<F>>| #[trigger]
        is_fft(ops.fft2d, centered, t) && is_first_stage(
            ops,
            observed,
            sigma,
            on,
            transfer,
            t,
            first_b,
        );
    assert(s == t);
    assert(Bm3dKernelConfig::for_pass(off, off.threshold) == Bm3dKernelConfig::for_pass(
        on,
        on.threshold,
    ));
    assert(first_filter(observed, sigma, off, transfer) == first_filter(
        observed,
        sigma,
        on,
        transfer,
    ));
    lemma_first_stage_is_determined(
        ops,
        observed,
        sigma,
        off,
        transfer,
        s,
        first_a,
        first_b,
    );
}

} // verus!
