//! The noise level that a run uses and reports.
//!
//! The laws here are stated for scalars that compute exactly.

use crate::complex::Complex;
use crate::config::Bm3dDeblurConfig;
use crate::deblur::{
    estimate_of, is_deblurring, is_image_outcome, is_noise_level, is_run, is_slice_outcome,
    is_transfer, rejection, restored,
};
use crate::equivariance::{lemma_deblurring_ignores_configured_sigma, with_sigma};
use crate::exact::{is_exact, lemma_over, lemma_times_zero};
use crate::float_trait::Bm3dFloat;
use crate::grid::{Grid, Matrix};
use crate::kernel::{Bm3dKernelConfig, Bm3dMode, Operations};
use crate::laws::lemma_scale_positive;
use crate::levels::{normalization, to_working};
use crate::noise::haar_samples;
use crate::padding::padded;
use crate::runs::{law_runs_are_determined, operations_are_functions};
use vstd::prelude::*;

verus! {

/// Whether `level` is a noise level in input units that may be estimated for `image`: the
/// estimator may give it, over the scale of the working range, for the detail coefficients of the
/// image in working units.
pub open spec fn is_estimated_level<F: Bm3dFloat, Robust: Fn(&Vec<F>) -> F>(
    robust: Robust,
    image: Matrix<F>,
    normalize: bool,
    level: F,
) -> bool {
    let (offset, scale) = normalization(image, normalize);
    let work = to_working(image, offset, scale);
    if image.rows < 2 || image.cols < 2 {
        level == F::zero_spec()
    } else {
        exists|details: Vec<F>|
            details@ == haar_samples(work) && #[trigger] call_ensures(
                robust,
                (&details,),
                level.over_spec(scale),
            )
    }
}

/// The settings are accepted or refused whatever their noise level.
proof fn lemma_rejection_ignores_sigma<F: Bm3dFloat>(
    rows: int,
    cols: int,
    psf: Matrix<F>,
    config: Bm3dDeblurConfig<F>,
    sigma: F,
)
    ensures
        rejection(rows, cols, psf, with_sigma(config, sigma)) == rejection(rows, cols, psf, config),
{
}

/// The outcome for an image with a known transfer function is that for the noise level that it
/// was found with, once this is set. Without a positive noise level in the settings that is one
/// that may be estimated for the image; otherwise it is the one in the settings. It is also the
/// one that is reported.
proof fn lemma_outcome_belongs_to_its_level<
    F: Bm3dFloat,
    Fft: Fn(&Grid<F>) -> Grid<Complex<F>>,
    Ifft: Fn(&Grid<Complex<F>>) -> Grid<F>,
    Step: Fn(
        &Grid<F>,
        &Grid<F>,
        Bm3dMode,
        &Grid<F>,
        &Grid<F>,
        Option<&Grid<F>>,
        &Bm3dKernelConfig<F>,
    ) -> Result<Grid<F>, String>,
    Robust: Fn(&Vec<F>) -> F,
>(
    ops: Operations<Fft, Ifft, Step, Robust>,
    image: Matrix<F>,
    psf: Matrix<F>,
    config: Bm3dDeblurConfig<F>,
    transfer: Matrix<Complex<F>>,
    outcome: Result<(Matrix<F>, Matrix<F>, F), Seq<char>>,
) -> (level: F)
    requires
        is_exact::<F>(),
        is_image_outcome(ops, image, psf, config, transfer, outcome),
    ensures
        F::zero_spec().lt_spec(config.sigma) ==> level == config.sigma,
        !F::zero_spec().lt_spec(config.sigma) ==> is_estimated_level(
            ops.estimate_robust_sigma,
            image,
            config.normalize,
            level,
        ),
        outcome matches Ok(o) ==> o.2 == level,
        F::zero_spec().lt_spec(level) ==> is_image_outcome(
            ops,
            image,
            psf,
            with_sigma(config, level),
            transfer,
            outcome,
        ),
{
    let zero = F::zero_spec();
    let (offset, scale) = normalization(image, config.normalize);
    let work = to_working(image, offset, scale);
    let large = padded(
        work,
        psf.rows as int,
        psf.cols as int,
        config.patch_size as int,
        config.boundary,
    );
    let (sigma, on_grid) = choose|
        sigma: F,
        on_grid: Result<(Matrix<F>, Matrix<F>), Seq<char>>,
    |
        {
            &&& is_noise_level(ops.estimate_robust_sigma, config, work, scale, sigma)
            &&& #[trigger] is_deblurring(ops, large, sigma, config, transfer, on_grid)
            &&& outcome == match on_grid {
                Ok((estimate, first)) => Ok::<(Matrix<F>, Matrix<F>, F), Seq<char>>(
                    (
                        restored(estimate, image, psf, config),
                        restored(first, image, psf, config),
                        sigma.times_spec(scale),
                    ),
                ),
                Err(error) => Err(error),
            }
        };
    let level = sigma.times_spec(scale);
    let changed = with_sigma(config, level);
    lemma_scale_positive(image, config.normalize);
    lemma_over(sigma, scale);
    lemma_over(config.sigma, scale);
    lemma_times_zero(scale);
    lemma_deblurring_ignores_configured_sigma(
        ops,
        large,
        sigma,
        config,
        level,
        transfer,
        on_grid,
    );
    assert(zero.lt_spec(level) ==> is_noise_level(
        ops.estimate_robust_sigma,
        changed,
        work,
        scale,
        sigma,
    ));
    assert forall|estimate: Matrix<F>| #[trigger]
        restored(estimate, image, psf, changed) == restored(estimate, image, psf, config) by {}
    assert(is_deblurring(ops, large, sigma, changed, transfer, on_grid));
    level
}

/// A run without a positive noise level in its settings is the run with an estimated one: there
/// is a noise level that may be estimated for the image, which is reported, and with which, set
/// in the settings, the run may have the same outcome. So both inversions and both descriptions
/// of the noise use the level that is reported. The request is turned down for the same reasons.
pub proof fn law_automatic_runs_use_the_estimate<
    F: Bm3dFloat,
    Fft: Fn(&Grid<F>) -> Grid<Complex<F>>,
    Ifft: Fn(&Grid<Complex<F>>) -> Grid<F>,
    Step: Fn(
        &Grid<F>,
        &Grid<F>,
        Bm3dMode,
        &Grid<F>,
        &Grid<F>,
        Option<&Grid<F>>,
        &Bm3dKernelConfig<F>,
    ) -> Result<Grid<F>, String>,
    Robust: Fn(&Vec<F>) -> F,
>(
    ops: Operations<Fft, Ifft, Step, Robust>,
    image: Matrix<F>,
    psf: Matrix<F>,
    config: Bm3dDeblurConfig<F>,
    outcome: Result<(Matrix<F>, Matrix<F>, F), Seq<char>>,
)
    requires
        is_exact::<F>(),
        !F::zero_spec().lt_spec(config.sigma),
        is_run(ops, image, psf, config, outcome),
    ensures
        exists|level: F|
            {
                &&& #[trigger] is_estimated_level(
                    ops.estimate_robust_sigma,
                    image,
                    config.normalize,
                    level,
                )
                &&& outcome matches Ok(o) ==> o.2 == level
                &&& F::zero_spec().lt_spec(level) ==> is_run(
                    ops,
                    image,
                    psf,
                    with_sigma(config, level),
                    outcome,
                )
            },
        forall|level: F| #[trigger]
            rejection(
                image.rows as int,
                image.cols as int,
                psf,
                with_sigma(config, level),
            ) == rejection(image.rows as int, image.cols as int, psf, config),
{
    let rows = image.rows as int;
    let cols = image.cols as int;
    let transfer = choose|transfer: Matrix<Complex<F>>|
        {
            &&& #[trigger] is_transfer(ops.fft2d, rows, cols, psf, config, transfer)
            &&& is_image_outcome(ops, image, psf, config, transfer, outcome)
        };
    let level = lemma_outcome_belongs_to_its_level(ops, image, psf, config, transfer, outcome);
    assert(is_transfer(ops.fft2d, rows, cols, psf, with_sigma(config, level), transfer));
    assert forall|level: F| #[trigger]
        rejection(rows, cols, psf, with_sigma(config, level)) == rejection(
            rows,
            cols,
            psf,
            config,
        ) by {
        lemma_rejection_ignores_sigma(rows, cols, psf, config, level);
    }
}

/// Setting the noise level that an automatic run has reported gives the same estimates again, and
/// the same noise level, if every operation has a single answer to each question.
pub proof fn law_reported_level_repeats_the_run<
    F: Bm3dFloat,
    Fft: Fn(&Grid<F>) -> Grid<Complex<F>>,
    Ifft: Fn(&Grid<Complex<F>>) -> Grid<F>,
    Step: Fn(
        &Grid<F>,
        &Grid<F>,
        Bm3dMode,
        &Grid<F>,
        &Grid<F>,
        Option<&Grid<F>>,
        &Bm3dKernelConfig<F>,
    ) -> Result<Grid<F>, String>,
    Robust: Fn(&Vec<F>) -> F,
>(
    ops: Operations<Fft, Ifft, Step, Robust>,
    image: Matrix<F>,
    psf: Matrix<F>,
    config: Bm3dDeblurConfig<F>,
    estimate: Matrix<F>,
    first: Matrix<F>,
    sigma: F,
    again: Result<(Matrix<F>, Matrix<F>, F), Seq<char>>,
)
    requires
        is_exact::<F>(),
        operations_are_functions(ops),
        !F::zero_spec().lt_spec(config.sigma),
        F::zero_spec().lt_spec(sigma),
        is_run(
            ops,
            image,
            psf,
            config,
            Ok::<(Matrix<F>, Matrix<F>, F), Seq<char>>((estimate, first, sigma)),
        ),
        is_run(ops, image, psf, with_sigma(config, sigma), again),
    ensures
        again == Ok::<(Matrix<F>, Matrix<F>, F), Seq<char>>((estimate, first, sigma)),
{
    let outcome = Ok::<(Matrix<F>, Matrix<F>, F), Seq<char>>((estimate, first, sigma));
    law_automatic_runs_use_the_estimate(ops, image, psf, config, outcome);
    law_runs_are_determined(ops, image, psf, with_sigma(config, sigma), again, outcome);
}

/// A positive noise level in the settings is the one that is reported.
pub proof fn law_configured_level_is_reported<
    F: Bm3dFloat,
    Fft: Fn(&Grid<F>) -> Grid<Complex<F>>,
    Ifft: Fn(&Grid<Complex<F>>) -> Grid<F>,
    Step: Fn(
        &Grid<F>,
        &Grid<F>,
        Bm3dMode,
        &Grid<F>,
        &Grid<F>,
        Option<&Grid<F>>,
        &Bm3dKernelConfig<F>,
    ) -> Result<Grid<F>, String>,
    Robust: Fn(&Vec<F>) -> F,
>(
    ops: Operations<Fft, Ifft, Step, Robust>,
    image: Matrix<F>,
    psf: Matrix<F>,
    config: Bm3dDeblurConfig<F>,
    estimate: Matrix<F>,
    first: Matrix<F>,
    sigma: F,
)
    requires
        is_exact::<F>(),
        F::zero_spec().lt_spec(config.sigma),
        is_run(
            ops,
            image,
            psf,
            config,
            Ok::<(Matrix<F>, Matrix<F>, F), Seq<char>>((estimate, first, sigma)),
        ),
    ensures
        sigma == config.sigma,
{
    let outcome = Ok::<(Matrix<F>, Matrix<F>, F), Seq<char>>((estimate, first, sigma));
    let rows = image.rows as int;
    let cols = image.cols as int;
    let transfer = choose|transfer: Matrix<Complex<F>>|
        {
            &&& #[trigger] is_transfer(ops.fft2d, rows, cols, psf, config, transfer)
            &&& is_image_outcome(ops, image, psf, config, transfer, outcome)
        };
    let level = lemma_outcome_belongs_to_its_level(ops, image, psf, config, transfer, outcome);
}

/// A slice of a stack without a positive noise level in the settings is the slice with a level
/// that may be estimated for this slice.
pub proof fn law_automatic_slices_use_their_estimate<
    F: Bm3dFloat,
    Fft: Fn(&Grid<F>) -> Grid<Complex<F>>,
    Ifft: Fn(&Grid<Complex<F>>) -> Grid<F>,
    Step: Fn(
        &Grid<F>,
        &Grid<F>,
        Bm3dMode,
        &Grid<F>,
        &Grid<F>,
        Option<&Grid<F>>,
        &Bm3dKernelConfig<F>,
    ) -> Result<Grid<F>, String>,
    Robust: Fn(&Vec<F>) -> F,
>(
    ops: Operations<Fft, Ifft, Step, Robust>,
    slice: Matrix<F>,
    psf: Matrix<F>,
    config: Bm3dDeblurConfig<F>,
    transfer: Matrix<Complex<F>>,
    outcome: Result<Matrix<F>, Seq<char>>,
)
    requires
        is_exact::<F>(),
        !F::zero_spec().lt_spec(config.sigma),
        is_slice_outcome(ops, slice, psf, config, transfer, outcome),
    ensures
        exists|level: F|
            {
                &&& #[trigger] is_estimated_level(
                    ops.estimate_robust_sigma,
                    slice,
                    config.normalize,
                    level,
                )
                &&& F::zero_spec().lt_spec(level) ==> is_slice_outcome(
                    ops,
                    slice,
                    psf,
                    with_sigma(config, level),
                    transfer,
                    outcome,
                )
            },
{
    let full = choose|full: Result<(Matrix<F>, Matrix<F>, F), Seq<char>>|
        #[trigger] is_image_outcome(ops, slice, psf, config, transfer, full) && outcome
            == estimate_of(full);
    let level = lemma_outcome_belongs_to_its_level(ops, slice, psf, config, transfer, full);
    if F::zero_spec().lt_spec(level) {
        assert(is_image_outcome(ops, slice, psf, with_sigma(config, level), transfer, full));
    }
}

} // verus!
