//! What a change of the levels of an image, or of the scale of a PSF, does to a whole run.
//!
//! The laws here are stated for scalars that compute exactly.

use crate::complex::Complex;
use crate::config::Bm3dDeblurConfig;
use crate::deblur::{
    are_first_slices, estimate_of, is_deblurring, is_first_stage, is_image_outcome,
    is_noise_level, is_run, is_second_stage, is_slice_outcome, is_stack_run, is_transfer,
    rejection, restored, stops_at_slice, stops_with,
};
use crate::exact::{
    exact_at, is_exact, lemma_decimal, lemma_minus, lemma_minus_scales, lemma_minus_splits,
    lemma_order, lemma_order_chains, lemma_over_reduces, lemma_plus, lemma_times,
    lemma_times_ordered, lemma_times_zero,
};
use crate::float_trait::Bm3dFloat;
use crate::grid::{lemma_same_matrix, total, Grid, Matrix};
use crate::kernel::{Bm3dKernelConfig, Bm3dMode, Operations};
use crate::laws::relevelled;
use crate::levels::{highest_before, lowest_before, normalization, to_working};
use crate::padding::{margins, padded};
use crate::psf::{epsilon, normalized_psf, psf_violation};
use crate::runs::{law_runs_are_determined, operations_are_functions};
use crate::scaling::scaled_by;
use crate::stack::StackModel;
use crate::sums::lemma_sum_scales;
use vstd::prelude::*;

verus! {

/// Whether all values of an image lie between the infinities, and both of its bounds are finite.
pub open spec fn is_finite_image<F: Bm3dFloat>(image: Matrix<F>) -> bool {
    &&& !image.is_empty()
    &&& forall|r: int, c: int|
        image.has(r, c) ==> (#[trigger] image.at(r, c)).lt_spec(F::infinity_spec())
            && F::neg_infinity_spec().lt_spec(image.at(r, c))
    &&& lowest_before(image, image.rows, 0).is_finite_spec()
    &&& highest_before(image, image.rows, 0).is_finite_spec()
}

/// The range of the values of an image.
pub open spec fn range_of<F: Bm3dFloat>(image: Matrix<F>) -> F {
    highest_before(image, image.rows, 0).minus_spec(lowest_before(image, image.rows, 0))
}

/// A change of levels with a positive gain keeps the order.
proof fn lemma_change_keeps_order<F: Bm3dFloat>(x: F, y: F, gain: F, offset: F)
    requires
        is_exact::<F>(),
        F::zero_spec().lt_spec(gain),
    ensures
        x.times_spec(gain).plus_spec(offset).lt_spec(y.times_spec(gain).plus_spec(offset))
            == x.lt_spec(y),
{
    let a = x.times_spec(gain);
    let b = y.times_spec(gain);
    lemma_times_ordered(x, y, gain);
    lemma_times_ordered(y, x, gain);
    assert(exact_at(a, b, offset));
    assert(exact_at(b, a, offset));
    lemma_order(a, b);
    lemma_order(a.plus_spec(offset), b.plus_spec(offset));
}

/// The bounds of an image follow a change of its levels.
proof fn lemma_bounds_follow<F: Bm3dFloat>(
    image: Matrix<F>,
    gain: F,
    offset: F,
    a: nat,
    b: nat,
)
    requires
        is_exact::<F>(),
        F::zero_spec().lt_spec(gain),
        is_finite_image(image),
        is_finite_image(relevelled(image, gain, offset)),
        a < image.rows && b <= image.cols || a == image.rows && b == 0,
    ensures
        a > 0 || b > 0 ==> lowest_before(relevelled(image, gain, offset), a, b) == lowest_before(
            image,
            a,
            b,
        ).times_spec(gain).plus_spec(offset),
        a > 0 || b > 0 ==> highest_before(relevelled(image, gain, offset), a, b) == highest_before(
            image,
            a,
            b,
        ).times_spec(gain).plus_spec(offset),
    decreases a, b,
{
    let other = relevelled(image, gain, offset);
    if b > 0 {
        let e = (b - 1) as nat;
        lemma_bounds_follow(image, gain, offset, a, e);
        let x = image.at(a as int, b - 1);
        assert(image.has(a as int, b - 1) && other.has(a as int, b - 1));
        assert(other.at(a as int, b - 1) == x.times_spec(gain).plus_spec(offset));
        if a > 0 || e > 0 {
            lemma_change_keeps_order(x, lowest_before(image, a, e), gain, offset);
            lemma_change_keeps_order(highest_before(image, a, e), x, gain, offset);
        } else {
            assert(lowest_before(image, 0, 0) == F::infinity_spec());
            assert(lowest_before(other, 0, 0) == F::infinity_spec());
            assert(highest_before(image, 0, 0) == F::neg_infinity_spec());
            assert(highest_before(other, 0, 0) == F::neg_infinity_spec());
        }
    } else if a > 0 {
        lemma_bounds_follow(image, gain, offset, (a - 1) as nat, image.cols);
    }
}

/// The working range of an image does not see a change of its levels; its offset and its scale
/// follow the change.
pub proof fn law_working_image_ignores_levels<F: Bm3dFloat>(
    image: Matrix<F>,
    gain: F,
    offset: F,
)
    requires
        is_exact::<F>(),
        F::zero_spec().lt_spec(gain),
        is_finite_image(image),
        is_finite_image(relevelled(image, gain, offset)),
        epsilon::<F>().lt_spec(range_of(image)),
        epsilon::<F>().lt_spec(range_of(relevelled(image, gain, offset))),
    ensures
        ({
            let other = relevelled(image, gain, offset);
            let (low, scale) = normalization(image, true);
            let (other_low, other_scale) = normalization(other, true);
            &&& other_low == low.times_spec(gain).plus_spec(offset)
            &&& other_scale == scale.times_spec(gain)
            &&& scale != F::zero_spec()
            &&& to_working(other, other_low, other_scale) == to_working(image, low, scale)
        }),
{
    let zero = F::zero_spec();
    let other = relevelled(image, gain, offset);
    let low = lowest_before(image, image.rows, 0);
    let high = highest_before(image, image.rows, 0);
    let scale = high.minus_spec(low);
    lemma_bounds_follow(image, gain, offset, image.rows, 0);
    lemma_change_scales_differences(high, low, gain, offset);
    lemma_decimal::<F>(1, 12);
    lemma_order(zero, epsilon());
    lemma_order(epsilon(), scale);
    lemma_order_chains(zero, epsilon(), scale);
    lemma_order(zero, scale);
    lemma_order(zero, gain);
    let (other_low, other_scale) = normalization(other, true);
    let a = to_working(other, other_low, other_scale);
    let b = to_working(image, low, scale);
    assert forall|r: int, c: int| a.has(r, c) implies #[trigger] a.at(r, c) == b.at(r, c) by {
        let x = image.at(r, c);
        assert(other.at(r, c) == x.times_spec(gain).plus_spec(offset));
        lemma_change_scales_differences(x, low, gain, offset);
        lemma_over_reduces(x.minus_spec(low), scale, gain);
    }
    lemma_same_matrix(a, b);
}

/// A change of levels multiplies differences by its gain.
proof fn lemma_change_scales_differences<F: Bm3dFloat>(x: F, y: F, gain: F, offset: F)
    requires
        is_exact::<F>(),
    ensures
        x.times_spec(gain).plus_spec(offset).minus_spec(y.times_spec(gain).plus_spec(offset))
            == x.minus_spec(y).times_spec(gain),
{
    lemma_minus_splits(x.times_spec(gain), offset, y.times_spec(gain), offset);
    lemma_minus(offset, offset);
    lemma_minus_scales(x, y, gain);
    let d = x.minus_spec(y).times_spec(gain);
    lemma_plus(d, d, d);
}

/// The settings with another noise level.
pub open spec fn with_sigma<F: Bm3dFloat>(
    config: Bm3dDeblurConfig<F>,
    sigma: F,
) -> Bm3dDeblurConfig<F> {
    Bm3dDeblurConfig { sigma, ..config }
}

/// An outcome with the levels of both estimates changed, and the noise level with them.
pub open spec fn relevelled_outcome<F: Bm3dFloat>(
    outcome: Result<(Matrix<F>, Matrix<F>, F), Seq<char>>,
    gain: F,
    offset: F,
) -> Result<(Matrix<F>, Matrix<F>, F), Seq<char>> {
    match outcome {
        Ok((estimate, first, sigma)) => Ok(
            (
                relevelled(estimate, gain, offset),
                relevelled(first, gain, offset),
                sigma.times_spec(gain),
            ),
        ),
        Err(error) => Err(error),
    }
}

/// Deblurring a padded image does not look at the noise level in the settings.
pub proof fn lemma_deblurring_ignores_configured_sigma<
    F: Bm3dFloat,
    Fft: Fn(&Grid<F>) -> Grid<Complex<F>>,
    Ifft: Fn(&Grid<Complex<F>>) -> Grid<F>,
    Step: Fn(
        &Grid<F>,
        &Grid<F>,
        Bm3dMode,
        &Grid<F>,
        &Grid<F>,
        Option<&Grid<F>>,
        &Bm3dKernelConfig<F>,
    ) -> Result<Grid<F>, String>,
    Robust: Fn(&Vec<F>) -> F,
>(
    ops: Operations<Fft, Ifft, Step, Robust>,
    observed: Matrix<F>,
    sigma: F,
    config: Bm3dDeblurConfig<F>,
    other: F,
    transfer: Matrix<Complex<F>>,
    outcome: Result<(Matrix<F>, Matrix<F>), Seq<char>>,
)
    requires
        is_deblurring(ops, observed, sigma, config, transfer, outcome),
    ensures
        is_deblurring(ops, observed, sigma, with_sigma(config, other), transfer, outcome),
{
    let changed = with_sigma(config, other);
    assert(Bm3dKernelConfig::for_pass(config, config.threshold) == Bm3dKernelConfig::for_pass(
        changed,
        changed.threshold,
    ));
    assert(Bm3dKernelConfig::for_pass(config, F::zero_spec()) == Bm3dKernelConfig::for_pass(
        changed,
        F::zero_spec(),
    ));
    assert forall|spectrum: Matrix<Complex<F>>, o: Result<Matrix<F>, Seq<char>>| #[trigger]
        is_first_stage(ops, observed, sigma, config, transfer, spectrum, o) implies is_first_stage(
        ops,
        observed,
        sigma,
        changed,
        transfer,
        spectrum,
        o,
    ) by {}
    assert forall|
        spectrum: Matrix<Complex<F>>,
        first: Matrix<F>,
        o: Result<Matrix<F>, Seq<char>>,
    | #[trigger]
        is_second_stage(
            ops,
            observed,
            sigma,
            config,
            transfer,
            spectrum,
            first,
            o,
        ) implies is_second_stage(
        ops,
        observed,
        sigma,
        changed,
        transfer,
        spectrum,
        first,
        o,
    ) by {}
}

/// The estimate in input units follows a change of the levels of the image.
proof fn lemma_restored_follows<F: Bm3dFloat>(
    estimate: Matrix<F>,
    image: Matrix<F>,
    psf: Matrix<F>,
    config: Bm3dDeblurConfig<F>,
    gain: F,
    offset: F,
    sigma: F,
)
    requires
        is_exact::<F>(),
        config.normalize,
        ({
            let (low, scale) = normalization(image, true);
            normalization(relevelled(image, gain, offset), true) == (
                low.times_spec(gain).plus_spec(offset),
                scale.times_spec(gain),
            )
        }),
    ensures
        restored(estimate, relevelled(image, gain, offset), psf, with_sigma(config, sigma))
            == relevelled(restored(estimate, image, psf, config), gain, offset),
{
    let other = relevelled(image, gain, offset);
    let (low, scale) = normalization(image, true);
    let (top, left) = margins(
        psf.rows as int,
        psf.cols as int,
        config.patch_size as int,
        config.boundary,
    );
    let part = estimate.part(top, left, image.rows, image.cols);
    let a = restored(estimate, other, psf, with_sigma(config, sigma));
    let b = relevelled(restored(estimate, image, psf, config), gain, offset);
    assert forall|r: int, c: int| a.has(r, c) implies #[trigger] a.at(r, c) == b.at(r, c) by {
        let x = part.at(r, c);
        let y = x.times_spec(scale);
        assert(restored(estimate, image, psf, config).at(r, c) == y.plus_spec(low));
        lemma_times(x, scale, gain);
        lemma_times(y, low, gain);
        lemma_plus(y.times_spec(gain), low.times_spec(gain), offset);
    }
    lemma_same_matrix(a, b);
}

/// A run with normalization follows a change of the levels of its image: what may come out for
/// an image may come out, with both estimates and the noise level changed alike, for the changed
/// image and the noise level that belongs to it. No other setting has to be touched, and the
/// request is turned down for the same reasons.
pub proof fn law_runs_follow_levels<
    F: Bm3dFloat,
    Fft: Fn(&Grid<F>) -> Grid<Complex<F>>,
    Ifft: Fn(&Grid<Complex<F>>) -> Grid<F>,
    Step: Fn(
        &Grid<F>,
        &Grid<F>,
        Bm3dMode,
        &Grid<F>,
        &Grid<F>,
        Option<&Grid<F>>,
        &Bm3dKernelConfig<F>,
    ) -> Result<Grid<F>, String>,
    Robust: Fn(&Vec<F>) -> F,
>(
    ops: Operations<Fft, Ifft, Step, Robust>,
    image: Matrix<F>,
    psf: Matrix<F>,
    config: Bm3dDeblurConfig<F>,
    gain: F,
    offset: F,
    outcome: Result<(Matrix<F>, Matrix<F>, F), Seq<char>>,
)
    requires
        is_exact::<F>(),
        config.normalize,
        F::zero_spec().lt_spec(gain),
        is_finite_image(image),
        is_finite_image(relevelled(image, gain, offset)),
        epsilon::<F>().lt_spec(range_of(image)),
        epsilon::<F>().lt_spec(range_of(relevelled(image, gain, offset))),
        is_run(ops, image, psf, config, outcome),
    ensures
        is_run(
            ops,
            relevelled(image, gain, offset),
            psf,
            with_sigma(config, config.sigma.times_spec(gain)),
            relevelled_outcome(outcome, gain, offset),
        ),
        rejection(
            image.rows as int,
            image.cols as int,
            psf,
            with_sigma(config, config.sigma.times_spec(gain)),
        ) == rejection(image.rows as int, image.cols as int, psf, config),
{
    let other = relevelled(image, gain, offset);
    let changed = with_sigma(config, config.sigma.times_spec(gain));
    let (low, scale) = normalization(image, true);
    let other_scale = scale.times_spec(gain);
    law_working_image_ignores_levels(image, gain, offset);
    let work = to_working(image, low, scale);
    let large = padded(
        work,
        psf.rows as int,
        psf.cols as int,
        config.patch_size as int,
        config.boundary,
    );
    let rows = image.rows as int;
    let cols = image.cols as int;
    let transfer = choose|transfer: Matrix<Complex<F>>|
        {
            &&& #[trigger] is_transfer(ops.fft2d, rows, cols, psf, config, transfer)
            &&& is_image_outcome(ops, image, psf, config, transfer, outcome)
        };
    assert(is_transfer(ops.fft2d, rows, cols, psf, changed, transfer));
    let (sigma, on_grid) = choose|
        sigma: F,
        on_grid: Result<(Matrix<F>, Matrix<F>), Seq<char>>,
    |
        {
            &&& is_noise_level(ops.estimate_robust_sigma, config, work, scale, sigma)
            &&& #[trigger] is_deblurring(ops, large, sigma, config, transfer, on_grid)
            &&& outcome == match on_grid {
                Ok((estimate, first)) => Ok::<(Matrix<F>, Matrix<F>, F), Seq<char>>(
                    (
                        restored(estimate, image, psf, config),
                        restored(first, image, psf, config),
                        sigma.times_spec(scale),
                    ),
                ),
                Err(error) => Err(error),
            }
        };
    lemma_deblurring_ignores_configured_sigma(
        ops,
        large,
        sigma,
        config,
        changed.sigma,
        transfer,
        on_grid,
    );
    // The noise level in working units is the same.
    lemma_times_ordered(F::zero_spec(), config.sigma, gain);
    lemma_times_zero(gain);
    lemma_order(F::zero_spec(), gain);
    lemma_over_reduces(config.sigma, scale, gain);
    assert(is_noise_level(ops.estimate_robust_sigma, changed, work, other_scale, sigma));
    lemma_times(sigma, scale, gain);
    match on_grid {
        Ok((estimate, first)) => {
            lemma_restored_follows(estimate, image, psf, config, gain, offset, changed.sigma);
            lemma_restored_follows(first, image, psf, config, gain, offset, changed.sigma);
        },
        Err(error) => {},
    }
    let (other_low, other_scale) = normalization(other, changed.normalize);
    let other_large = padded(
        to_working(other, other_low, other_scale),
        psf.rows as int,
        psf.cols as int,
        changed.patch_size as int,
        changed.boundary,
    );
    assert(other_large == large);
    assert(is_deblurring(ops, other_large, sigma, changed, transfer, on_grid));
    assert(is_image_outcome(
        ops,
        other,
        psf,
        changed,
        transfer,
        relevelled_outcome(outcome, gain, offset),
    ));
}

/// The outcome of a run with normalization is the outcome for the changed image with the change
/// applied to both estimates and to the noise level, if every operation has a single answer to
/// each question: the regularization does not have to be tuned to the range of the data.
pub proof fn law_outcomes_follow_levels<
    F: Bm3dFloat,
    Fft: Fn(&Grid<F>) -> Grid<Complex<F>>,
    Ifft: Fn(&Grid<Complex<F>>) -> Grid<F>,
    Step: Fn(
        &Grid<F>,
        &Grid<F>,
        Bm3dMode,
        &Grid<F>,
        &Grid<F>,
        Option<&Grid<F>>,
        &Bm3dKernelConfig<F>,
    ) -> Result<Grid<F>, String>,
    Robust: Fn(&Vec<F>) -> F,
>(
    ops: Operations<Fft, Ifft, Step, Robust>,
    image: Matrix<F>,
    psf: Matrix<F>,
    config: Bm3dDeblurConfig<F>,
    gain: F,
    offset: F,
    a: Result<(Matrix<F>, Matrix<F>, F), Seq<char>>,
    b: Result<(Matrix<F>, Matrix<F>, F), Seq<char>>,
)
    requires
        is_exact::<F>(),
        operations_are_functions(ops),
        config.normalize,
        F::zero_spec().lt_spec(gain),
        is_finite_image(image),
        is_finite_image(relevelled(image, gain, offset)),
        epsilon::<F>().lt_spec(range_of(image)),
        epsilon::<F>().lt_spec(range_of(relevelled(image, gain, offset))),
        is_run(ops, image, psf, config, a),
        is_run(
            ops,
            relevelled(image, gain, offset),
            psf,
            with_sigma(config, config.sigma.times_spec(gain)),
            b,
        ),
    ensures
        b == relevelled_outcome(a, gain, offset),
{
    law_runs_follow_levels(ops, image, psf, config, gain, offset, a);
    law_runs_are_determined(
        ops,
        relevelled(image, gain, offset),
        psf,
        with_sigma(config, config.sigma.times_spec(gain)),
        b,
        relevelled_outcome(a, gain, offset),
    );
}

/// The scale and the sign of a PSF are lost when it is normalized.
pub proof fn law_normalized_psf_ignores_scale<F: Bm3dFloat>(psf: Matrix<F>, k: F)
    requires
        is_exact::<F>(),
        k != F::zero_spec(),
        psf_violation(psf) is None,
    ensures
        normalized_psf(scaled_by(psf, k)) == normalized_psf(psf),
{
    let zero = F::zero_spec();
    let sum = total(psf);
    let scaled = scaled_by(psf, k);
    if sum == zero {
        assert(exact_at(zero, zero, zero));
        lemma_decimal::<F>(1, 12);
        lemma_order(zero, epsilon());
    }
    lemma_sum_scales(psf, scaled, k, psf.rows, 0);
    let a = normalized_psf(scaled);
    let b = normalized_psf(psf);
    assert forall|r: int, c: int| a.has(r, c) implies #[trigger] a.at(r, c) == b.at(r, c) by {
        assert(scaled.at(r, c) == psf.at(r, c).times_spec(k));
        lemma_over_reduces(psf.at(r, c), sum, k);
    }
    lemma_same_matrix(a, b);
}

/// What may come out with a known transfer function depends on the PSF by its shape only.
proof fn lemma_image_outcome_by_shape<
    F: Bm3dFloat,
    Fft: Fn(&Grid<F>) -> Grid<Complex<F>>,
    Ifft: Fn(&Grid<Complex<F>>) -> Grid<F>,
    Step: Fn(
        &Grid<F>,
        &Grid<F>,
        Bm3dMode,
        &Grid<F>,
        &Grid<F>,
        Option<&Grid<F>>,
        &Bm3dKernelConfig<F>,
    ) -> Result<Grid<F>, String>,
    Robust: Fn(&Vec<F>) -> F,
>(
    ops: Operations<Fft, Ifft, Step, Robust>,
    image: Matrix<F>,
    psf: Matrix<F>,
    other: Matrix<F>,
    config: Bm3dDeblurConfig<F>,
    transfer: Matrix<Complex<F>>,
    outcome: Result<(Matrix<F>, Matrix<F>, F), Seq<char>>,
)
    requires
        psf.rows == other.rows,
        psf.cols == other.cols,
        is_image_outcome(ops, image, psf, config, transfer, outcome),
    ensures
        is_image_outcome(ops, image, other, config, transfer, outcome),
{
    assert forall|estimate: Matrix<F>| #[trigger]
        restored(estimate, image, psf, config) == restored(estimate, image, other, config) by {}
}

/// What may come out of a slice with a known transfer function depends on the PSF by its shape
/// only.
proof fn lemma_slice_outcome_by_shape<
    F: Bm3dFloat,
    Fft: Fn(&Grid<F>) -> Grid<Complex<F>>,
    Ifft: Fn(&Grid<Complex<F>>) -> Grid<F>,
    Step: Fn(
        &Grid<F>,
        &Grid<F>,
        Bm3dMode,
        &Grid<F>,
        &Grid<F>,
        Option<&Grid<F>>,
        &Bm3dKernelConfig<F>,
    ) -> Result<Grid<F>, String>,
    Robust: Fn(&Vec<F>) -> F,
>(
    ops: Operations<Fft, Ifft, Step, Robust>,
    image: Matrix<F>,
    psf: Matrix<F>,
    other: Matrix<F>,
    config: Bm3dDeblurConfig<F>,
    transfer: Matrix<Complex<F>>,
    outcome: Result<Matrix<F>, Seq<char>>,
)
    requires
        psf.rows == other.rows,
        psf.cols == other.cols,
        is_slice_outcome(ops, image, psf, config, transfer, outcome),
    ensures
        is_slice_outcome(ops, image, other, config, transfer, outcome),
{
    let full = choose|full: Result<(Matrix<F>, Matrix<F>, F), Seq<char>>|
        #[trigger] is_image_outcome(ops, image, psf, config, transfer, full) && outcome
            == estimate_of(full);
    lemma_image_outcome_by_shape(ops, image, psf, other, config, transfer, full);
}

/// What may come out of an image depends on the PSF by its shape and its normalized form only.
proof fn lemma_run_by_normalized_psf<
    F: Bm3dFloat,
    Fft: Fn(&Grid<F>) -> Grid<Complex<F>>,
    Ifft: Fn(&Grid<Complex<F>>) -> Grid<F>,
    Step: Fn(
        &Grid<F>,
        &Grid<F>,
        Bm3dMode,
        &Grid<F>,
        &Grid<F>,
        Option<&Grid<F>>,
        &Bm3dKernelConfig<F>,
    ) -> Result<Grid<F>, String>,
    Robust: Fn(&Vec<F>) -> F,
>(
    ops: Operations<Fft, Ifft, Step, Robust>,
    image: Matrix<F>,
    psf: Matrix<F>,
    other: Matrix<F>,
    config: Bm3dDeblurConfig<F>,
    outcome: Result<(Matrix<F>, Matrix<F>, F), Seq<char>>,
)
    requires
        psf.rows == other.rows,
        psf.cols == other.cols,
        normalized_psf(psf) == normalized_psf(other),
        is_run(ops, image, psf, config, outcome),
    ensures
        is_run(ops, image, other, config, outcome),
{
    let rows = image.rows as int;
    let cols = image.cols as int;
    let transfer = choose|transfer: Matrix<Complex<F>>|
        {
            &&& #[trigger] is_transfer(ops.fft2d, rows, cols, psf, config, transfer)
            &&& is_image_outcome(ops, image, psf, config, transfer, outcome)
        };
    assert(is_transfer(ops.fft2d, rows, cols, other, config, transfer));
    lemma_image_outcome_by_shape(ops, image, psf, other, config, transfer, outcome);
}

/// What may come out of a stack depends on the PSF by its shape and its normalized form only.
proof fn lemma_stack_run_by_normalized_psf<
    F: Bm3dFloat,
    Fft: Fn(&Grid<F>) -> Grid<Complex<F>>,
    Ifft: Fn(&Grid<Complex<F>>) -> Grid<F>,
    Step: Fn(
        &Grid<F>,
        &Grid<F>,
        Bm3dMode,
        &Grid<F>,
        &Grid<F>,
        Option<&Grid<F>>,
        &Bm3dKernelConfig<F>,
    ) -> Result<Grid<F>, String>,
    Robust: Fn(&Vec<F>) -> F,
    P: Fn(usize, usize) -> Result<(), String>,
>(
    ops: Operations<Fft, Ifft, Step, Robust>,
    stack: StackModel<F>,
    psf: Matrix<F>,
    other: Matrix<F>,
    config: Bm3dDeblurConfig<F>,
    progress: Option<&P>,
    outcome: Result<StackModel<F>, Seq<char>>,
)
    requires
        psf.rows == other.rows,
        psf.cols == other.cols,
        normalized_psf(psf) == normalized_psf(other),
        is_stack_run(ops, stack, psf, config, progress, outcome),
    ensures
        is_stack_run(ops, stack, other, config, progress, outcome),
{
    let rows = stack.rows as int;
    let cols = stack.cols as int;
    assert forall|
        slice: Matrix<F>,
        transfer: Matrix<Complex<F>>,
        o: Result<Matrix<F>, Seq<char>>,
    | #[trigger]
        is_slice_outcome(ops, slice, psf, config, transfer, o) implies is_slice_outcome(
        ops,
        slice,
        other,
        config,
        transfer,
        o,
    ) by {
        lemma_slice_outcome_by_shape(ops, slice, psf, other, config, transfer, o);
    }
    assert forall|transfer: Matrix<Complex<F>>| #[trigger]
        is_transfer(ops.fft2d, rows, cols, psf, config, transfer) implies is_transfer(
        ops.fft2d,
        rows,
        cols,
        other,
        config,
        transfer,
    ) by {}
    assert forall|transfer: Matrix<Complex<F>>, done: Seq<Matrix<F>>| #[trigger]
        are_first_slices(
            ops,
            stack.slices,
            psf,
            config,
            transfer,
            progress,
            done,
        ) implies are_first_slices(
        ops,
        stack.slices,
        other,
        config,
        transfer,
        progress,
        done,
    ) by {}
    assert forall|transfer: Matrix<Complex<F>>, k: int, error: Seq<char>| #[trigger]
        stops_at_slice(
            ops,
            stack.slices,
            psf,
            config,
            transfer,
            progress,
            k,
            error,
        ) implies stops_at_slice(
        ops,
        stack.slices,
        other,
        config,
        transfer,
        progress,
        k,
        error,
    ) by {}
    assert forall|transfer: Matrix<Complex<F>>, error: Seq<char>| #[trigger]
        stops_with(
            ops,
            stack.slices,
            psf,
            config,
            transfer,
            progress,
            error,
        ) implies stops_with(
        ops,
        stack.slices,
        other,
        config,
        transfer,
        progress,
        error,
    ) by {}
}

/// The scale and the sign of a PSF do not matter to a run: for a PSF and a multiple of it, of
/// which neither is refused, the same outcomes may come out.
pub proof fn law_runs_ignore_scale_of_psf<
    F: Bm3dFloat,
    Fft: Fn(&Grid<F>) -> Grid<Complex<F>>,
    Ifft: Fn(&Grid<Complex<F>>) -> Grid<F>,
    Step: Fn(
        &Grid<F>,
        &Grid<F>,
        Bm3dMode,
        &Grid<F>,
        &Grid<F>,
        Option<&Grid<F>>,
        &Bm3dKernelConfig<F>,
    ) -> Result<Grid<F>, String>,
    Robust: Fn(&Vec<F>) -> F,
>(
    ops: Operations<Fft, Ifft, Step, Robust>,
    image: Matrix<F>,
    psf: Matrix<F>,
    k: F,
    config: Bm3dDeblurConfig<F>,
)
    requires
        is_exact::<F>(),
        k != F::zero_spec(),
        psf_violation(psf) is None,
        psf_violation(scaled_by(psf, k)) is None,
    ensures
        rejection(image.rows as int, image.cols as int, scaled_by(psf, k), config) == rejection(
            image.rows as int,
            image.cols as int,
            psf,
            config,
        ),
        forall|outcome: Result<(Matrix<F>, Matrix<F>, F), Seq<char>>| #[trigger]
            is_run(ops, image, scaled_by(psf, k), config, outcome) == is_run(
                ops,
                image,
                psf,
                config,
                outcome,
            ),
{
    law_normalized_psf_ignores_scale(psf, k);
    let scaled = scaled_by(psf, k);
    assert forall|outcome: Result<(Matrix<F>, Matrix<F>, F), Seq<char>>| #[trigger]
        is_run(ops, image, scaled, config, outcome) == is_run(
            ops,
            image,
            psf,
            config,
            outcome,
        ) by {
        if is_run(ops, image, scaled, config, outcome) {
            lemma_run_by_normalized_psf(ops, image, scaled, psf, config, outcome);
        }
        if is_run(ops, image, psf, config, outcome) {
            lemma_run_by_normalized_psf(ops, image, psf, scaled, config, outcome);
        }
    }
}

/// The scale and the sign of a PSF do not matter to a run over a stack: for a PSF and a multiple
/// of it, of which neither is refused, the same outcomes may come out.
pub proof fn law_stack_runs_ignore_scale_of_psf<
    F: Bm3dFloat,
    Fft: Fn(&Grid<F>) -> Grid<Complex<F>>,
    Ifft: Fn(&Grid<Complex<F>>) -> Grid<F>,
    Step: Fn(
        &Grid<F>,
        &Grid<F>,
        Bm3dMode,
        &Grid<F>,
        &Grid<F>,
        Option<&Grid<F>>,
        &Bm3dKernelConfig<F>,
    ) -> Result<Grid<F>, String>,
    Robust: Fn(&Vec<F>) -> F,
    P: Fn(usize, usize) -> Result<(), String>,
>(
    ops: Operations<Fft, Ifft, Step, Robust>,
    stack: StackModel<F>,
    psf: Matrix<F>,
    k: F,
    config: Bm3dDeblurConfig<F>,
    progress: Option<&P>,
)
    requires
        is_exact::<F>(),
        k != F::zero_spec(),
        psf_violation(psf) is None,
        psf_violation(scaled_by(psf, k)) is None,
    ensures
        rejection(stack.rows as int, stack.cols as int, scaled_by(psf, k), config) == rejection(
            stack.rows as int,
            stack.cols as int,
            psf,
            config,
        ),
        forall|outcome: Result<StackModel<F>, Seq<char>>| #[trigger]
            is_stack_run(ops, stack, scaled_by(psf, k), config, progress, outcome) == is_stack_run(
                ops,
                stack,
                psf,
                config,
                progress,
                outcome,
            ),
{
    law_normalized_psf_ignores_scale(psf, k);
    let scaled = scaled_by(psf, k);
    assert forall|outcome: Result<StackModel<F>, Seq<char>>| #[trigger]
        is_stack_run(ops, stack, scaled, config, progress, outcome) == is_stack_run(
            ops,
            stack,
            psf,
            config,
            progress,
            outcome,
        ) by {
        if is_stack_run(ops, stack, scaled, config, progress, outcome) {
            lemma_stack_run_by_normalized_psf(
                ops,
                stack,
                scaled,
                psf,
                config,
                progress,
                outcome,
            );
        }
        if is_stack_run(ops, stack, psf, config, progress, outcome) {
            lemma_stack_run_by_normalized_psf(
                ops,
                stack,
                psf,
                scaled,
                config,
                progress,
                outcome,
            );
        }
    }
}

/// The outcome of a run is the same for a PSF and a multiple of it, of which neither is refused,
/// if every operation has a single answer to each question.
pub proof fn law_outcomes_ignore_scale_of_psf<
    F: Bm3dFloat,
    Fft: Fn(&Grid<F>) -> Grid<Complex<F>>,
    Ifft: Fn(&Grid<Complex<F>>) -> Grid<F>,
    Step: Fn(
        &Grid<F>,
        &Grid<F>,
        Bm3dMode,
        &Grid<F>,
        &Grid<F>,
        Option<&Grid<F>>,
        &Bm3dKernelConfig<F>,
    ) -> Result<Grid<F>, String>,
    Robust: Fn(&Vec<F>) -> F,
>(
    ops: Operations<Fft, Ifft, Step, Robust>,
    image: Matrix<F>,
    psf: Matrix<F>,
    k: F,
    config: Bm3dDeblurConfig<F>,
    a: Result<(Matrix<F>, Matrix<F>, F), Seq<char>>,
    b: Result<(Matrix<F>, Matrix<F>, F), Seq<char>>,
)
    requires
        is_exact::<F>(),
        operations_are_functions(ops),
        k != F::zero_spec(),
        psf_violation(psf) is None,
        psf_violation(scaled_by(psf, k)) is None,
        is_run(ops, image, psf, config, a),
        is_run(ops, image, scaled_by(psf, k), config, b),
    ensures
        a == b,
{
    law_runs_ignore_scale_of_psf(ops, image, psf, k, config);
    assert(is_run(ops, image, psf, config, b));
    law_runs_are_determined(ops, image, psf, config, a, b);
}

} // verus!
