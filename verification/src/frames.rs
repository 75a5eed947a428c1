//! What surrounds the inversion: padding before it, cropping after it, and the transfer function
//! that it is given.

use crate::complex::Complex;
use crate::config::{law_valid_settings, Bm3dDeblurConfig, DeblurBoundary};
use crate::deblur::{
    estimate_of, is_deblurring, is_estimate_of_run, is_image_outcome, is_noise_level, is_run,
    is_slice_outcome, is_transfer, rejection, request_fits, restored,
};
use crate::exact::{
    is_exact, law_exact_scalars_obey_weaker_rules, lemma_minus, lemma_order, lemma_over,
};
use crate::fast_len::{is_seven_smooth, law_fast_len};
use crate::float_trait::Bm3dFloat;
use crate::grid::{law_shapes_that_fit, total, Grid, Matrix};
use crate::kernel::{Bm3dKernelConfig, Bm3dMode, Operations};
use crate::laws::{law_normalized_psf_sums_to_one, lemma_scale_positive};
use crate::levels::{normalization, to_working};
use crate::observation::{
    law_placed_psf_is_shifted, law_placed_psf_keeps_sum, lemma_wrapped_inverse,
};
use crate::padding::{law_padding_leaves_room, margin, margins, padded, padded_shape_spec};
use crate::psf::{normalized_psf, psf_violation};
use crate::ranges::law_levels_move_by_offset_and_scale;
use crate::reflect::{law_reflection_fixes_inside, law_reflection_mirrors_at_the_ends};
use crate::spectral::{is_fft, placed_psf};
use crate::spreads::{law_normalization_keeps_proportions, law_psf_needs_a_sum};
use crate::text::decimal;
use vstd::arithmetic::div_mod::lemma_mod_bound;
use vstd::prelude::*;

verus! {

/// Under reflection the margins reach one sample beyond the half of the PSF and hold a patch, and
/// they are no larger than one of the two asks for. A periodic image gets none.
pub proof fn law_margins_are_just_large_enough(psf_rows: int, psf_cols: int, patch_size: int)
    ensures
        ({
            let (top, left) = margins(psf_rows, psf_cols, patch_size, DeblurBoundary::Reflect);
            &&& top >= psf_rows / 2 + 1 && top >= patch_size
            &&& top == psf_rows / 2 + 1 || top == patch_size
            &&& left >= psf_cols / 2 + 1 && left >= patch_size
            &&& left == psf_cols / 2 + 1 || left == patch_size
            &&& margins(psf_rows, psf_cols, patch_size, DeblurBoundary::Circular) == (0int, 0int)
        }),
{
}

/// Under reflection the padded axes are the shortest that hold the image between two margins and
/// have no prime factor above seven. A periodic image keeps its shape.
pub proof fn law_padded_axes_are_the_next_fast_ones(
    rows: int,
    cols: int,
    psf_rows: int,
    psf_cols: int,
    patch_size: int,
    n: int,
)
    requires
        rows >= 0,
        cols >= 0,
        psf_rows >= 0,
        psf_cols >= 0,
    ensures
        ({
            let (top, left) = margins(psf_rows, psf_cols, patch_size, DeblurBoundary::Reflect);
            let shape = padded_shape_spec(
                rows,
                cols,
                psf_rows,
                psf_cols,
                patch_size,
                DeblurBoundary::Reflect,
            );
            &&& shape.0 >= top + rows + top && is_seven_smooth(shape.0)
            &&& n >= top + rows + top && is_seven_smooth(n) ==> n >= shape.0
            &&& shape.1 >= left + cols + left && is_seven_smooth(shape.1)
            &&& n >= left + cols + left && is_seven_smooth(n) ==> n >= shape.1
        }),
        padded_shape_spec(
            rows,
            cols,
            psf_rows,
            psf_cols,
            patch_size,
            DeblurBoundary::Circular,
        ) == (rows, cols),
{
    law_fast_len(rows + 2 * margin(psf_rows, patch_size));
    law_fast_len(cols + 2 * margin(psf_cols, patch_size));
}

/// Under reflection the image lies behind the margins, and the padded image is symmetric about
/// the first and about the last row and column of the image: `k` steps before them lies what lies
/// `k` steps after them.
pub proof fn law_padded_image_is_mirrored<F>(
    image: Matrix<F>,
    psf_rows: int,
    psf_cols: int,
    patch_size: int,
    i: int,
    j: int,
    k: int,
)
    requires
        !image.is_empty(),
        psf_rows >= 0,
        psf_cols >= 0,
    ensures
        ({
            let (top, left) = margins(psf_rows, psf_cols, patch_size, DeblurBoundary::Reflect);
            let large = padded(image, psf_rows, psf_cols, patch_size, DeblurBoundary::Reflect);
            let bottom = top + image.rows - 1;
            let right = left + image.cols - 1;
            &&& image.has(i, j) ==> large.has(top + i, left + j) && large.at(top + i, left + j)
                == image.at(i, j)
            &&& large.has(top - k, j) && large.has(top + k, j) ==> large.at(top - k, j) == large.at(
                top + k,
                j,
            )
            &&& large.has(bottom - k, j) && large.has(bottom + k, j) ==> large.at(bottom - k, j)
                == large.at(bottom + k, j)
            &&& large.has(i, left - k) && large.has(i, left + k) ==> large.at(i, left - k)
                == large.at(i, left + k)
            &&& large.has(i, right - k) && large.has(i, right + k) ==> large.at(i, right - k)
                == large.at(i, right + k)
        }),
{
    let (top, left) = margins(psf_rows, psf_cols, patch_size, DeblurBoundary::Reflect);
    let rows = image.rows as int;
    let cols = image.cols as int;
    law_padding_leaves_room(rows, cols, psf_rows, psf_cols, patch_size, DeblurBoundary::Reflect);
    if image.has(i, j) {
        law_reflection_fixes_inside(i, rows);
        law_reflection_fixes_inside(j, cols);
    }
    law_reflection_mirrors_at_the_ends(k, rows);
    law_reflection_mirrors_at_the_ends(k, cols);
    assert(top - k - top == -k && top + k - top == k);
    assert(left - k - left == -k && left + k - left == k);
    assert(top + rows - 1 - k - top == rows - 1 - k && top + rows - 1 + k - top == rows - 1 + k);
    assert(left + cols - 1 - k - left == cols - 1 - k && left + cols - 1 + k - left == cols - 1
        + k);
}

/// A request is accepted exactly if the four counts are positive, the threshold is not negative,
/// both regularization factors are positive, the image holds a patch along either axis, and the
/// PSF has entries whose sum lies further from zero than `10^-12`.
pub proof fn law_accepted_requests<F: Bm3dFloat>(
    rows: int,
    cols: int,
    psf: Matrix<F>,
    config: Bm3dDeblurConfig<F>,
)
    requires
        is_exact::<F>(),
    ensures
        rejection(rows, cols, psf, config) is None <==> {
            &&& config.patch_size > 0
            &&& config.step_size > 0
            &&& config.search_window > 0
            &&& config.max_matches > 0
            &&& F::zero_spec().le_spec(config.threshold)
            &&& F::zero_spec().lt_spec(config.reg_ri)
            &&& F::zero_spec().lt_spec(config.reg_rwi)
            &&& rows >= config.patch_size
            &&& cols >= config.patch_size
            &&& psf.rows > 0
            &&& psf.cols > 0
            &&& F::from_decimal_spec(1, 12).lt_spec(total(psf)) || F::from_decimal_spec(
                1,
                12,
            ).lt_spec(total(psf).neg_spec())
        },
{
    let zero = F::zero_spec();
    law_valid_settings(config);
    law_psf_needs_a_sum(psf);
    lemma_order(zero, config.threshold);
    lemma_order(config.reg_ri, zero);
    lemma_order(config.reg_rwi, zero);
}

/// The transfer function is the transform of the PSF, divided by its sum, on the padded grid: its
/// cells sum to one, and for a PSF that is no larger than the grid the entry `(r, c)` lies, over
/// the sum, as many cells behind the first one as it lies behind the centre of the PSF, counted
/// around the grid.
pub proof fn law_transfer_is_that_of_the_unit_psf<
    F: Bm3dFloat,
    Fft: Fn(&Grid<F>) -> Grid<Complex<F>>,
>(
    fft2d: Fft,
    rows: int,
    cols: int,
    psf: Matrix<F>,
    config: Bm3dDeblurConfig<F>,
    transfer: Matrix<Complex<F>>,
)
    requires
        is_exact::<F>(),
        rows > 0,
        cols > 0,
        psf_violation(psf) is None,
        is_transfer(fft2d, rows, cols, psf, config, transfer),
    ensures
        ({
            let shape = padded_shape_spec(
                rows,
                cols,
                psf.rows as int,
                psf.cols as int,
                config.patch_size as int,
                config.boundary,
            );
            exists|grid: Matrix<F>|
                {
                    &&& #[trigger] is_fft(fft2d, grid, transfer)
                    &&& grid.rows == shape.0
                    &&& grid.cols == shape.1
                    &&& total(grid) == F::one_spec()
                    &&& psf.rows <= shape.0 && psf.cols <= shape.1 ==> forall|r: int, c: int|
                        psf.has(r, c) ==> grid.at(
                            (r - psf.rows as int / 2) % shape.0,
                            (c - psf.cols as int / 2) % shape.1,
                        ).times_spec(total(psf)) == #[trigger] psf.at(r, c)
                }
        }),
{
    let shape = padded_shape_spec(
        rows,
        cols,
        psf.rows as int,
        psf.cols as int,
        config.patch_size as int,
        config.boundary,
    );
    law_padding_leaves_room(
        rows,
        cols,
        psf.rows as int,
        psf.cols as int,
        config.patch_size as int,
        config.boundary,
    );
    let unit = normalized_psf(psf);
    let grid = placed_psf(unit, shape.0 as nat, shape.1 as nat);
    assert(is_fft(fft2d, grid, transfer));
    law_exact_scalars_obey_weaker_rules::<F>();
    law_normalized_psf_sums_to_one(psf);
    law_placed_psf_keeps_sum(unit, shape.0 as nat, shape.1 as nat);
    if psf.rows <= shape.0 && psf.cols <= shape.1 {
        law_placed_psf_is_shifted(unit, shape.0 as nat, shape.1 as nat);
        let center_r = psf.rows as int / 2;
        let center_c = psf.cols as int / 2;
        assert forall|r: int, c: int| psf.has(r, c) implies grid.at(
            (r - center_r) % shape.0,
            (c - center_c) % shape.1,
        ).times_spec(total(psf)) == #[trigger] psf.at(r, c) by {
            let i = (r - center_r) % shape.0;
            let j = (c - center_c) % shape.1;
            lemma_mod_bound(r - center_r, shape.0);
            lemma_mod_bound(c - center_c, shape.1);
            lemma_wrapped_inverse(psf.rows as int, center_r, shape.0, i);
            lemma_wrapped_inverse(psf.cols as int, center_c, shape.1, j);
            assert(r == (i + center_r) % shape.0);
            assert(c == (j + center_c) % shape.1);
            assert(grid.at(i, j) == unit.at(r, c));
            law_normalization_keeps_proportions(psf, r, c);
        }
    }
}

/// What a run works on and what it gives back. There is a padded image that shows the image in
/// working units behind its margins, and a deblurring of it. Both estimates are cut out of the
/// deblurred images behind the same margins and lie above the offset of the working range by their
/// multiples of its scale. The noise level is reported in input units, and an error is handed on.
pub proof fn law_runs_deblur_the_padded_image<
    F: Bm3dFloat,
    Fft: Fn(&Grid<F>) -> Grid<Complex<F>>,
    Ifft: Fn(&Grid<Complex<F>>) -> Grid<F>,
    Step: Fn(
        &Grid<F>,
        &Grid<F>,
        Bm3dMode,
        &Grid<F>,
        &Grid<F>,
        Option<&Grid<F>>,
        &Bm3dKernelConfig<F>,
    ) -> Result<Grid<F>, String>,
    Robust: Fn(&Vec<F>) -> F,
>(
    ops: Operations<Fft, Ifft, Step, Robust>,
    image: Matrix<F>,
    psf: Matrix<F>,
    config: Bm3dDeblurConfig<F>,
    outcome: Result<(Matrix<F>, Matrix<F>, F), Seq<char>>,
)
    requires
        is_exact::<F>(),
        !image.is_empty(),
        is_run(ops, image, psf, config, outcome),
    ensures
        ({
            let (offset, scale) = normalization(image, config.normalize);
            let (top, left) = margins(
                psf.rows as int,
                psf.cols as int,
                config.patch_size as int,
                config.boundary,
            );
            exists|
                transfer: Matrix<Complex<F>>,
                large: Matrix<F>,
                sigma: F,
                deblurred: Result<(Matrix<F>, Matrix<F>), Seq<char>>,
            |
                {
                    &&& is_transfer(
                        ops.fft2d,
                        image.rows as int,
                        image.cols as int,
                        psf,
                        config,
                        transfer,
                    )
                    &&& large == padded(
                        to_working(image, offset, scale),
                        psf.rows as int,
                        psf.cols as int,
                        config.patch_size as int,
                        config.boundary,
                    )
                    &&& forall|i: int, j: int|
                        image.has(i, j) ==> large.at(top + i, left + j).times_spec(scale).plus_spec(
                            offset,
                        ) == #[trigger] image.at(i, j)
                    &&& #[trigger] is_deblurring(ops, large, sigma, config, transfer, deblurred)
                    &&& match (deblurred, outcome) {
                        (Ok((a, b)), Ok((estimate, first, level))) => {
                            &&& is_cut_out(a, top, left, offset, scale, image, estimate)
                            &&& is_cut_out(b, top, left, offset, scale, image, first)
                            &&& level.over_spec(scale) == sigma
                        },
                        (Err(a), Err(b)) => a == b,
                        _ => false,
                    }
                }
        }),
{
    let (offset, scale) = normalization(image, config.normalize);
    let (top, left) = margins(
        psf.rows as int,
        psf.cols as int,
        config.patch_size as int,
        config.boundary,
    );
    let work = to_working(image, offset, scale);
    let large = padded(
        work,
        psf.rows as int,
        psf.cols as int,
        config.patch_size as int,
        config.boundary,
    );
    let rows = image.rows as int;
    let cols = image.cols as int;
    let transfer = choose|transfer: Matrix<Complex<F>>|
        {
            &&& #[trigger] is_transfer(ops.fft2d, rows, cols, psf, config, transfer)
            &&& is_image_outcome(ops, image, psf, config, transfer, outcome)
        };
    let (sigma, on_grid) = choose|
        sigma: F,
        on_grid: Result<(Matrix<F>, Matrix<F>), Seq<char>>,
    |
        {
            &&& is_noise_level(ops.estimate_robust_sigma, config, work, scale, sigma)
            &&& #[trigger] is_deblurring(ops, large, sigma, config, transfer, on_grid)
            &&& outcome == match on_grid {
                Ok((estimate, first)) => Ok::<(Matrix<F>, Matrix<F>, F), Seq<char>>(
                    (
                        restored(estimate, image, psf, config),
                        restored(first, image, psf, config),
                        sigma.times_spec(scale),
                    ),
                ),
                Err(error) => Err(error),
            }
        };
    lemma_scale_positive(image, config.normalize);
    lemma_over(sigma, scale);
    assert forall|i: int, j: int| image.has(i, j) implies large.at(top + i, left + j).times_spec(
        scale,
    ).plus_spec(offset) == #[trigger] image.at(i, j) by {
        law_levels_move_by_offset_and_scale(image, offset, scale, i, j);
        if config.boundary is Reflect {
            law_padded_image_is_mirrored(
                work,
                psf.rows as int,
                psf.cols as int,
                config.patch_size as int,
                i,
                j,
                0,
            );
        }
    }
    match on_grid {
        Ok((a, b)) => {
            lemma_restored_is_cut_out(a, image, psf, config);
            lemma_restored_is_cut_out(b, image, psf, config);
        },
        Err(error) => {},
    }
    assert(is_deblurring(ops, large, sigma, config, transfer, on_grid));
}

/// Whether `estimate` has the shape of `image`, and its pixels are those of `large` behind the
/// margins, in input units.
pub open spec fn is_cut_out<F: Bm3dFloat>(
    large: Matrix<F>,
    top: int,
    left: int,
    offset: F,
    scale: F,
    image: Matrix<F>,
    estimate: Matrix<F>,
) -> bool {
    &&& estimate.rows == image.rows
    &&& estimate.cols == image.cols
    &&& forall|i: int, j: int|
        image.has(i, j) ==> (#[trigger] estimate.at(i, j)).minus_spec(offset) == large.at(
            top + i,
            left + j,
        ).times_spec(scale)
}

/// What is restored is cut out behind the margins.
proof fn lemma_restored_is_cut_out<F: Bm3dFloat>(
    large: Matrix<F>,
    image: Matrix<F>,
    psf: Matrix<F>,
    config: Bm3dDeblurConfig<F>,
)
    requires
        is_exact::<F>(),
    ensures
        ({
            let (offset, scale) = normalization(image, config.normalize);
            let (top, left) = margins(
                psf.rows as int,
                psf.cols as int,
                config.patch_size as int,
                config.boundary,
            );
            is_cut_out(
                large,
                top,
                left,
                offset,
                scale,
                image,
                restored(large, image, psf, config),
            )
        }),
{
    let (offset, scale) = normalization(image, config.normalize);
    let (top, left) = margins(
        psf.rows as int,
        psf.cols as int,
        config.patch_size as int,
        config.boundary,
    );
    let estimate = restored(large, image, psf, config);
    assert forall|i: int, j: int| image.has(i, j) implies (#[trigger] estimate.at(
        i,
        j,
    )).minus_spec(offset) == large.at(top + i, left + j).times_spec(scale) by {
        lemma_minus(large.at(top + i, left + j).times_spec(scale), offset);
    }
}

/// A plain run gives the final estimate of a detailed one, not that of its first stage, or its
/// error; and so does a slice of a stack.
pub proof fn law_plain_runs_give_the_final_estimate<
    F: Bm3dFloat,
    Fft: Fn(&Grid<F>) -> Grid<Complex<F>>,
    Ifft: Fn(&Grid<Complex<F>>) -> Grid<F>,
    Step: Fn(
        &Grid<F>,
        &Grid<F>,
        Bm3dMode,
        &Grid<F>,
        &Grid<F>,
        Option<&Grid<F>>,
        &Bm3dKernelConfig<F>,
    ) -> Result<Grid<F>, String>,
    Robust: Fn(&Vec<F>) -> F,
>(
    ops: Operations<Fft, Ifft, Step, Robust>,
    image: Matrix<F>,
    psf: Matrix<F>,
    config: Bm3dDeblurConfig<F>,
    transfer: Matrix<Complex<F>>,
    estimate: Matrix<F>,
    error: Seq<char>,
)
    ensures
        is_estimate_of_run(
            ops,
            image,
            psf,
            config,
            Ok::<Matrix<F>, Seq<char>>(estimate),
        ) <==> exists|first: Matrix<F>, sigma: F| #[trigger]
            is_run(
                ops,
                image,
                psf,
                config,
                Ok::<(Matrix<F>, Matrix<F>, F), Seq<char>>((estimate, first, sigma)),
            ),
        is_estimate_of_run(ops, image, psf, config, Err::<Matrix<F>, Seq<char>>(error)) <==> is_run(
            ops,
            image,
            psf,
            config,
            Err::<(Matrix<F>, Matrix<F>, F), Seq<char>>(error),
        ),
        is_slice_outcome(
            ops,
            image,
            psf,
            config,
            transfer,
            Ok::<Matrix<F>, Seq<char>>(estimate),
        ) <==> exists|first: Matrix<F>, sigma: F| #[trigger]
            is_image_outcome(
                ops,
                image,
                psf,
                config,
                transfer,
                Ok::<(Matrix<F>, Matrix<F>, F), Seq<char>>((estimate, first, sigma)),
            ),
        is_slice_outcome(
            ops,
            image,
            psf,
            config,
            transfer,
            Err::<Matrix<F>, Seq<char>>(error),
        ) <==> is_image_outcome(
            ops,
            image,
            psf,
            config,
            transfer,
            Err::<(Matrix<F>, Matrix<F>, F), Seq<char>>(error),
        ),
{
    let good = Ok::<Matrix<F>, Seq<char>>(estimate);
    let bad = Err::<Matrix<F>, Seq<char>>(error);
    let failed = Err::<(Matrix<F>, Matrix<F>, F), Seq<char>>(error);
    assert(estimate_of(failed) == bad);
    if is_estimate_of_run(ops, image, psf, config, good) {
        let full = choose|full: Result<(Matrix<F>, Matrix<F>, F), Seq<char>>|
            #[trigger] is_run(ops, image, psf, config, full) && good == estimate_of(full);
        let whole = full->Ok_0;
        assert(full == Ok::<(Matrix<F>, Matrix<F>, F), Seq<char>>((estimate, whole.1, whole.2)));
    }
    if is_slice_outcome(ops, image, psf, config, transfer, good) {
        let full = choose|full: Result<(Matrix<F>, Matrix<F>, F), Seq<char>>|
            #[trigger] is_image_outcome(ops, image, psf, config, transfer, full) && good
                == estimate_of(full);
        let whole = full->Ok_0;
        assert(full == Ok::<(Matrix<F>, Matrix<F>, F), Seq<char>>((estimate, whole.1, whole.2)));
    }
    assert forall|first: Matrix<F>, sigma: F| estimate_of(
        Ok::<(Matrix<F>, Matrix<F>, F), Seq<char>>((estimate, first, sigma)),
    ) == good by {}
    if is_estimate_of_run(ops, image, psf, config, bad) {
        let full = choose|full: Result<(Matrix<F>, Matrix<F>, F), Seq<char>>|
            #[trigger] is_run(ops, image, psf, config, full) && bad == estimate_of(full);
        assert(full == failed);
    }
    if is_slice_outcome(ops, image, psf, config, transfer, bad) {
        let full = choose|full: Result<(Matrix<F>, Matrix<F>, F), Seq<char>>|
            #[trigger] is_image_outcome(ops, image, psf, config, transfer, full) && bad
                == estimate_of(full);
        assert(full == failed);
    }
}

/// Requests are looked at in order: the settings, then the size of the image, then the PSF.
pub proof fn law_requests_are_refused_in_order<F: Bm3dFloat>(
    rows: int,
    cols: int,
    psf: Matrix<F>,
    config: Bm3dDeblurConfig<F>,
)
    ensures
        ({
            let text = rejection(rows, cols, psf, config);
            let holds_patch = rows >= config.patch_size && cols >= config.patch_size;
            &&& config.violation() is Some ==> text == config.violation()
            &&& config.violation() is None && !holds_patch ==> text == Some(
                "Image size ("@ + decimal(rows) + ", "@ + decimal(cols)
                    + ") is smaller than patch_size "@ + decimal(config.patch_size as int),
            )
            &&& config.violation() is None && holds_patch && (psf.rows == 0 || psf.cols == 0)
                ==> text == Some("PSF must not be empty"@)
            &&& config.violation() is None && holds_patch && psf.rows > 0 && psf.cols > 0 && total(
                psf,
            ).abs_spec().le_spec(F::from_decimal_spec(1, 12)) ==> text == Some(
                "PSF sum must be non-zero"@,
            )
        }),
{
}

/// A request fits exactly if both axes of the padded image, and the number of its cells, fit into
/// the address space eight times.
pub proof fn law_requests_that_fit<F: Bm3dFloat>(
    rows: int,
    cols: int,
    psf: Matrix<F>,
    config: Bm3dDeblurConfig<F>,
)
    requires
        rows >= 0,
        cols >= 0,
    ensures
        ({
            let shape = padded_shape_spec(
                rows,
                cols,
                psf.rows as int,
                psf.cols as int,
                config.patch_size as int,
                config.boundary,
            );
            request_fits(rows, cols, psf, config) <==> 8 * shape.0 <= usize::MAX && 8 * shape.1
                <= usize::MAX && 8 * (shape.0 * shape.1) <= usize::MAX
        }),
{
    let shape = padded_shape_spec(
        rows,
        cols,
        psf.rows as int,
        psf.cols as int,
        config.patch_size as int,
        config.boundary,
    );
    law_padding_leaves_room(
        rows,
        cols,
        psf.rows as int,
        psf.cols as int,
        config.patch_size as int,
        config.boundary,
    );
    law_shapes_that_fit(shape.0, shape.1);
}

} // verus!
