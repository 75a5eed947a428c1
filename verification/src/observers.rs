//! What the observer of a run over a stack is told, and what its answers do.

use crate::complex::Complex;
use crate::config::Bm3dDeblurConfig;
use crate::deblur::{
    are_first_slices, estimate_of, is_estimate_of_run, is_image_outcome, is_run, is_slice_outcome,
    is_stack_run, is_transfer, stops_at_slice, stops_with,
};
use crate::float_trait::Bm3dFloat;
use crate::grid::{Grid, Matrix};
use crate::kernel::{Bm3dKernelConfig, Bm3dMode, Operations};
use crate::stack::StackModel;
use vstd::prelude::*;

verus! {

/// Whether the observer may answer that all is well when it is told that `completed` of `total`
/// slices are done.
pub open spec fn may_agree<P: Fn(usize, usize) -> Result<(), String>>(
    observer: P,
    completed: int,
    total: int,
) -> bool {
    exists|answer: Result<(), String>| #[trigger]
        call_ensures(observer, (completed as usize, total as usize), answer) && answer is Ok
}

/// Whether the observer may object with this text when it is told that `completed` of `total`
/// slices are done.
pub open spec fn may_object<P: Fn(usize, usize) -> Result<(), String>>(
    observer: P,
    completed: int,
    total: int,
    text: Seq<char>,
) -> bool {
    exists|objection: String|
        objection@ == text && #[trigger] call_ensures(
            observer,
            (completed as usize, total as usize),
            Err::<(), String>(objection),
        )
}

/// A run over a stack that comes to its end has told the observer of every slice, in turn, how
/// many of all slices are done, and the observer has agreed each time.
pub proof fn law_observer_agrees_to_every_slice<
    F: Bm3dFloat,
    Fft: Fn(&Grid<F>) -> Grid<Complex<F>>,
    Ifft: Fn(&Grid<Complex<F>>) -> Grid<F>,
    Step: Fn(
        &Grid<F>,
        &Grid<F>,
        Bm3dMode,
        &Grid<F>,
        &Grid<F>,
        Option<&Grid<F>>,
        &Bm3dKernelConfig<F>,
    ) -> Result<Grid<F>, String>,
    Robust: Fn(&Vec<F>) -> F,
    P: Fn(usize, usize) -> Result<(), String>,
>(
    ops: Operations<Fft, Ifft, Step, Robust>,
    observed: StackModel<F>,
    psf: Matrix<F>,
    config: Bm3dDeblurConfig<F>,
    observer: &P,
    estimates: StackModel<F>,
    i: int,
)
    requires
        0 <= i < observed.slices.len(),
        is_stack_run(
            ops,
            observed,
            psf,
            config,
            Some(observer),
            Ok::<StackModel<F>, Seq<char>>(estimates),
        ),
    ensures
        estimates.rows == observed.rows,
        estimates.cols == observed.cols,
        estimates.slices.len() == observed.slices.len(),
        may_agree(*observer, i + 1, observed.slices.len() as int),
{
    let transfer = choose|transfer: Matrix<Complex<F>>|
        {
            &&& #[trigger] is_transfer(
                ops.fft2d,
                observed.rows as int,
                observed.cols as int,
                psf,
                config,
                transfer,
            )
            &&& estimates.slices.len() == observed.slices.len()
            &&& are_first_slices(
                ops,
                observed.slices,
                psf,
                config,
                transfer,
                Some(observer),
                estimates.slices,
            )
        };
    assert(is_slice_outcome(
        ops,
        observed.slices[i],
        psf,
        config,
        transfer,
        Ok::<Matrix<F>, Seq<char>>(estimates.slices[i]),
    ));
}

/// A run over a stack that stops with an error stops at a slice: the observer has agreed to all
/// slices before it, and the error is the one that deblurring this slice alone may give, or the
/// objection of the observer to it. Without an observer only a slice can stop the run.
pub proof fn law_stack_runs_stop_at_a_slice<
    F: Bm3dFloat,
    Fft: Fn(&Grid<F>) -> Grid<Complex<F>>,
    Ifft: Fn(&Grid<Complex<F>>) -> Grid<F>,
    Step: Fn(
        &Grid<F>,
        &Grid<F>,
        Bm3dMode,
        &Grid<F>,
        &Grid<F>,
        Option<&Grid<F>>,
        &Bm3dKernelConfig<F>,
    ) -> Result<Grid<F>, String>,
    Robust: Fn(&Vec<F>) -> F,
    P: Fn(usize, usize) -> Result<(), String>,
>(
    ops: Operations<Fft, Ifft, Step, Robust>,
    observed: StackModel<F>,
    psf: Matrix<F>,
    config: Bm3dDeblurConfig<F>,
    progress: Option<&P>,
    error: Seq<char>,
) -> (k: int)
    requires
        forall|i: int|
            0 <= i < observed.slices.len() ==> (#[trigger] observed.slices[i]).rows
                == observed.rows && observed.slices[i].cols == observed.cols,
        is_stack_run(
            ops,
            observed,
            psf,
            config,
            progress,
            Err::<StackModel<F>, Seq<char>>(error),
        ),
    ensures
        0 <= k < observed.slices.len(),
        progress matches Some(observer) ==> forall|i: int|
            0 <= i < k ==> #[trigger] may_agree(*observer, i + 1, observed.slices.len() as int),
        is_estimate_of_run(
            ops,
            observed.slices[k],
            psf,
            config,
            Err::<Matrix<F>, Seq<char>>(error),
        ) || (progress matches Some(observer) && may_object(
            *observer,
            k + 1,
            observed.slices.len() as int,
            error,
        )),
{
    let n = observed.slices.len() as int;
    let transfer = choose|transfer: Matrix<Complex<F>>|
        {
            &&& #[trigger] is_transfer(
                ops.fft2d,
                observed.rows as int,
                observed.cols as int,
                psf,
                config,
                transfer,
            )
            &&& stops_with(
                ops,
                observed.slices,
                psf,
                config,
                transfer,
                progress,
                error,
            )
        };
    let done = choose|done: Seq<Matrix<F>>|
        {
            &&& done.len() < observed.slices.len()
            &&& #[trigger] are_first_slices(
                ops,
                observed.slices,
                psf,
                config,
                transfer,
                progress,
                done,
            )
            &&& stops_at_slice(
                ops,
                observed.slices,
                psf,
                config,
                transfer,
                progress,
                done.len() as int,
                error,
            )
        };
    let k = done.len() as int;
    if let Some(observer) = progress {
        assert forall|i: int| 0 <= i < k implies #[trigger] may_agree(*observer, i + 1, n) by {
            assert(is_slice_outcome(
                ops,
                observed.slices[i],
                psf,
                config,
                transfer,
                Ok::<Matrix<F>, Seq<char>>(done[i]),
            ));
        }
    }
    let slice = observed.slices[k];
    let failed = Err::<Matrix<F>, Seq<char>>(error);
    if is_slice_outcome(ops, slice, psf, config, transfer, failed) {
        let full = choose|full: Result<(Matrix<F>, Matrix<F>, F), Seq<char>>|
            #[trigger] is_image_outcome(ops, slice, psf, config, transfer, full) && failed
                == estimate_of(full);
        assert(is_transfer(
            ops.fft2d,
            slice.rows as int,
            slice.cols as int,
            psf,
            config,
            transfer,
        ));
        assert(is_run(ops, slice, psf, config, full));
    } else if let Some(observer) = progress {
        let answer = choose|answer: Result<(), String>|
            {
                &&& #[trigger] call_ensures(*observer, ((k + 1) as usize, n as usize), answer)
                &&& Err::<(), Seq<char>>(error) == match answer {
                    Ok(u) => Ok::<(), Seq<char>>(()),
                    Err(e) => Err(e@),
                }
            };
        assert(answer is Err);
        assert(answer == Err::<(), String>(answer->Err_0));
    }
    k
}

/// A stack of no slices is given back as it is, whatever the PSF, the settings and the observer.
pub proof fn law_empty_stacks_come_back<
    F: Bm3dFloat,
    Fft: Fn(&Grid<F>) -> Grid<Complex<F>>,
    Ifft: Fn(&Grid<Complex<F>>) -> Grid<F>,
    Step: Fn(
        &Grid<F>,
        &Grid<F>,
        Bm3dMode,
        &Grid<F>,
        &Grid<F>,
        Option<&Grid<F>>,
        &Bm3dKernelConfig<F>,
    ) -> Result<Grid<F>, String>,
    Robust: Fn(&Vec<F>) -> F,
    P: Fn(usize, usize) -> Result<(), String>,
>(
    ops: Operations<Fft, Ifft, Step, Robust>,
    observed: StackModel<F>,
    psf: Matrix<F>,
    config: Bm3dDeblurConfig<F>,
    progress: Option<&P>,
    outcome: Result<StackModel<F>, Seq<char>>,
)
    requires
        observed.slices.len() == 0,
        is_stack_run(ops, observed, psf, config, progress, outcome),
    ensures
        outcome matches Ok(stack) && stack == observed,
{
}

} // verus!
