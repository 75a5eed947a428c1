//! What the deblurring run asks of the outside: Fourier transforms, a collaborative filter and
//! a robust estimate of spread.

use crate::complex::Complex;
use crate::config::Bm3dDeblurConfig;
use crate::float_trait::Bm3dFloat;
use crate::grid::{Grid, Matrix};
use crate::noise::MAX_SIGMA_SAMPLES;
use crate::spectral::{is_forward_transform, is_inverse_transform};
use vstd::prelude::*;

verus! {

/// The two ways in which the collaborative filter shrinks a group of patches.
#[derive(Debug, Clone, Copy, PartialEq, Eq, Structural)]
pub enum Bm3dMode {
    /// Coefficients below a threshold are set to zero.
    HardThreshold,
    /// Coefficients are weighted by the signal-to-noise ratio of the pilot.
    Wiener,
}

/// Settings of one collaborative filtering pass.
#[derive(Debug, Clone)]
pub struct Bm3dKernelConfig<F: Bm3dFloat> {
    /// Standard deviation of white noise; zero if the noise is described otherwise.
    pub sigma_random: F,
    /// Hard thresholding coefficient.
    pub threshold: F,
    /// Block matching patch size.
    pub patch_size: usize,
    /// Stride between reference patches.
    pub step_size: usize,
    /// Search window size for block matching.
    pub search_window: usize,
    /// Maximum similar patches per group.
    pub max_matches: usize,
    /// Whether to use the Hadamard transform in place of the Fourier transform; `None` leaves
    /// the choice to the filter.
    pub use_hadamard_fast_path: Option<bool>,
}

impl<F: Bm3dFloat> Bm3dKernelConfig<F> {
    /// The settings of a pass with the given threshold. The coloured noise model lives in the
    /// Fourier basis, so the Hadamard transform stays disabled.
    pub open spec fn for_pass(config: Bm3dDeblurConfig<F>, threshold: F) -> Bm3dKernelConfig<F> {
        Bm3dKernelConfig {
            sigma_random: F::zero_spec(),
            threshold,
            patch_size: config.patch_size,
            step_size: config.step_size,
            search_window: config.search_window,
            max_matches: config.max_matches,
            use_hadamard_fast_path: Some(false),
        }
    }

    /// The settings of a pass with the given threshold.
    pub fn new_for_pass(config: &Bm3dDeblurConfig<F>, threshold: F) -> (r: Bm3dKernelConfig<F>)
        ensures
            r == Bm3dKernelConfig::for_pass(*config, threshold),
    {
        Bm3dKernelConfig {
            sigma_random: F::zero(),
            threshold,
            patch_size: config.patch_size,
            step_size: config.step_size,
            search_window: config.search_window,
            max_matches: config.max_matches,
            use_hadamard_fast_path: Some(false),
        }
    }
}

/// The operations that a deblurring run is built on.
pub struct Operations<Fft, Ifft, Step, Robust> {
    /// Two-dimensional Fourier transform of an image.
    pub fft2d: Fft,
    /// Real part of the normalized two-dimensional inverse Fourier transform of a spectrum.
    pub ifft2d: Ifft,
    /// One pass of collaborative filtering under coloured noise. Takes the noisy image, the
    /// pilot, the mode, two placeholders for the description of streak noise, the noise
    /// standard deviation per patch coefficient, and the settings.
    pub run_bm3d_step_colored_noise: Step,
    /// Robust estimate of the standard deviation of a sample.
    pub estimate_robust_sigma: Robust,
}

/// The placeholder for a noise description that is not used: a single zero.
pub open spec fn placeholder<F: Bm3dFloat>() -> Matrix<F> {
    Matrix::from_fn(1, 1, |r: int, c: int| F::zero_spec())
}

/// An outcome by its content: the image, or the text of the error.
pub open spec fn content_of<F: Bm3dFloat>(o: Result<Grid<F>, String>) -> Result<
    Matrix<F>,
    Seq<char>,
> {
    match o {
        Ok(g) => Ok(g@),
        Err(e) => Err(e@),
    }
}

/// Whether `outcome` is an answer that the collaborative filter may give.
pub open spec fn is_filter_outcome<
    F: Bm3dFloat,
    Step: Fn(
        &Grid<F>,
        &Grid<F>,
        Bm3dMode,
        &Grid<F>,
        &Grid<F>,
        Option<&Grid<F>>,
        &Bm3dKernelConfig<F>,
    ) -> Result<Grid<F>, String>,
>(
    step: Step,
    noisy: Matrix<F>,
    pilot: Matrix<F>,
    mode: Bm3dMode,
    sigmas: Matrix<F>,
    config: Bm3dKernelConfig<F>,
    outcome: Result<Matrix<F>, Seq<char>>,
) -> bool {
    exists|n: Grid<F>, p: Grid<F>, d: Grid<F>, e: Grid<F>, s: Grid<F>, o: Result<Grid<F>, String>|
        {
            &&& n@ == noisy
            &&& p@ == pilot
            &&& d@ == placeholder::<F>()
            &&& e@ == placeholder::<F>()
            &&& s@ == sigmas
            &&& content_of(o) == outcome
            &&& #[trigger] call_ensures(step, (&n, &p, mode, &d, &e, Some(&s), &config), o)
        }
}

/// What is asked of the collaborative filter on `rows x cols` images and patches of
/// `patch_size`: it takes a noisy image and a pilot of that shape, with one noise level per patch
/// coefficient and positive counts; and an image that it gives back has that shape.
pub open spec fn is_collaborative_filter<
    F: Bm3dFloat,
    Step: Fn(
        &Grid<F>,
        &Grid<F>,
        Bm3dMode,
        &Grid<F>,
        &Grid<F>,
        Option<&Grid<F>>,
        &Bm3dKernelConfig<F>,
    ) -> Result<Grid<F>, String>,
>(step: Step, rows: int, cols: int, patch_size: int) -> bool {
    &&& forall|
        n: Grid<F>,
        p: Grid<F>,
        mode: Bm3dMode,
        d: Grid<F>,
        e: Grid<F>,
        s: Grid<F>,
        config: Bm3dKernelConfig<F>,
    |
        {
            &&& n@.rows == p@.rows == rows
            &&& n@.cols == p@.cols == cols
            &&& d@ == placeholder::<F>()
            &&& e@ == placeholder::<F>()
            &&& s@.rows == s@.cols == config.patch_size == patch_size
            &&& config.step_size > 0
            &&& config.search_window > 0
            &&& config.max_matches > 0
        } ==> #[trigger] call_requires(step, (&n, &p, mode, &d, &e, Some(&s), &config))
    &&& forall|
        n: Grid<F>,
        p: Grid<F>,
        mode: Bm3dMode,
        d: Grid<F>,
        e: Grid<F>,
        s: Grid<F>,
        config: Bm3dKernelConfig<F>,
        g: Grid<F>,
    |
        n@.rows == rows && n@.cols == cols && #[trigger] call_ensures(
            step,
            (&n, &p, mode, &d, &e, Some(&s), &config),
            Ok::<Grid<F>, String>(g),
        ) ==> g@.rows == rows && g@.cols == cols
}

/// What is asked of all operations together by a run on a padded grid of `rows x cols` cells
/// with patches of `patch_size`: the images of a run have the shape of the padded grid, and only
/// patches are transformed besides them. A sample that is to be estimated has a value, and no
/// more than [`MAX_SIGMA_SAMPLES`].
pub open spec fn operations_fit<
    F: Bm3dFloat,
    Fft: Fn(&Grid<F>) -> Grid<Complex<F>>,
    Ifft: Fn(&Grid<Complex<F>>) -> Grid<F>,
    Step: Fn(
        &Grid<F>,
        &Grid<F>,
        Bm3dMode,
        &Grid<F>,
        &Grid<F>,
        Option<&Grid<F>>,
        &Bm3dKernelConfig<F>,
    ) -> Result<Grid<F>, String>,
    Robust: Fn(&Vec<F>) -> F,
>(ops: Operations<Fft, Ifft, Step, Robust>, rows: int, cols: int, patch_size: int) -> bool {
    &&& is_forward_transform(ops.fft2d, rows, cols)
    &&& is_forward_transform(ops.fft2d, patch_size, patch_size)
    &&& is_inverse_transform(ops.ifft2d, rows, cols)
    &&& is_collaborative_filter(ops.run_bm3d_step_colored_noise, rows, cols, patch_size)
    &&& forall|samples: Vec<F>|
        1 <= samples@.len() <= MAX_SIGMA_SAMPLES ==> #[trigger] call_requires(
            ops.estimate_robust_sigma,
            (&samples,),
        )
}

} // verus!
