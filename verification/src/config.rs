//! Settings of a deblurring run.

use crate::float_trait::Bm3dFloat;
use vstd::prelude::*;

verus! {

/// Default block matching patch size.
pub const DEFAULT_PATCH_SIZE: usize = 8;

/// Default stride between reference patches.
pub const DEFAULT_STEP_SIZE: usize = 4;

/// Default block matching search window.
pub const DEFAULT_SEARCH_WINDOW: usize = 24;

/// Default maximum number of matched patches per group.
pub const DEFAULT_MAX_MATCHES: usize = 16;

/// Boundary handling for the frequency-domain inversion.
#[derive(Debug, Clone, Copy, PartialEq, Eq, Structural)]
pub enum DeblurBoundary {
    /// Mirror-extend the image before deconvolution and crop afterwards.
    /// Avoids the wrap-around ringing of a plain circular model. Default.
    Reflect,
    /// Treat the observation as circularly convolved (no padding).
    /// Only correct if the data really is periodic.
    Circular,
}

impl Default for DeblurBoundary {
    fn default() -> (r: Self)
        ensures
            r == DeblurBoundary::Reflect,
    {
        DeblurBoundary::Reflect
    }
}

/// Settings for deblurring.
///
/// `Default::default()` gives the default settings; typically only `sigma`
/// (or nothing at all, if auto-estimation is wanted) needs to be set.
///
/// Both regularization factors are dimensionless, so they do not have to be retuned when
/// the data range changes:
///
/// - `reg_ri` scales the noise-to-signal ratio that regularizes the first inversion;
/// - `reg_rwi` multiplies the noise power in the Wiener denominator of the second. A value
///   of one would be the statistically optimal Wiener inverse; the default deliberately
///   under-regularizes, because the following filtering pass removes the residual noise.
#[derive(Debug, Clone)]
pub struct Bm3dDeblurConfig<F: Bm3dFloat> {
    /// Standard deviation of the white noise in the *observation*, in input units.
    /// `<= 0` triggers automatic estimation. Default: 0.0 (auto).
    pub sigma: F,
    /// Stage-1 regularization factor (dimensionless). Default: 1.0
    pub reg_ri: F,
    /// Stage-2 Wiener regularization factor (dimensionless). Default: 5e-3
    pub reg_rwi: F,
    /// Hard thresholding coefficient for the first filtering pass. Default: 2.7
    pub threshold: F,
    /// Block matching patch size. Default: 8
    pub patch_size: usize,
    /// Stride between reference patches. Default: 4
    pub step_size: usize,
    /// Search window size for block matching. Default: 24
    pub search_window: usize,
    /// Maximum similar patches per group. Default: 16
    pub max_matches: usize,
    /// Run the second (Wiener) stage. Disabling roughly halves the runtime at the
    /// cost of quality. Default: true
    pub wiener_stage: bool,
    /// Boundary handling. Default: [`DeblurBoundary::Reflect`]
    pub boundary: DeblurBoundary,
    /// Min-max normalize the input to `[0, 1]` before processing and restore the
    /// input range afterwards. The blur model is affine equivariant (the PSF sums
    /// to 1), so this is lossless with respect to the model. Default: true
    ///
    /// Independently of this flag, the image mean is removed before the frequency-domain
    /// inversion and added back afterwards, so a heavily regularized inversion decays
    /// towards the mean rather than towards whatever value normalization mapped to zero.
    pub normalize: bool,
}

impl<F: Bm3dFloat> Bm3dDeblurConfig<F> {
    /// The default settings.
    pub open spec fn defaults() -> Bm3dDeblurConfig<F> {
        Bm3dDeblurConfig {
            sigma: F::zero_spec(),
            reg_ri: F::from_decimal_spec(1, 0),
            reg_rwi: F::from_decimal_spec(5, 3),
            threshold: F::from_decimal_spec(27, 1),
            patch_size: DEFAULT_PATCH_SIZE,
            step_size: DEFAULT_STEP_SIZE,
            search_window: DEFAULT_SEARCH_WINDOW,
            max_matches: DEFAULT_MAX_MATCHES,
            wiener_stage: true,
            boundary: DeblurBoundary::Reflect,
            normalize: true,
        }
    }

    /// What is wrong with the settings, if anything: the first rule that they break.
    pub open spec fn violation(self) -> Option<Seq<char>> {
        if self.patch_size == 0 {
            Some("patch_size must be > 0"@)
        } else if self.step_size == 0 {
            Some("step_size must be > 0"@)
        } else if self.search_window == 0 {
            Some("search_window must be > 0"@)
        } else if self.max_matches == 0 {
            Some("max_matches must be > 0"@)
        } else if self.threshold.lt_spec(F::zero_spec()) {
            Some("threshold must be >= 0"@)
        } else if self.reg_ri.le_spec(F::zero_spec()) {
            Some("reg_ri must be > 0"@)
        } else if self.reg_rwi.le_spec(F::zero_spec()) {
            Some("reg_rwi must be > 0"@)
        } else {
            None
        }
    }

    /// Create a new configuration with default values.
    pub fn new() -> (r: Self)
        ensures
            r == Self::defaults(),
    {
        Bm3dDeblurConfig {
            sigma: F::zero(),
            reg_ri: F::from_decimal(1, 0),
            reg_rwi: F::from_decimal(5, 3),
            threshold: F::from_decimal(27, 1),
            patch_size: DEFAULT_PATCH_SIZE,
            step_size: DEFAULT_STEP_SIZE,
            search_window: DEFAULT_SEARCH_WINDOW,
            max_matches: DEFAULT_MAX_MATCHES,
            wiener_stage: true,
            boundary: DeblurBoundary::default(),
            normalize: true,
        }
    }

    /// Validate the configuration parameters: `Ok` exactly if no rule is broken, and
    /// otherwise the message for the first broken one.
    pub fn validate(&self) -> (r: Result<(), String>)
        ensures
            match self.violation() {
                None => r is Ok,
                Some(message) => r matches Err(e) && e@ == message,
            },
    {
        if self.patch_size == 0 {
            return Err("patch_size must be > 0".to_string());
        }
        if self.step_size == 0 {
            return Err("step_size must be > 0".to_string());
        }
        if self.search_window == 0 {
            return Err("search_window must be > 0".to_string());
        }
        if self.max_matches == 0 {
            return Err("max_matches must be > 0".to_string());
        }
        if self.threshold.lt(F::zero()) {
            return Err("threshold must be >= 0".to_string());
        }
        if self.reg_ri.le(F::zero()) {
            return Err("reg_ri must be > 0".to_string());
        }
        if self.reg_rwi.le(F::zero()) {
            return Err("reg_rwi must be > 0".to_string());
        }
        Ok(())
    }
}

impl<F: Bm3dFloat> Default for Bm3dDeblurConfig<F> {
    fn default() -> (r: Self)
        ensures
            r == Bm3dDeblurConfig::<F>::defaults(),
    {
        Bm3dDeblurConfig::new()
    }
}

/// The settings are accepted exactly if the four counts are positive, the threshold is not
/// negative and both regularization factors are not `<= 0`.
pub proof fn law_valid_settings<F: Bm3dFloat>(config: Bm3dDeblurConfig<F>)
    ensures
        config.violation() is None <==> {
            &&& config.patch_size > 0
            &&& config.step_size > 0
            &&& config.search_window > 0
            &&& config.max_matches > 0
            &&& !config.threshold.lt_spec(F::zero_spec())
            &&& !config.reg_ri.le_spec(F::zero_spec())
            &&& !config.reg_rwi.le_spec(F::zero_spec())
        },
{
}

/// Settings that break a rule are refused with the text for the first rule that they break, in the
/// order of the counts, the threshold and the regularization factors.
pub proof fn law_first_broken_rule_is_named<F: Bm3dFloat>(config: Bm3dDeblurConfig<F>)
    ensures
        ({
            let counts = config.patch_size > 0 && config.step_size > 0 && config.search_window > 0
                && config.max_matches > 0;
            let shrinks = config.threshold.lt_spec(F::zero_spec());
            let first = config.reg_ri.le_spec(F::zero_spec());
            let second = config.reg_rwi.le_spec(F::zero_spec());
            let text = config.violation();
            &&& config.patch_size == 0 ==> text == Some("patch_size must be > 0"@)
            &&& config.patch_size > 0 && config.step_size == 0 ==> text == Some(
                "step_size must be > 0"@,
            )
            &&& config.patch_size > 0 && config.step_size > 0 && config.search_window == 0 ==> text
                == Some("search_window must be > 0"@)
            &&& config.patch_size > 0 && config.step_size > 0 && config.search_window > 0
                && config.max_matches == 0 ==> text == Some("max_matches must be > 0"@)
            &&& counts && shrinks ==> text == Some("threshold must be >= 0"@)
            &&& counts && !shrinks && first ==> text == Some("reg_ri must be > 0"@)
            &&& counts && !shrinks && !first && second ==> text == Some("reg_rwi must be > 0"@)
        }),
{
}

} // verus!
