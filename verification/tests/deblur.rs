use bm3d_deblur::complex::Complex;
use bm3d_deblur::config::{Bm3dDeblurConfig, DeblurBoundary};
use bm3d_deblur::deblur::{
    bm3d_deblur, bm3d_deblur_detailed, bm3d_deblur_stack, deblur_padded, request_shape,
};
use bm3d_deblur::float_trait::Bm3dFloat;
use bm3d_deblur::grid::{checked_cells, Grid, MAX_CELLS};
use bm3d_deblur::kernel::{Bm3dKernelConfig, Bm3dMode, Operations};
use bm3d_deblur::levels::{
    into_working_range, lower_by, mean_and_variance, normalization_params, raise_by,
};
use bm3d_deblur::noise::{estimate_white_noise_sigma, haar_detail_samples, MAX_SIGMA_SAMPLES};
use bm3d_deblur::padding::{crop_to_input_range, pad_for_deconvolution, padded_shape};
use bm3d_deblur::psf::{
    blur_with_psf, boxcar_psf, checked_gaussian_psf, checked_horizontal_gaussian_psf,
    gaussian_kernel_1d, gaussian_psf, gaussian_radius, horizontal_gaussian_psf, normalize_psf,
};
use bm3d_deblur::spectral::{
    apply_filter, fold_autocorrelation, noise_behind, patch_noise_sigma, place_psf, power_spectrum,
    psf_transfer_function, regularization_of_inverse, regularization_of_wiener,
    regularized_inverse, regularized_wiener_inverse, sigmas_of_variances,
};
use bm3d_deblur::stack::Stack;
use rand::rngs::StdRng;
use rand::SeedableRng;
use rand_distr::{Distribution, Normal};
use rustfft::num_complex;
use rustfft::num_traits::{Float, NumCast};
use rustfft::{FftNum, FftPlanner};

/// A floating-point number as a scalar of the library.
#[derive(Clone, Copy, Debug, PartialEq)]
struct Real<T>(T);

trait Number: FftNum + Float {}

impl Number for f32 {}

impl Number for f64 {}

fn number<T: Number>(x: f64) -> T {
    <T as NumCast>::from(x).unwrap()
}

impl<T: Number> Bm3dFloat for Real<T> {
    fn zero_spec() -> Self {
        Self::zero()
    }
    fn one_spec() -> Self {
        Self::one()
    }
    fn infinity_spec() -> Self {
        Self::infinity()
    }
    fn neg_infinity_spec() -> Self {
        Self::neg_infinity()
    }
    fn gaussian_truncate_spec() -> Self {
        Self::gaussian_truncate()
    }
    fn from_decimal_spec(digits: i64, places: u32) -> Self {
        Self::from_decimal(digits, places)
    }
    fn usize_as_spec(n: usize) -> Self {
        Self::usize_as(n)
    }
    fn isize_as_spec(n: isize) -> Self {
        Self::isize_as(n)
    }
    fn plus_spec(self, rhs: Self) -> Self {
        self.plus(rhs)
    }
    fn minus_spec(self, rhs: Self) -> Self {
        self.minus(rhs)
    }
    fn times_spec(self, rhs: Self) -> Self {
        self.times(rhs)
    }
    fn over_spec(self, rhs: Self) -> Self {
        self.over(rhs)
    }
    fn neg_spec(self) -> Self {
        self.neg()
    }
    fn abs_spec(self) -> Self {
        self.abs()
    }
    fn max_spec(self, other: Self) -> Self {
        self.max(other)
    }
    fn sqrt_spec(self) -> Self {
        self.sqrt()
    }
    fn exp_spec(self) -> Self {
        self.exp()
    }
    fn ceil_spec(self) -> Self {
        self.ceil()
    }
    fn to_usize_spec(self) -> usize {
        self.to_usize()
    }
    fn lt_spec(self, other: Self) -> bool {
        self.lt(other)
    }
    fn le_spec(self, other: Self) -> bool {
        self.le(other)
    }
    fn is_finite_spec(self) -> bool {
        self.is_finite()
    }
    fn zero() -> Self {
        Real(number(0.0))
    }
    fn one() -> Self {
        Real(number(1.0))
    }
    fn infinity() -> Self {
        Real(<T as Float>::infinity())
    }
    fn neg_infinity() -> Self {
        Real(<T as Float>::neg_infinity())
    }
    fn gaussian_truncate() -> Self {
        Real(number(4.0))
    }
    fn from_decimal(digits: i64, places: u32) -> Self {
        let text = format!("{}e-{}", digits, places);
        Real(number(text.parse::<f64>().unwrap()))
    }
    fn usize_as(n: usize) -> Self {
        Real(<T as NumCast>::from(n).unwrap())
    }
    fn isize_as(n: isize) -> Self {
        Real(<T as NumCast>::from(n).unwrap())
    }
    fn plus(self, rhs: Self) -> Self {
        Real(self.0 + rhs.0)
    }
    fn minus(self, rhs: Self) -> Self {
        Real(self.0 - rhs.0)
    }
    fn times(self, rhs: Self) -> Self {
        Real(self.0 * rhs.0)
    }
    fn over(self, rhs: Self) -> Self {
        Real(self.0 / rhs.0)
    }
    fn neg(self) -> Self {
        Real(-self.0)
    }
    fn abs(self) -> Self {
        Real(Float::abs(self.0))
    }
    fn max(self, other: Self) -> Self {
        Real(Float::max(self.0, other.0))
    }
    fn sqrt(self) -> Self {
        Real(Float::sqrt(self.0))
    }
    fn exp(self) -> Self {
        Real(Float::exp(self.0))
    }
    fn ceil(self) -> Self {
        Real(Float::ceil(self.0))
    }
    fn to_usize(self) -> usize {
        self.0.to_f64().unwrap() as usize
    }
    fn lt(self, other: Self) -> bool {
        self.0 < other.0
    }
    fn le(self, other: Self) -> bool {
        self.0 <= other.0
    }
    fn is_finite(self) -> bool {
        Float::is_finite(self.0)
    }
}

/// Rows, then columns, of a two-dimensional transform, in place.
fn transform<T: Number>(data: &mut [num_complex::Complex<T>], rows: usize, cols: usize, back: bool) {
    let mut planner = FftPlanner::<T>::new();
    let (along_rows, along_cols) = if back {
        (planner.plan_fft_inverse(cols), planner.plan_fft_inverse(rows))
    } else {
        (planner.plan_fft_forward(cols), planner.plan_fft_forward(rows))
    };
    for row in data.chunks_mut(cols) {
        along_rows.process(row);
    }
    for c in 0..cols {
        let mut column: Vec<num_complex::Complex<T>> = (0..rows).map(|r| data[r * cols + c]).collect();
        along_cols.process(&mut column);
        for r in 0..rows {
            data[r * cols + c] = column[r];
        }
    }
}

fn fft2d<T: Number>(image: &Grid<Real<T>>) -> Grid<Complex<Real<T>>> {
    let (rows, cols) = image.dim();
    let mut data: Vec<num_complex::Complex<T>> = image
        .as_vec()
        .iter()
        .map(|x| num_complex::Complex::new(x.0, number(0.0)))
        .collect();
    transform(&mut data, rows, cols, false);
    let entries = data.iter().map(|z| Complex { re: Real(z.re), im: Real(z.im) }).collect();
    Grid::from_shape_vec(rows, cols, entries).unwrap()
}

fn ifft2d<T: Number>(spectrum: &Grid<Complex<Real<T>>>) -> Grid<Real<T>> {
    let (rows, cols) = spectrum.dim();
    let mut data: Vec<num_complex::Complex<T>> = spectrum
        .as_vec()
        .iter()
        .map(|z| num_complex::Complex::new(z.re.0, z.im.0))
        .collect();
    transform(&mut data, rows, cols, true);
    let n: T = number((rows * cols) as f64);
    let pixels = data.iter().map(|z| Real(z.re / n)).collect();
    Grid::from_shape_vec(rows, cols, pixels).unwrap()
}

/// Standard deviation from the median absolute deviation.
fn estimate_robust_sigma<T: Number>(samples: &Vec<Real<T>>) -> Real<T> {
    let median = |mut values: Vec<f64>| -> f64 {
        values.sort_by(|a, b| a.partial_cmp(b).unwrap());
        let n = values.len();
        if n % 2 == 1 {
            values[n / 2]
        } else {
            0.5 * (values[n / 2 - 1] + values[n / 2])
        }
    };
    let values: Vec<f64> = samples.iter().map(|x| x.0.to_f64().unwrap()).collect();
    let center = median(values.clone());
    let spread = median(values.iter().map(|x| (x - center).abs()).collect());
    Real(number(spread / 0.674489750196082))
}

/// The filter with groups of a single patch: every patch is shrunk in the Fourier domain, and
/// overlapping patches are averaged.
fn shrink_patches<T: Number>(
    noisy: &Grid<Real<T>>,
    pilot: &Grid<Real<T>>,
    mode: Bm3dMode,
    _streak_psd: &Grid<Real<T>>,
    _streak_map: &Grid<Real<T>>,
    sigmas: Option<&Grid<Real<T>>>,
    config: &Bm3dKernelConfig<Real<T>>,
) -> Result<Grid<Real<T>>, String> {
    let sigmas = sigmas.unwrap();
    let (rows, cols) = noisy.dim();
    let size = config.patch_size;
    let patch_of = |image: &Grid<Real<T>>, top: usize, left: usize| -> Vec<num_complex::Complex<T>> {
        let mut data = Vec::new();
        for r in 0..size {
            for c in 0..size {
                data.push(num_complex::Complex::new(image.get(top + r, left + c).0, number(0.0)));
            }
        }
        transform(&mut data, size, size, false);
        data
    };
    let starts = |len: usize| -> Vec<usize> {
        let mut list: Vec<usize> = (0..=len - size).step_by(config.step_size).collect();
        if *list.last().unwrap() != len - size {
            list.push(len - size);
        }
        list
    };
    let n: T = number((size * size) as f64);
    let mut sum: Vec<T> = vec![number(0.0); rows * cols];
    let mut count: Vec<T> = vec![number(0.0); rows * cols];
    for top in starts(rows) {
        for left in starts(cols) {
            let mut data = patch_of(noisy, top, left);
            let guide = patch_of(pilot, top, left);
            for k in 1..size * size {
                let sigma = sigmas.get(k / size, k % size).0;
                let variance = n * sigma * sigma;
                let keep: T = match mode {
                    Bm3dMode::HardThreshold => {
                        let bound = config.threshold.0 * config.threshold.0 * variance;
                        if data[k].norm_sqr() > bound {
                            number(1.0)
                        } else {
                            number(0.0)
                        }
                    }
                    Bm3dMode::Wiener => guide[k].norm_sqr() / (guide[k].norm_sqr() + variance),
                };
                data[k] = data[k] * keep;
            }
            transform(&mut data, size, size, true);
            for r in 0..size {
                for c in 0..size {
                    let at = (top + r) * cols + left + c;
                    sum[at] = sum[at] + data[r * size + c].re / n;
                    count[at] = count[at] + number(1.0);
                }
            }
        }
    }
    let pixels = sum.iter().zip(count.iter()).map(|(s, k)| Real(*s / *k)).collect();
    Ok(Grid::from_shape_vec(rows, cols, pixels).unwrap())
}

fn grid<T: Number>(rows: usize, cols: usize, values: &[f64]) -> Grid<Real<T>> {
    let cells = values.iter().map(|x| Real(number(*x))).collect();
    Grid::from_shape_vec(rows, cols, cells).unwrap()
}

fn grid_from<T: Number, G: Fn(usize, usize) -> T>(rows: usize, cols: usize, f: G) -> Grid<Real<T>> {
    Grid::from_shape_fn(rows, cols, &|r: usize, c: usize| Real(f(r, c)))
}

type Scalars<T> = Grid<Real<T>>;

type Spectrum<T> = Grid<Complex<Real<T>>>;

type Step<T> = fn(
    &Scalars<T>,
    &Scalars<T>,
    Bm3dMode,
    &Scalars<T>,
    &Scalars<T>,
    Option<&Scalars<T>>,
    &Bm3dKernelConfig<Real<T>>,
) -> Result<Scalars<T>, String>;

type Parts<T> = Operations<
    fn(&Scalars<T>) -> Spectrum<T>,
    fn(&Spectrum<T>) -> Scalars<T>,
    Step<T>,
    fn(&Vec<Real<T>>) -> Real<T>,
>;

fn operations_with<T: Number>(step: Step<T>) -> Parts<T> {
    Operations {
        fft2d: fft2d::<T>,
        ifft2d: ifft2d::<T>,
        run_bm3d_step_colored_noise: step,
        estimate_robust_sigma: estimate_robust_sigma::<T>,
    }
}

fn operations<T: Number>() -> Parts<T> {
    operations_with(shrink_patches::<T>)
}

type Gray = Grid<Real<f32>>;

fn test_config() -> Bm3dDeblurConfig<Real<f32>> {
    Bm3dDeblurConfig {
        patch_size: 8,
        step_size: 4,
        search_window: 16,
        max_matches: 8,
        ..Default::default()
    }
}

/// Piecewise-constant phantom with a smooth gradient background.
fn phantom(rows: usize, cols: usize) -> Gray {
    grid_from(rows, cols, |r, c| {
        let mut value = 0.2 + 0.3 * (c as f32 / cols as f32);
        if r > rows / 4 && r < 3 * rows / 4 && c > cols / 4 && c < 3 * cols / 4 {
            value += 0.4;
        }
        if r > rows / 2 && c > cols / 2 {
            value -= 0.2;
        }
        value
    })
}

fn mse(a: &Gray, b: &Gray) -> f32 {
    let n = a.as_vec().len() as f32;
    a.as_vec()
        .iter()
        .zip(b.as_vec().iter())
        .map(|(x, y)| (x.0 - y.0) * (x.0 - y.0))
        .sum::<f32>()
        / n
}

fn with_noise(image: &Gray, rng: &mut StdRng, normal: &Normal<f32>) -> Gray {
    let (rows, cols) = image.dim();
    let pixels = image.as_vec().iter().map(|x| Real(x.0 + normal.sample(rng))).collect();
    Grid::from_shape_vec(rows, cols, pixels).unwrap()
}

fn sum_of<T: Number + std::iter::Sum<T>>(image: &Grid<Real<T>>) -> T {
    image.as_vec().iter().map(|x| x.0).sum::<T>()
}

fn mean_level(image: &Gray) -> f32 {
    sum_of(image) / image.as_vec().len() as f32
}

#[test]
fn test_gaussian_psf_normalized() {
    let psf = gaussian_psf(Real(1.5f64), Real(2.5f64));
    let sum: f64 = sum_of(&psf);
    assert!((sum - 1.0).abs() < 1e-12, "PSF sum was {}", sum);
    // 4-sigma truncation on both axes
    assert_eq!(psf.dim(), (13, 21));
}

#[test]
fn test_boxcar_and_horizontal_psf() {
    let box_psf = boxcar_psf::<Real<f32>>(3, 3);
    assert_eq!(box_psf.dim(), (3, 3));
    assert!((sum_of::<f32>(&box_psf) - 1.0).abs() < 1e-6);

    let horizontal = horizontal_gaussian_psf(Real(1.0f32));
    assert_eq!(horizontal.dim().0, 1);
    assert!((sum_of::<f32>(&horizontal) - 1.0).abs() < 1e-6);
}

#[test]
fn test_normalize_psf_rejects_zero_sum() {
    let psf: Gray = grid(3, 3, &[0.0; 9]);
    assert!(normalize_psf(&psf).is_err());
    let empty: Gray = grid(0, 3, &[]);
    assert!(normalize_psf(&empty).is_err());
}

#[test]
fn test_delta_psf_is_identity_transfer() {
    let psf: Grid<Real<f64>> = grid(1, 1, &[1.0]);
    let transfer = psf_transfer_function(&psf, 16, 16, &fft2d::<f64>);
    assert_eq!(transfer.dim(), (16, 16));
    for value in transfer.as_vec().iter() {
        assert!((value.re.0 - 1.0).abs() < 1e-9);
        assert!(value.im.0.abs() < 1e-9);
    }
}

#[test]
fn test_patch_noise_sigma_white_noise() {
    // A flat PSD of sigma^2 must map to a flat sigma map.
    let (rows, cols) = (32, 32);
    let sigma = 0.05f64;
    let psd = grid_from(rows, cols, |_, _| sigma * sigma);

    let coeff_sigma = patch_noise_sigma(&psd, 8, &fft2d::<f64>, &ifft2d::<f64>);
    assert_eq!(coeff_sigma.dim(), (8, 8));
    for value in coeff_sigma.as_vec().iter() {
        assert!(
            (value.0 - sigma).abs() < 1e-9,
            "expected {}, got {}",
            sigma,
            value.0
        );
    }
}

#[test]
fn test_patch_noise_sigma_lowpass_is_anisotropic() {
    // Noise that only lives at low vertical frequencies must give larger sigmas for
    // the low-frequency coefficients than for the high-frequency ones.
    let (rows, cols) = (32, 32);
    let psd = grid_from(rows, cols, |r, _| {
        let dist = r.min(rows - r) as f64;
        (-0.5 * (dist / 2.0) * (dist / 2.0)).exp()
    });
    let coeff_sigma = patch_noise_sigma(&psd, 8, &fft2d::<f64>, &ifft2d::<f64>);

    assert!(coeff_sigma.get(0, 0).0 > coeff_sigma.get(4, 0).0);
    assert!(coeff_sigma.get(0, 0).0 > 0.0);
    for value in coeff_sigma.as_vec().iter() {
        assert!(value.0.is_finite() && value.0 >= 0.0);
    }
}

#[test]
fn test_estimate_white_noise_sigma() {
    let (rows, cols) = (128, 128);
    let sigma_true = 0.03f32;
    let mut rng = StdRng::seed_from_u64(7);
    let normal = Normal::new(0.0f32, sigma_true).unwrap();

    let clean = phantom(rows, cols);
    let noisy = with_noise(&clean, &mut rng, &normal);

    let estimated = estimate_white_noise_sigma(&noisy, &estimate_robust_sigma::<f32>).0;
    let error = (estimated - sigma_true).abs() / sigma_true;
    assert!(
        error < 0.20,
        "sigma estimate {} vs {}",
        estimated,
        sigma_true
    );
}

#[test]
fn test_blur_with_psf_preserves_mean() {
    let image = phantom(64, 64);
    let psf = gaussian_psf(Real(1.5f32), Real(1.5f32));
    let blurred = blur_with_psf(&image, &psf);

    let mean_before = mean_level(&image);
    let mean_after = mean_level(&blurred);
    assert!((mean_before - mean_after).abs() < 5e-3);
}

#[test]
fn test_deblur_improves_mse() {
    let (rows, cols) = (96, 96);
    let clean = phantom(rows, cols);
    let psf = gaussian_psf(Real(1.2f32), Real(1.2f32));
    let blurred = blur_with_psf(&clean, &psf);

    let sigma_true = 0.01f32;
    let mut rng = StdRng::seed_from_u64(1234);
    let normal = Normal::new(0.0f32, sigma_true).unwrap();
    let observed = with_noise(&blurred, &mut rng, &normal);

    let mut config = test_config();
    config.sigma = Real(sigma_true);

    let restored = bm3d_deblur(&observed, &psf, &config, &operations::<f32>()).unwrap();
    assert_eq!(restored.dim(), (rows, cols));

    let mse_observed = mse(&observed, &clean);
    let mse_restored = mse(&restored, &clean);
    assert!(
        mse_restored < mse_observed,
        "deblurring did not improve MSE: {} -> {}",
        mse_observed,
        mse_restored
    );
    assert!(restored.as_vec().iter().all(|x| x.0.is_finite()));
}

#[test]
fn test_deblur_auto_sigma_and_detailed_output() {
    let (rows, cols) = (64, 64);
    let clean = phantom(rows, cols);
    let psf = gaussian_psf(Real(1.0f32), Real(1.0f32));
    let blurred = blur_with_psf(&clean, &psf);

    let sigma_true = 0.02f32;
    let mut rng = StdRng::seed_from_u64(99);
    let normal = Normal::new(0.0f32, sigma_true).unwrap();
    let observed = with_noise(&blurred, &mut rng, &normal);

    let config = test_config(); // sigma = 0.0 -> auto estimation
    let result = bm3d_deblur_detailed(&observed, &psf, &config, &operations::<f32>()).unwrap();

    assert_eq!(result.estimate.dim(), (rows, cols));
    assert_eq!(result.estimate_ri.dim(), (rows, cols));
    let error = (result.sigma.0 - sigma_true).abs() / sigma_true;
    assert!(
        error < 0.35,
        "auto sigma {} vs {}",
        result.sigma.0,
        sigma_true
    );
}

#[test]
fn test_deblur_delta_psf_preserves_level() {
    // With a delta PSF, deblurring degenerates to plain (colored-noise) denoising.
    let (rows, cols) = (64, 64);
    let clean = phantom(rows, cols);
    let sigma_true = 0.02f32;
    let mut rng = StdRng::seed_from_u64(5);
    let normal = Normal::new(0.0f32, sigma_true).unwrap();
    let observed = with_noise(&clean, &mut rng, &normal);

    let psf: Gray = grid(1, 1, &[1.0]);

    let mut config = test_config();
    config.sigma = Real(sigma_true);
    let restored = bm3d_deblur(&observed, &psf, &config, &operations::<f32>()).unwrap();

    let mse_observed = mse(&observed, &clean);
    let mse_restored = mse(&restored, &clean);
    assert!(
        mse_restored < mse_observed,
        "denoising did not improve MSE: {} -> {}",
        mse_observed,
        mse_restored
    );
}

#[test]
fn test_deblur_no_wiener_stage() {
    let (rows, cols) = (48, 48);
    let clean = phantom(rows, cols);
    let psf = gaussian_psf(Real(1.0f32), Real(1.0f32));
    let observed = blur_with_psf(&clean, &psf);

    let mut config = test_config();
    config.sigma = Real(0.01);
    config.wiener_stage = false;

    let result = bm3d_deblur_detailed(&observed, &psf, &config, &operations::<f32>()).unwrap();
    assert_eq!(result.estimate.dim(), (rows, cols));
    // Without the second stage both outputs are the stage-1 estimate.
    assert_eq!(result.estimate.as_vec(), result.estimate_ri.as_vec());
}

#[test]
fn test_heavy_regularization_decays_to_mean_not_minimum() {
    // Regression test: with a noise level comparable to the whole data range the
    // inversion collapses. The output must then fall back to the image mean. Falling
    // back to the minimum instead would, for a chroma channel, read as a hue shift.
    let (rows, cols) = (48, 48);
    let image: Gray = grid_from(rows, cols, |r, c| {
        // Offset range: min is far from zero and far from the mean.
        -0.4 + 0.5 * ((r + c) as f32 / (rows + cols) as f32)
    });
    let mean = mean_level(&image);
    let min = image.as_vec().iter().map(|x| x.0).fold(f32::INFINITY, f32::min);

    let psf = gaussian_psf(Real(1.5f32), Real(1.5f32));
    let mut config = test_config();
    config.sigma = Real(10.0); // absurd relative to the data range

    let restored = bm3d_deblur(&image, &psf, &config, &operations::<f32>()).unwrap();
    let restored_mean = mean_level(&restored);

    assert!(
        (restored_mean - mean).abs() < 0.05,
        "expected decay towards the mean {}, got {}",
        mean,
        restored_mean
    );
    assert!(
        (restored_mean - min).abs() > 0.1,
        "output collapsed towards the minimum {}",
        min
    );
}

#[test]
fn test_deblur_stack() {
    let (n, rows, cols) = (3, 48, 48);
    let clean = phantom(rows, cols);
    let psf = gaussian_psf(Real(1.0f32), Real(1.0f32));
    let blurred = blur_with_psf(&clean, &psf);

    let mut rng = StdRng::seed_from_u64(31);
    let normal = Normal::new(0.0f32, 0.01f32).unwrap();
    let mut stack = Stack::new(rows, cols);
    for _ in 0..n {
        stack = stack.with_slice(with_noise(&blurred, &mut rng, &normal));
    }

    let mut config = test_config();
    config.sigma = Real(0.01);

    let seen = std::cell::Cell::new(0usize);
    let progress = |done: usize, total: usize| -> Result<(), String> {
        assert_eq!(total, n);
        assert_eq!(done, seen.get() + 1);
        seen.set(done);
        Ok(())
    };
    let restored = bm3d_deblur_stack(&stack, &psf, &config, &operations::<f32>(), Some(&progress))
        .expect("stack deblurring failed");

    assert_eq!(seen.get(), n);
    assert_eq!(restored.dim(), (n, rows, cols));
    for i in 0..n {
        assert!(restored.slice(i).as_vec().iter().all(|x| x.0.is_finite()));
    }
}

#[test]
fn test_invalid_inputs_are_rejected() {
    let image: Gray = grid(4, 4, &[0.0; 16]);
    let psf = gaussian_psf(Real(1.0f32), Real(1.0f32));
    let config = test_config();
    // Image smaller than patch_size
    assert!(bm3d_deblur(&image, &psf, &config, &operations::<f32>()).is_err());

    let image: Gray = grid(32, 32, &[0.0; 1024]);
    let mut bad_config = test_config();
    bad_config.step_size = 0;
    assert!(bm3d_deblur(&image, &psf, &bad_config, &operations::<f32>()).is_err());
}

#[test]
fn test_f64_support() {
    let (rows, cols) = (48, 48);
    let clean: Grid<Real<f64>> = grid_from(rows, cols, |r, c| {
        if r > 12 && r < 36 && c > 12 && c < 36 {
            1.0
        } else {
            0.0
        }
    });
    let psf = gaussian_psf(Real(1.0f64), Real(1.0f64));
    let observed = blur_with_psf(&clean, &psf);

    let config = Bm3dDeblurConfig::<Real<f64>> {
        sigma: Real(1e-3),
        patch_size: 8,
        step_size: 4,
        search_window: 16,
        max_matches: 8,
        ..Default::default()
    };
    let restored = bm3d_deblur(&observed, &psf, &config, &operations::<f64>()).unwrap();
    assert_eq!(restored.dim(), (rows, cols));
    assert!(restored.as_vec().iter().all(|x| x.0.is_finite()));
}

fn scalar(x: f64) -> Real<f64> {
    Real(x)
}

fn image64(rows: usize, cols: usize, values: &[f64]) -> Grid<Real<f64>> {
    grid(rows, cols, values)
}

fn values(image: &Grid<Real<f64>>) -> Vec<f64> {
    image.as_vec().iter().map(|x| x.0).collect()
}

fn assert_close(a: &[f64], b: &[f64], tolerance: f64) {
    assert_eq!(a.len(), b.len());
    for (x, y) in a.iter().zip(b.iter()) {
        assert!((x - y).abs() <= tolerance, "{} is not {}", x, y);
    }
}

fn ramp(rows: usize, cols: usize) -> Grid<Real<f64>> {
    grid_from(rows, cols, |r, c| ((7 * r + 3 * c * c + r * c) % 16) as f64 / 16.0)
}

/// A filter that hands the noisy image back.
fn keep_noisy(
    noisy: &Grid<Real<f64>>,
    _pilot: &Grid<Real<f64>>,
    _mode: Bm3dMode,
    _streak_psd: &Grid<Real<f64>>,
    _streak_map: &Grid<Real<f64>>,
    _sigmas: Option<&Grid<Real<f64>>>,
    _config: &Bm3dKernelConfig<Real<f64>>,
) -> Result<Grid<Real<f64>>, String> {
    Ok(noisy.clone())
}

fn small_config() -> Bm3dDeblurConfig<Real<f64>> {
    Bm3dDeblurConfig {
        sigma: scalar(0.125),
        patch_size: 4,
        step_size: 2,
        search_window: 8,
        max_matches: 4,
        ..Default::default()
    }
}

#[test]
fn default_settings_are_as_documented() {
    let config = Bm3dDeblurConfig::<Real<f64>>::new();
    assert_eq!(config.sigma.0, 0.0);
    assert_eq!(config.reg_ri.0, 1.0);
    assert_eq!(config.reg_rwi.0, 5e-3);
    assert_eq!(config.threshold.0, 2.7);
    assert_eq!(config.patch_size, 8);
    assert_eq!(config.step_size, 4);
    assert_eq!(config.search_window, 24);
    assert_eq!(config.max_matches, 16);
    assert!(config.wiener_stage);
    assert_eq!(config.boundary, DeblurBoundary::Reflect);
    assert!(config.normalize);
    assert_eq!(DeblurBoundary::default(), DeblurBoundary::Reflect);
    assert!(config.validate().is_ok());
}

#[test]
fn every_setting_out_of_range_has_its_message() {
    let message = |change: fn(&mut Bm3dDeblurConfig<Real<f64>>)| -> String {
        let mut config = Bm3dDeblurConfig::<Real<f64>>::new();
        change(&mut config);
        config.validate().unwrap_err()
    };
    assert_eq!(message(|c| c.patch_size = 0), "patch_size must be > 0");
    assert_eq!(message(|c| c.step_size = 0), "step_size must be > 0");
    assert_eq!(message(|c| c.search_window = 0), "search_window must be > 0");
    assert_eq!(message(|c| c.max_matches = 0), "max_matches must be > 0");
    assert_eq!(message(|c| c.threshold = Real(-0.5)), "threshold must be >= 0");
    assert_eq!(message(|c| c.reg_ri = Real(0.0)), "reg_ri must be > 0");
    assert_eq!(message(|c| c.reg_rwi = Real(-1.0)), "reg_rwi must be > 0");
    // The first rule that is broken decides.
    let both = message(|c| {
        c.reg_rwi = Real(0.0);
        c.step_size = 0;
    });
    assert_eq!(both, "step_size must be > 0");
    let mut edge = Bm3dDeblurConfig::<Real<f64>>::new();
    edge.threshold = Real(0.0);
    edge.sigma = Real(-3.0);
    assert!(edge.validate().is_ok());
}

#[test]
fn requests_are_turned_down_in_order() {
    let ops = operations::<f64>();
    let image = ramp(4, 17);
    let nothing = image64(0, 3, &[]);
    let balanced = image64(1, 2, &[0.5, -0.5]);
    let mut config = Bm3dDeblurConfig::<Real<f64>>::new();
    assert_eq!(
        bm3d_deblur(&image, &nothing, &config, &ops).unwrap_err(),
        "Image size (4, 17) is smaller than patch_size 8"
    );
    config.max_matches = 0;
    assert_eq!(
        bm3d_deblur(&image, &nothing, &config, &ops).unwrap_err(),
        "max_matches must be > 0"
    );
    config.max_matches = 1;
    config.patch_size = 4;
    assert_eq!(
        bm3d_deblur_detailed(&image, &nothing, &config, &ops).unwrap_err(),
        "PSF must not be empty"
    );
    assert_eq!(
        bm3d_deblur(&image, &balanced, &config, &ops).unwrap_err(),
        "PSF sum must be non-zero"
    );
    let stack = Stack::new(4, 17);
    let quiet = None::<&fn(usize, usize) -> Result<(), String>>;
    assert_eq!(
        bm3d_deblur_stack(&stack, &balanced, &config, &ops, quiet).unwrap_err(),
        "PSF sum must be non-zero"
    );
    config.patch_size = 5;
    assert_eq!(
        bm3d_deblur_stack(&stack, &balanced, &config, &ops, quiet).unwrap_err(),
        "Image size (4, 17) is smaller than patch_size 5"
    );
}

#[test]
fn requests_know_their_padded_shape() {
    let psf = boxcar_psf(3, 41);
    let mut config = Bm3dDeblurConfig::<Real<f64>>::new();
    assert_eq!(request_shape(96, 95, &psf, &config), Ok(Some((112, 140))));
    assert_eq!(request_shape(MAX_CELLS, 95, &psf, &config), Ok(None));
    assert_eq!(
        request_shape(7, 95, &psf, &config),
        Err("Image size (7, 95) is smaller than patch_size 8".to_string())
    );
    config.boundary = DeblurBoundary::Circular;
    assert_eq!(request_shape(96, 95, &psf, &config), Ok(Some((96, 95))));
}

#[test]
fn a_normalized_psf_sums_to_one() {
    let psf = image64(2, 2, &[1.0, 2.0, 4.0, 1.0]);
    let unit = normalize_psf(&psf).unwrap();
    assert_eq!(values(&unit), vec![0.125, 0.25, 0.5, 0.125]);
    assert_eq!(unit.sum().0, 1.0);
    let negative = normalize_psf(&image64(1, 2, &[-3.0, -1.0])).unwrap();
    assert_eq!(values(&negative), vec![0.75, 0.25]);
    let tiny = normalize_psf(&image64(1, 1, &[1e-12])).unwrap_err();
    assert_eq!(tiny, "PSF sum must be non-zero");
    assert_eq!(values(&normalize_psf(&image64(1, 1, &[2e-12])).unwrap()), vec![1.0]);
}

#[test]
fn gaussian_kernels_are_truncated_and_normalized() {
    assert_eq!(gaussian_radius(scalar(1.5)), 6);
    assert_eq!(gaussian_radius(scalar(0.01)), 1);
    assert_eq!(gaussian_kernel_1d(scalar(0.0)), vec![scalar(1.0)]);
    assert_eq!(gaussian_kernel_1d(scalar(-2.0)), vec![scalar(1.0)]);
    let kernel = gaussian_kernel_1d(scalar(0.25));
    let side = (-0.5f64 * 4.0 * 4.0).exp();
    let sum = side + 1.0 + side;
    assert_eq!(kernel, vec![scalar(side / sum), scalar(1.0 / sum), scalar(side / sum)]);
    let psf = gaussian_psf(scalar(0.0), scalar(0.25));
    assert_eq!(psf.dim(), (1, 3));
    assert_eq!(psf.as_vec(), horizontal_gaussian_psf(scalar(0.25)).as_vec());
    assert!((sum_of(&gaussian_psf(scalar(0.8), scalar(3.3))) - 1.0).abs() < 1e-12);
}

#[test]
fn oversized_kernels_are_not_made() {
    assert!(checked_gaussian_psf(scalar(1e30), scalar(1.0)).is_none());
    assert!(checked_horizontal_gaussian_psf(scalar(f64::INFINITY)).is_none());
    assert_eq!(checked_gaussian_psf(scalar(1.0), scalar(0.5)).unwrap().dim(), (9, 5));
    assert_eq!(checked_horizontal_gaussian_psf(scalar(1.0)).unwrap().dim(), (1, 9));
}

#[test]
fn boxes_are_uniform() {
    assert_eq!(values(&boxcar_psf(1, 4)), vec![0.25; 4]);
    assert_eq!(boxcar_psf::<Real<f64>>(0, 2).dim(), (1, 2));
    assert_eq!(boxcar_psf::<Real<f64>>(2, 4).sum().0, 1.0);
}

#[test]
fn blur_follows_its_formula() {
    let image = image64(1, 4, &[1.0, 2.0, 4.0, 8.0]);
    // The centre of three entries is the second one, that of two entries as well.
    let three = image64(1, 3, &[0.5, 0.25, 0.125]);
    assert_eq!(
        values(&blur_with_psf(&image, &three)),
        vec![
            0.5 * 2.0 + 0.25 * 1.0 + 0.125 * 2.0,
            0.5 * 4.0 + 0.25 * 2.0 + 0.125 * 1.0,
            0.5 * 8.0 + 0.25 * 4.0 + 0.125 * 2.0,
            0.5 * 4.0 + 0.25 * 8.0 + 0.125 * 4.0,
        ]
    );
    let two = image64(1, 2, &[1.0, 0.0]);
    assert_eq!(values(&blur_with_psf(&image, &two)), vec![2.0, 4.0, 8.0, 4.0]);
    let column = image64(2, 1, &[0.0, 1.0]);
    assert_eq!(values(&blur_with_psf(&image, &column)), values(&image));
    let empty = image64(0, 2, &[]);
    assert_eq!(values(&blur_with_psf(&image, &empty)), values(&image));
    assert_eq!(blur_with_psf(&empty, &three).dim(), (0, 2));
}

#[test]
fn blur_commutes_with_a_change_of_levels() {
    let image = ramp(6, 5);
    let psf = boxcar_psf(2, 4);
    let change = |x: f64| 4.0 * x - 0.5;
    let before = grid_from(6, 5, |r, c| change(image.get(r, c).0));
    let blurred = blur_with_psf(&image, &psf);
    let after: Vec<f64> = values(&blurred).iter().map(|x| change(*x)).collect();
    assert_close(&values(&blur_with_psf(&before, &psf)), &after, 1e-12);
    let work = into_working_range(&image, scalar(0.25), scalar(0.5));
    let blurred_work = into_working_range(&blurred, scalar(0.25), scalar(0.5));
    assert_close(&values(&blur_with_psf(&work, &psf)), &values(&blurred_work), 1e-12);
    let flat = grid_from(3, 4, |_, _| 0.75);
    assert_eq!(values(&blur_with_psf(&flat, &psf)), vec![0.75; 12]);
}

#[test]
fn noise_samples_are_haar_details() {
    let image = image64(3, 3, &[1.0, 2.0, 4.0, 3.0, 8.0, 5.0, 6.0, 7.0, 9.0]);
    let samples: Vec<f64> = haar_detail_samples(&image).iter().map(|x| x.0).collect();
    assert_eq!(
        samples,
        vec![
            0.5 * (1.0 - 2.0 - 3.0 + 8.0),
            0.5 * (2.0 - 4.0 - 8.0 + 5.0),
            0.5 * (3.0 - 8.0 - 6.0 + 7.0),
            0.5 * (8.0 - 5.0 - 7.0 + 9.0),
        ]
    );
    let spread = |samples: &Vec<Real<f64>>| -> Real<f64> { Real(samples.len() as f64) };
    assert_eq!(estimate_white_noise_sigma(&image, &spread).0, 4.0);
    assert_eq!(estimate_white_noise_sigma(&image64(1, 3, &[1.0, 5.0, 2.0]), &spread).0, 0.0);
    assert_eq!(estimate_white_noise_sigma(&image64(0, 0, &[]), &spread).0, 0.0);
}

#[test]
fn noise_samples_ignore_row_and_column_profiles() {
    let image = ramp(5, 6);
    let shaded = grid_from(5, 6, |r, c| image.get(r, c).0 + (r * r) as f64 + 0.5 * c as f64);
    assert_eq!(haar_detail_samples(&image), haar_detail_samples(&shaded));
    let flat = grid_from(4, 4, |r, c| 3.0 + r as f64 - 2.0 * c as f64);
    assert!(haar_detail_samples(&flat).iter().all(|x| x.0 == 0.0));
}

#[test]
fn noise_samples_are_thinned_evenly() {
    let (rows, cols) = (1002, 1001);
    let image: Grid<Real<f32>> = grid_from(rows, cols, |r, c| ((r * r + 3 * c * r) % 101) as f32);
    let samples = haar_detail_samples(&image);
    // 1001 * 1000 blocks are too many, so every other one is taken.
    assert_eq!(samples.len(), 500_500);
    assert!(samples.len() <= MAX_SIGMA_SAMPLES);
    let detail = |r: usize, c: usize| -> f32 {
        (image.get(r, c).0 - image.get(r, c + 1).0 - image.get(r + 1, c).0
            + image.get(r + 1, c + 1).0)
            * 0.5
    };
    assert_eq!(samples[0].0, detail(0, 0));
    assert_eq!(samples[1].0, detail(0, 2));
    assert_eq!(samples[500].0, detail(1, 0));
    let all: Grid<Real<f32>> = grid_from(1001, 1001, |r, c| ((r + 5 * c) % 7) as f32);
    assert_eq!(haar_detail_samples(&all).len(), 1_000_000);
}

#[test]
fn levels_are_measured() {
    let image = image64(2, 2, &[1.0, 3.0, 5.0, 7.0]);
    let (mean, variance) = mean_and_variance(&image);
    assert_eq!((mean.0, variance.0), (4.0, 5.0));
    let (mean, variance) = mean_and_variance(&image64(3, 0, &[]));
    assert_eq!((mean.0, variance.0), (0.0, 0.0));
    // Moments follow the scale of the image.
    let (mean, variance) = mean_and_variance(&image64(2, 2, &[4.0, 12.0, 20.0, 28.0]));
    assert_eq!((mean.0, variance.0), (16.0, 80.0));
}

#[test]
fn working_range_is_the_unit_interval() {
    let image = image64(1, 4, &[-2.0, 6.0, 0.0, 2.0]);
    let (offset, scale) = normalization_params(&image, true);
    assert_eq!((offset.0, scale.0), (-2.0, 8.0));
    let work = into_working_range(&image, offset, scale);
    assert_eq!(values(&work), vec![0.0, 1.0, 0.25, 0.5]);
    let back = crop_to_input_range(&work, 0, 0, 1, 4, offset, scale);
    assert_eq!(values(&back), values(&image));
    let (offset, scale) = normalization_params(&image, false);
    assert_eq!((offset.0, scale.0), (0.0, 1.0));
    let (offset, scale) = normalization_params(&image64(1, 2, &[3.0, 3.0]), true);
    assert_eq!((offset.0, scale.0), (3.0, 1.0));
    let (offset, scale) = normalization_params(&image64(1, 2, &[3.0, f64::INFINITY]), true);
    assert_eq!((offset.0, scale.0), (0.0, 1.0));
    let (offset, scale) = normalization_params(&image64(0, 2, &[]), true);
    assert_eq!((offset.0, scale.0), (0.0, 1.0));
}

#[test]
fn mean_removal_is_undone() {
    let image = image64(1, 3, &[0.5, 1.25, 4.0]);
    let lower = lower_by(&image, scalar(0.75));
    assert_eq!(values(&lower), vec![-0.25, 0.5, 3.25]);
    assert_eq!(values(&raise_by(&lower, scalar(0.75))), values(&image));
}

#[test]
fn padding_mirrors_and_cropping_undoes_it() {
    let image = image64(2, 3, &[1.0, 2.0, 3.0, 4.0, 5.0, 6.0]);
    let (top, left, large) = pad_for_deconvolution(&image, (1, 5), 2, DeblurBoundary::Reflect);
    assert_eq!((top, left), (2, 3));
    // 2 + 2 * 2 and 3 + 2 * 3 are fast lengths.
    assert_eq!(large.dim(), (6, 9));
    let first: Vec<f64> = (0..9).map(|c| large.get(2, c).0).collect();
    assert_eq!(first, vec![2.0, 3.0, 2.0, 1.0, 2.0, 3.0, 2.0, 1.0, 2.0]);
    let column: Vec<f64> = (0..6).map(|r| large.get(r, 3).0).collect();
    assert_eq!(column, vec![1.0, 4.0, 1.0, 4.0, 1.0, 4.0]);
    let back = crop_to_input_range(&large, top, left, 2, 3, scalar(10.0), scalar(2.0));
    assert_eq!(values(&back), vec![12.0, 14.0, 16.0, 18.0, 20.0, 22.0]);
    let (top, left, same) = pad_for_deconvolution(&image, (9, 9), 2, DeblurBoundary::Circular);
    assert_eq!((top, left), (0, 0));
    assert_eq!(values(&same), values(&image));
}

#[test]
fn padded_shapes_are_fast_or_refused() {
    assert_eq!(padded_shape(96, 96, (11, 11), 8, DeblurBoundary::Reflect), Some((112, 112)));
    assert_eq!(padded_shape(95, 200, (41, 1), 8, DeblurBoundary::Reflect), Some((140, 216)));
    assert_eq!(padded_shape(95, 200, (41, 1), 8, DeblurBoundary::Circular), Some((95, 200)));
    assert_eq!(padded_shape(MAX_CELLS, 2, (3, 3), 8, DeblurBoundary::Reflect), None);
    assert_eq!(padded_shape(8, 8, (3, 3), usize::MAX, DeblurBoundary::Reflect), None);
}

#[test]
fn grids_check_their_shape() {
    assert!(Grid::from_shape_vec(2, 2, vec![1u8, 2, 3]).is_none());
    assert!(Grid::from_shape_vec(usize::MAX, 2, vec![1u8]).is_none());
    let grid = Grid::from_shape_vec(2, 2, vec![1u8, 2, 3, 4]).unwrap();
    assert_eq!(grid.get(1, 0), 3);
    assert_eq!(grid.with_cell(0, 1, 9).as_vec(), &vec![1u8, 9, 3, 4]);
    assert_eq!(checked_cells(3, 5), Some(15));
    assert_eq!(checked_cells(MAX_CELLS, 2), None);
}

#[test]
fn psf_is_placed_around_the_first_cell() {
    let psf = image64(3, 2, &[1.0, 2.0, 3.0, 4.0, 5.0, 6.0]);
    let placed = place_psf(&psf, 4, 3);
    assert_eq!(
        values(&placed),
        vec![
            4.0, 0.0, 3.0, // centre
            6.0, 0.0, 5.0,
            0.0, 0.0, 0.0,
            2.0, 0.0, 1.0,
        ]
    );
    assert_eq!(placed.sum().0, psf.sum().0);
    // A PSF larger than the grid aliases.
    let wide = image64(1, 5, &[1.0, 2.0, 4.0, 8.0, 16.0]);
    assert_eq!(values(&place_psf(&wide, 1, 2)), vec![21.0, 10.0]);
    assert_eq!(values(&place_psf(&wide, 1, 1)), vec![31.0]);
}

#[test]
fn circular_model_agrees_with_mirrored_blur() {
    let image = ramp(6, 5);
    let psf = image64(3, 4, &[1.0, 2.0, 0.0, 1.0, 4.0, 3.0, 1.0, 0.0, 2.0, 1.0, 0.0, 1.0]);
    let (top, left, large) = pad_for_deconvolution(&image, (3, 4), 2, DeblurBoundary::Reflect);
    let (rows, cols) = large.dim();
    let placed = place_psf(&psf, rows, cols);
    let blurred = blur_with_psf(&image, &psf);
    let transfer = psf_transfer_function(&psf, rows, cols, &fft2d::<f64>);
    let filtered = ifft2d(&apply_filter(&fft2d(&large), &transfer));
    for i in 0..6 {
        for j in 0..5 {
            let mut sum = 0.0;
            for p in 0..rows {
                for q in 0..cols {
                    let r = (i + top + rows - p) % rows;
                    let c = (j + left + cols - q) % cols;
                    sum += placed.get(p, q).0 * large.get(r, c).0;
                }
            }
            assert_eq!(sum, blurred.get(i, j).0);
            assert!((filtered.get(i + top, j + left).0 - sum).abs() < 1e-9);
        }
    }
}

#[test]
fn autocorrelation_is_windowed_and_folded() {
    let acf = image64(3, 3, &[8.0, 4.0, 2.0, 1.0, 0.0, 0.0, 5.0, 0.0, 0.0]);
    // Lag 1 of a patch of two samples has weight one half, and lags -1 and 1 fall together.
    let folded = fold_autocorrelation(&acf, 2);
    assert_eq!(
        values(&folded),
        vec![8.0, 0.5 * 2.0 + 0.5 * 4.0, 0.5 * 5.0 + 0.5 * 1.0, 0.0]
    );
    let impulse = image64(4, 5, &[2.5; 1].iter().chain([0.0; 19].iter()).copied().collect::<Vec<f64>>());
    let mut expected = vec![0.0; 16];
    expected[0] = 2.5;
    assert_eq!(values(&fold_autocorrelation(&impulse, 4)), expected);
}

#[test]
fn coefficient_variances_are_bounded_from_below() {
    let entries = [4.0, 0.0, -1.0, 1e-9].map(|x| Complex { re: scalar(x), im: scalar(7.0) });
    let spectrum = Grid::from_shape_vec(2, 2, entries.to_vec()).unwrap();
    let sigmas = sigmas_of_variances(&spectrum);
    let floor = (4.0 + 0.0 - 1.0 + 1e-9) / 4.0 * 1e-6;
    assert_close(&values(&sigmas), &[2.0, floor.sqrt(), floor.sqrt(), floor.sqrt()], 1e-15);
    let nothing = Grid::from_shape_vec(1, 1, vec![Complex { re: scalar(0.0), im: scalar(0.0) }]).unwrap();
    assert_close(&values(&sigmas_of_variances(&nothing)), &[1e-12], 1e-24);
}

#[test]
fn first_regularization_follows_its_formula() {
    let reg = |reg_ri: f64, variance: f64, sigma_sq: f64| -> f64 {
        regularization_of_inverse(scalar(reg_ri), scalar(variance), scalar(sigma_sq)).0
    };
    assert_eq!(reg(2.0, 5.0, 1.0), 2.0 * 1.0 / 4.0);
    // Noise louder than the image leaves a twentieth of its variance.
    assert_eq!(reg(1.0, 2.0, 3.0), 3.0 / (2.0 * 0.05));
    assert_eq!(reg(1.0, 5.0, 0.0), 1e-8);
    assert_eq!(reg(1.0, 0.0, 1e-12), 1.0);
    // The scale of the data does not matter.
    assert_eq!(reg(2.0, 5.0 * 64.0, 1.0 * 64.0), reg(2.0, 5.0, 1.0));
    let v = Complex { re: scalar(3.0), im: scalar(4.0) };
    let transfer = Grid::from_shape_vec(1, 1, vec![v]).unwrap();
    let filter = regularized_inverse(&transfer, scalar(7.0));
    assert_eq!((filter.get(0, 0).re.0, filter.get(0, 0).im.0), (3.0 / 32.0, -4.0 / 32.0));
    assert_eq!(values(&noise_behind(&transfer, scalar(2.0))), vec![50.0]);
}

#[test]
fn wiener_inverse_follows_its_formula() {
    let v = Complex { re: scalar(3.0), im: scalar(-4.0) };
    let transfer = Grid::from_shape_vec(1, 2, vec![v, v]).unwrap();
    let pilot = Grid::from_shape_vec(
        1,
        2,
        vec![Complex { re: scalar(1.0), im: scalar(1.0) }, Complex { re: scalar(0.0), im: scalar(0.0) }],
    )
    .unwrap();
    let psd = power_spectrum(&pilot, scalar(0.5));
    assert_eq!(values(&psd), vec![1.0, 0.0]);
    let reg = regularization_of_wiener(scalar(0.5), scalar(14.0), &psd, scalar(0.5));
    assert_eq!(reg.0, 7.0);
    let filter = regularized_wiener_inverse(&transfer, &psd, reg);
    assert_eq!((filter.get(0, 0).re.0, filter.get(0, 0).im.0), (3.0 / 32.0, 4.0 / 32.0));
    assert_eq!((filter.get(0, 1).re.0, filter.get(0, 1).im.0), (0.0, 0.0));
    // Without noise the mean power of the signal keeps the denominator away from zero.
    let least = regularization_of_wiener(scalar(0.5), scalar(0.0), &psd, scalar(0.5));
    assert_eq!(least.0, 1e-8 * 0.5);
    // Where nothing is known of the signal, nothing is passed.
    let dark = image64(1, 2, &[0.0, 0.0]);
    let none = regularized_wiener_inverse(&transfer, &dark, scalar(0.0));
    assert_eq!((none.get(0, 0).re.0, none.get(0, 0).im.0), (0.0, 0.0));
    // A common factor of all powers does not matter.
    let louder = image64(1, 2, &[16.0, 0.0]);
    let reg_louder = regularization_of_wiener(scalar(0.5), scalar(14.0 * 16.0), &louder, scalar(0.5));
    let same = regularized_wiener_inverse(&transfer, &louder, reg_louder);
    assert_eq!((same.get(0, 0).re.0, same.get(0, 0).im.0), (3.0 / 32.0, 4.0 / 32.0));
}

#[test]
fn filtering_multiplies_spectra() {
    let a = Complex { re: scalar(1.0), im: scalar(2.0) };
    let b = Complex { re: scalar(3.0), im: scalar(-1.0) };
    let spectrum = Grid::from_shape_vec(1, 1, vec![a]).unwrap();
    let filter = Grid::from_shape_vec(1, 1, vec![b]).unwrap();
    let product = apply_filter(&spectrum, &filter).get(0, 0);
    assert_eq!((product.re.0, product.im.0), (5.0, 5.0));
}

#[test]
fn a_stage_hands_its_parts_to_the_filter() {
    // A single entry transfers all frequencies alike, so both inversions only scale the
    // centred image.
    let observed = grid_from(8, 8, |r, c| if (r + c) % 2 == 0 { 1.0 } else { 3.0 });
    let transfer = psf_transfer_function(&image64(1, 1, &[1.0]), 8, 8, &fft2d::<f64>);
    let config = small_config();
    let calls = std::cell::RefCell::new(Vec::new());
    let step = |noisy: &Grid<Real<f64>>,
                pilot: &Grid<Real<f64>>,
                mode: Bm3dMode,
                streak_psd: &Grid<Real<f64>>,
                streak_map: &Grid<Real<f64>>,
                sigmas: Option<&Grid<Real<f64>>>,
                kernel: &Bm3dKernelConfig<Real<f64>>|
     -> Result<Grid<Real<f64>>, String> {
        assert_eq!((streak_psd.dim(), streak_map.dim()), ((1, 1), (1, 1)));
        assert_eq!((streak_psd.get(0, 0).0, streak_map.get(0, 0).0), (0.0, 0.0));
        assert_eq!(kernel.sigma_random.0, 0.0);
        assert_eq!(kernel.patch_size, 4);
        assert_eq!(kernel.step_size, 2);
        assert_eq!(kernel.search_window, 8);
        assert_eq!(kernel.max_matches, 4);
        assert_eq!(kernel.use_hadamard_fast_path, Some(false));
        let level = sigmas.unwrap().get(0, 0).0;
        assert_eq!(sigmas.unwrap().dim(), (4, 4));
        if matches!(mode, Bm3dMode::HardThreshold) {
            for x in sigmas.unwrap().as_vec().iter() {
                assert!((x.0 - level).abs() < 1e-9);
            }
        }
        calls.borrow_mut().push((
            matches!(mode, Bm3dMode::Wiener),
            values(noisy),
            values(pilot),
            level,
            kernel.threshold.0,
        ));
        Ok(noisy.clone())
    };
    let ops = Operations {
        fft2d: fft2d::<f64>,
        ifft2d: ifft2d::<f64>,
        run_bm3d_step_colored_noise: step,
        estimate_robust_sigma: estimate_robust_sigma::<f64>,
    };
    let sigma = 0.5;
    let (estimate, first) = deblur_padded(&observed, scalar(sigma), &config, &transfer, &ops).unwrap();
    let calls = calls.borrow();
    assert_eq!(calls.len(), 2);
    // The image has mean 2 and variance 1.
    let lambda = sigma * sigma / 0.75;
    let gain = 1.0 / (1.0 + lambda);
    let levels = |swing: f64| -> Vec<f64> {
        values(&observed).iter().map(|x| 2.0 + swing * (x - 2.0)).collect()
    };
    assert!(!calls[0].0);
    assert_close(&calls[0].1, &levels(gain), 1e-9);
    assert_close(&calls[0].2, &levels(gain), 1e-9);
    assert!((calls[0].3 - sigma * gain).abs() < 1e-9);
    assert_eq!(calls[0].4, 2.7);
    assert_close(&values(&first), &levels(gain), 1e-9);
    // All power of the pilot lies at one frequency.
    let power = 64.0 * gain * gain;
    let second = power / (power + 5e-3 * sigma * sigma);
    assert!(calls[1].0);
    assert_close(&calls[1].1, &levels(second), 1e-9);
    assert_close(&calls[1].2, &levels(gain), 1e-9);
    assert_eq!(calls[1].4, 0.0);
    assert_close(&values(&estimate), &levels(second), 1e-9);
}

#[test]
fn noise_level_is_reported_in_input_units() {
    let image = grid_from(12, 9, |r, c| 10.0 * ((5 * r + c * c) % 8) as f64);
    let psf = boxcar_psf(1, 3);
    let ops = operations_with(keep_noisy);
    let mut config = small_config();
    config.sigma = scalar(0.875);
    let given = bm3d_deblur_detailed(&image, &psf, &config, &ops).unwrap();
    assert_eq!(given.sigma.0, 0.875);
    config.sigma = scalar(-1.0);
    let estimated = bm3d_deblur_detailed(&image, &psf, &config, &ops).unwrap();
    let (offset, scale) = normalization_params(&image, true);
    assert_eq!(scale.0, 70.0);
    let work = into_working_range(&image, offset, scale);
    let level = estimate_white_noise_sigma(&work, &estimate_robust_sigma::<f64>);
    assert_eq!(estimated.sigma.0, level.0 * 70.0);
    assert!(estimated.sigma.0 > 0.0);
}

#[test]
fn a_run_is_made_of_its_parts() {
    let image = ramp(9, 10);
    let psf = image64(1, 3, &[1.0, 2.0, 1.0]);
    let ops = operations::<f64>();
    for boundary in [DeblurBoundary::Reflect, DeblurBoundary::Circular] {
        let mut config = small_config();
        config.boundary = boundary;
        let result = bm3d_deblur_detailed(&image, &psf, &config, &ops).unwrap();
        let unit = normalize_psf(&psf).unwrap();
        let (offset, scale) = normalization_params(&image, true);
        let work = into_working_range(&image, offset, scale);
        let (top, left, large) = pad_for_deconvolution(&work, (1, 3), 4, boundary);
        let (rows, cols) = large.dim();
        let transfer = psf_transfer_function(&unit, rows, cols, &fft2d::<f64>);
        let sigma = scalar(0.125 / scale.0);
        let (estimate, first) = deblur_padded(&large, sigma, &config, &transfer, &ops).unwrap();
        let crop = |g: &Grid<Real<f64>>| crop_to_input_range(g, top, left, 9, 10, offset, scale);
        assert_eq!(values(&result.estimate), values(&crop(&estimate)));
        assert_eq!(values(&result.estimate_ri), values(&crop(&first)));
        let plain = bm3d_deblur(&image, &psf, &config, &ops).unwrap();
        assert_eq!(values(&plain), values(&result.estimate));
    }
}

#[test]
fn a_failing_filter_is_reported() {
    fn fail_first(
        _noisy: &Grid<Real<f64>>,
        _pilot: &Grid<Real<f64>>,
        mode: Bm3dMode,
        _streak_psd: &Grid<Real<f64>>,
        _streak_map: &Grid<Real<f64>>,
        _sigmas: Option<&Grid<Real<f64>>>,
        _config: &Bm3dKernelConfig<Real<f64>>,
    ) -> Result<Grid<Real<f64>>, String> {
        Err(format!("wiener: {}", matches!(mode, Bm3dMode::Wiener)))
    }
    fn fail_second(
        noisy: &Grid<Real<f64>>,
        _pilot: &Grid<Real<f64>>,
        mode: Bm3dMode,
        _streak_psd: &Grid<Real<f64>>,
        _streak_map: &Grid<Real<f64>>,
        _sigmas: Option<&Grid<Real<f64>>>,
        _config: &Bm3dKernelConfig<Real<f64>>,
    ) -> Result<Grid<Real<f64>>, String> {
        match mode {
            Bm3dMode::HardThreshold => Ok(noisy.clone()),
            Bm3dMode::Wiener => Err("out of patches".to_string()),
        }
    }
    let image = ramp(8, 8);
    let psf = boxcar_psf(1, 2);
    let mut config = small_config();
    let first = operations_with(fail_first);
    let second = operations_with(fail_second);
    assert_eq!(bm3d_deblur(&image, &psf, &config, &first).unwrap_err(), "wiener: false");
    assert_eq!(bm3d_deblur(&image, &psf, &config, &second).unwrap_err(), "out of patches");
    let stack = Stack::new(8, 8).with_slice(ramp(8, 8));
    let quiet = None::<&fn(usize, usize) -> Result<(), String>>;
    assert_eq!(
        bm3d_deblur_stack(&stack, &psf, &config, &second, quiet).unwrap_err(),
        "out of patches"
    );
    config.wiener_stage = false;
    assert!(bm3d_deblur(&image, &psf, &config, &second).is_ok());
}

#[test]
fn slices_are_deblurred_alone() {
    let psf = image64(3, 1, &[1.0, 2.0, 1.0]);
    let ops = operations::<f64>();
    let config = small_config();
    let slices = [ramp(9, 8), grid_from(9, 8, |r, c| (r * c) as f64), grid_from(9, 8, |_, _| 0.5)];
    let mut stack = Stack::new(9, 8);
    for slice in slices.iter() {
        stack = stack.with_slice(slice.clone());
    }
    let quiet = None::<&fn(usize, usize) -> Result<(), String>>;
    let restored = bm3d_deblur_stack(&stack, &psf, &config, &ops, quiet).unwrap();
    assert_eq!(restored.dim(), (3, 9, 8));
    for i in 0..3 {
        let alone = bm3d_deblur(&slices[i], &psf, &config, &ops).unwrap();
        assert_eq!(values(restored.slice(i)), values(&alone));
    }
}

#[test]
fn an_observer_can_stop_a_stack() {
    let psf = image64(1, 1, &[1.0]);
    let ops = operations_with(keep_noisy);
    let config = small_config();
    let stack = Stack::new(4, 4).with_slice(ramp(4, 4)).with_slice(ramp(4, 4)).with_slice(ramp(4, 4));
    let seen = std::cell::RefCell::new(Vec::new());
    let stop = |completed: usize, total: usize| -> Result<(), String> {
        seen.borrow_mut().push((completed, total));
        if completed == 2 {
            Err("cancelled".to_string())
        } else {
            Ok(())
        }
    };
    assert_eq!(
        bm3d_deblur_stack(&stack, &psf, &config, &ops, Some(&stop)).unwrap_err(),
        "cancelled"
    );
    assert_eq!(*seen.borrow(), vec![(1, 3), (2, 3)]);
    let none: Stack<Real<f64>> = Stack::new(4, 7);
    let restored = bm3d_deblur_stack(&none, &psf, &config, &ops, Some(&stop)).unwrap();
    assert_eq!(restored.dim(), (0, 4, 7));
    assert_eq!(seen.borrow().len(), 2);
}

#[test]
fn scale_of_the_data_does_not_matter() {
    let image = ramp(10, 9);
    let louder = grid_from(10, 9, |r, c| 256.0 * image.get(r, c).0);
    let psf = gaussian_psf(scalar(0.0), scalar(0.5));
    let ops = operations::<f64>();
    let mut config = small_config();
    config.normalize = false;
    let restored = bm3d_deblur(&image, &psf, &config, &ops).unwrap();
    config.sigma = scalar(0.125 * 256.0);
    let restored_louder = bm3d_deblur(&louder, &psf, &config, &ops).unwrap();
    let expected: Vec<f64> = values(&restored).iter().map(|x| 256.0 * x).collect();
    assert_close(&values(&restored_louder), &expected, 1e-6);
}

#[test]
fn lost_detail_leaves_the_mean() {
    // Noise far above the signal: the first inversion passes next to nothing.
    let image = ramp(8, 8);
    let psf = image64(1, 1, &[1.0]);
    let ops = operations_with(keep_noisy);
    let mut config = small_config();
    config.sigma = scalar(1e9);
    config.wiener_stage = false;
    config.boundary = DeblurBoundary::Circular;
    config.normalize = false;
    let restored = bm3d_deblur(&image, &psf, &config, &ops).unwrap();
    let mean = mean_and_variance(&image).0 .0;
    assert_close(&values(&restored), &vec![mean; 64], 1e-9);
}

#[test]
fn runs_are_determined() {
    let image = ramp(9, 11);
    let psf = image64(2, 2, &[4.0, 2.0, 1.0, 1.0]);
    let ops = operations::<f64>();
    let mut config = small_config();
    config.sigma = scalar(0.0);
    let once = bm3d_deblur_detailed(&image, &psf, &config, &ops).unwrap();
    let again = bm3d_deblur_detailed(&image, &psf, &config, &ops).unwrap();
    assert_eq!(values(&once.estimate), values(&again.estimate));
    assert_eq!(values(&once.estimate_ri), values(&again.estimate_ri));
    assert_eq!(once.sigma.0, again.sigma.0);
    assert_ne!(values(&once.estimate), values(&image));
}

#[test]
fn gaussian_psfs_are_separable() {
    let psf = gaussian_psf(scalar(0.5), scalar(1.0));
    let rows = horizontal_gaussian_psf(scalar(0.5));
    let cols = horizontal_gaussian_psf(scalar(1.0));
    let turned = gaussian_psf(scalar(1.0), scalar(0.5));
    assert_eq!(psf.dim(), (rows.dim().1, cols.dim().1));
    assert_eq!(turned.dim(), (psf.dim().1, psf.dim().0));
    for r in 0..psf.dim().0 {
        for c in 0..psf.dim().1 {
            assert_eq!(psf.get(r, c).0, rows.get(0, r).0 * cols.get(0, c).0);
            assert_eq!(psf.get(r, c).0, turned.get(c, r).0);
        }
    }
    let flat = gaussian_psf(scalar(-1.0), scalar(1.0));
    assert_eq!(flat.dim(), cols.dim());
    assert_eq!(values(&flat), values(&cols));
}

#[test]
fn noise_level_ignores_row_and_column_profiles() {
    let image = grid_from(7, 9, |r, c| ((5 * r * r * c + 3 * r * c * c * c) % 13) as f64);
    let shaded = grid_from(7, 9, |r, c| image.get(r, c).0 + 4.0 * r as f64 - 0.25 * (c * c) as f64);
    let level = estimate_white_noise_sigma(&image, &estimate_robust_sigma::<f64>);
    assert!(level.0 > 0.0);
    assert_eq!(estimate_white_noise_sigma(&shaded, &estimate_robust_sigma::<f64>), level);
}

#[test]
fn transfer_functions_blur_circularly() {
    let image = ramp(5, 4);
    // Smaller than the grid, and larger than it.
    for psf in [image64(2, 3, &[1.0, 2.0, 0.0, 4.0, 3.0, 1.0]), ramp(7, 6)] {
        let (rows, cols) = psf.dim();
        let transfer = psf_transfer_function(&psf, 5, 4, &fft2d::<f64>);
        let blurred = ifft2d(&apply_filter(&fft2d(&image), &transfer));
        for i in 0..5isize {
            for j in 0..4isize {
                let mut sum = 0.0;
                for r in 0..rows {
                    for c in 0..cols {
                        let p = (i - (r as isize - rows as isize / 2)).rem_euclid(5) as usize;
                        let q = (j - (c as isize - cols as isize / 2)).rem_euclid(4) as usize;
                        sum += psf.get(r, c).0 * image.get(p, q).0;
                    }
                }
                assert!((blurred.get(i as usize, j as usize).0 - sum).abs() < 1e-9);
            }
        }
        assert!((transfer.get(0, 0).re.0 - psf.sum().0).abs() < 1e-9);
        assert!(transfer.get(0, 0).im.0.abs() < 1e-9);
    }
}

#[test]
fn symmetric_psfs_transfer_without_phase() {
    let odd = image64(3, 3, &[1.0, 2.0, 3.0, 4.0, 9.0, 4.0, 3.0, 2.0, 1.0]);
    // The mirror image of the first column lies outside.
    let even = image64(1, 4, &[0.0, 2.0, 5.0, 2.0]);
    let skew = image64(1, 3, &[0.0, 2.0, 1.0]);
    for psf in [&odd, &even] {
        for (rows, cols) in [(6, 5), (2, 3)] {
            let transfer = psf_transfer_function(psf, rows, cols, &fft2d::<f64>);
            assert!(transfer.as_vec().iter().all(|z| z.im.0.abs() < 1e-9));
        }
    }
    let transfer = psf_transfer_function(&skew, 6, 5, &fft2d::<f64>);
    assert!(transfer.as_vec().iter().any(|z| z.im.0.abs() > 0.1));
}

#[test]
fn patch_variances_average_to_the_pixel_variance() {
    let psd = grid_from(16, 12, |r, c| 0.5 + ((3 * r + 5 * c) % 7) as f64 / 4.0);
    let sigmas = patch_noise_sigma(&psd, 4, &fft2d::<f64>, &ifft2d::<f64>);
    let squares: Vec<f64> = values(&sigmas).iter().map(|s| s * s).collect();
    let mean = squares.iter().sum::<f64>() / 16.0;
    assert!((mean - mean_and_variance(&psd).0 .0).abs() < 1e-9);
    // They lie between the bounds of the spectrum, and are not all alike.
    assert!(squares.iter().all(|v| 0.5 <= *v && *v <= 2.0));
    assert!(squares.iter().any(|v| (v - mean).abs() > 1e-3));
    let acf = ramp(5, 6);
    assert_eq!(fold_autocorrelation(&acf, 4).get(0, 0), acf.get(0, 0));
}

#[test]
fn first_stage_ignores_the_second() {
    let image = ramp(9, 8);
    let psf = boxcar_psf(1, 3);
    let ops = operations::<f64>();
    let mut off = small_config();
    off.wiener_stage = false;
    let mut on = small_config();
    on.reg_rwi = scalar(0.25);
    let a = bm3d_deblur_detailed(&image, &psf, &off, &ops).unwrap();
    let b = bm3d_deblur_detailed(&image, &psf, &on, &ops).unwrap();
    assert_eq!(values(&a.estimate), values(&a.estimate_ri));
    assert_eq!(values(&b.estimate_ri), values(&a.estimate_ri));
    assert_ne!(values(&b.estimate), values(&a.estimate));
}

#[test]
fn runs_follow_the_levels_of_the_image() {
    let image = ramp(9, 10);
    let psf = gaussian_psf(scalar(0.5), scalar(0.25));
    let ops = operations::<f64>();
    let mut config = small_config();
    let a = bm3d_deblur_detailed(&image, &psf, &config, &ops).unwrap();
    let changed = grid_from(9, 10, |r, c| 8.0 * image.get(r, c).0 - 3.0);
    config.sigma = scalar(8.0 * 0.125);
    let b = bm3d_deblur_detailed(&changed, &psf, &config, &ops).unwrap();
    let follow = |g: &Grid<Real<f64>>| -> Vec<f64> {
        values(g).iter().map(|x| 8.0 * x - 3.0).collect()
    };
    assert_close(&values(&b.estimate), &follow(&a.estimate), 1e-9);
    assert_close(&values(&b.estimate_ri), &follow(&a.estimate_ri), 1e-9);
    assert!((b.sigma.0 - 8.0 * a.sigma.0).abs() < 1e-12);
}

#[test]
fn scale_and_sign_of_the_psf_do_not_matter() {
    let image = ramp(8, 9);
    let ops = operations::<f64>();
    let config = small_config();
    let psf = image64(1, 3, &[1.0, 5.0, 2.0]);
    let other = image64(1, 3, &[-4.0, -20.0, -8.0]);
    assert_eq!(
        values(&normalize_psf(&other).unwrap()),
        values(&normalize_psf(&psf).unwrap())
    );
    let a = bm3d_deblur(&image, &psf, &config, &ops).unwrap();
    let b = bm3d_deblur(&image, &other, &config, &ops).unwrap();
    assert_eq!(values(&a), values(&b));
}

#[test]
fn only_padded_images_and_patches_are_transformed() {
    let image = ramp(9, 10);
    let psf = boxcar_psf(3, 3);
    let mut config = small_config();
    config.sigma = scalar(0.0);
    let shape = request_shape(9, 10, &psf, &config).unwrap().unwrap();
    let ops = Operations {
        fft2d: |g: &Grid<Real<f64>>| {
            assert!(g.dim() == shape || g.dim() == (4, 4));
            fft2d(g)
        },
        ifft2d: |s: &Grid<Complex<Real<f64>>>| {
            assert_eq!(s.dim(), shape);
            ifft2d(s)
        },
        run_bm3d_step_colored_noise: keep_noisy,
        estimate_robust_sigma: |samples: &Vec<Real<f64>>| {
            assert_eq!(samples.len(), 8 * 9);
            estimate_robust_sigma(samples)
        },
    };
    assert!(bm3d_deblur(&image, &psf, &config, &ops).is_ok());
}

#[test]
fn gaussian_kernels_are_symmetric_and_peak_in_the_middle() {
    for sigma in [0.3, 1.0, 2.75] {
        let kernel = gaussian_kernel_1d(scalar(sigma));
        let single = gaussian_kernel_1d(Real(sigma as f32));
        let middle = gaussian_radius(scalar(sigma));
        assert_eq!(kernel.len(), 2 * middle + 1);
        for i in 0..kernel.len() {
            assert_eq!(kernel[i], kernel[kernel.len() - 1 - i]);
            assert_eq!(single[i], single[single.len() - 1 - i]);
            assert!(kernel[i].0 <= kernel[middle].0);
            let x = (i as f64 - middle as f64) / sigma;
            let weight = (-0.5 * x * x).exp();
            assert!((kernel[i].0 - kernel[middle].0 * weight).abs() < 1e-15);
        }
    }
    let psf = gaussian_psf(scalar(0.7), scalar(1.3));
    let (rows, cols) = psf.dim();
    for r in 0..rows {
        for c in 0..cols {
            assert_eq!(psf.get(r, c), psf.get(rows - 1 - r, c));
            assert_eq!(psf.get(r, c), psf.get(r, cols - 1 - c));
        }
    }
}

#[test]
fn default_constants_have_their_signs() {
    let single = Bm3dDeblurConfig::<Real<f32>>::default();
    assert!(single.validate().is_ok());
    assert!(single.threshold.0 >= 0.0 && single.reg_ri.0 > 0.0 && single.reg_rwi.0 > 0.0);
    let double = Bm3dDeblurConfig::<Real<f64>>::default();
    assert!(double.validate().is_ok());
    assert_eq!(Real::<f64>::from_decimal(-5, 1).0, -0.5);
    assert_eq!(Real::<f64>::from_decimal(27, 1).times(Real::usize_as(10)).0, 27.0);
}
