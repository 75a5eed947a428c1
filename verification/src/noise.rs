//! Estimation of the white noise level of an image.

use crate::float_trait::Bm3dFloat;
use crate::grid::{Grid, Matrix};
use vstd::arithmetic::div_mod::{lemma_fundamental_div_mod, lemma_fundamental_div_mod_converse};
use vstd::prelude::*;

verus! {

/// Maximum number of samples used by [`estimate_white_noise_sigma`]. Of more detail
/// coefficients than this, only every n-th one is used.
pub const MAX_SIGMA_SAMPLES: usize = 1_000_000;

/// The diagonal Haar detail coefficient of the 2 x 2 block whose first pixel is `(r, c)`.
pub open spec fn haar_detail<F: Bm3dFloat>(image: Matrix<F>, r: int, c: int) -> F {
    image.at(r, c).minus_spec(image.at(r, c + 1)).minus_spec(image.at(r + 1, c)).plus_spec(
        image.at(r + 1, c + 1),
    ).times_spec(F::from_decimal_spec(5, 1))
}

/// The number of 2 x 2 blocks in an image.
pub open spec fn block_count<F>(image: Matrix<F>) -> int {
    (image.rows - 1) * (image.cols - 1)
}

/// How many multiples of `stride` lie below `n`.
pub open spec fn multiples_below(n: int, stride: int) -> int {
    (n + stride - 1) / stride
}

/// The distance between the blocks that are sampled: the smallest that leaves no more than
/// [`MAX_SIGMA_SAMPLES`] of them.
pub open spec fn sampling_stride(blocks: int) -> int {
    multiples_below(blocks, MAX_SIGMA_SAMPLES as int)
}

/// The sampled detail coefficients: those of every `stride`-th block in row by row order,
/// beginning with the first.
pub open spec fn haar_samples<F: Bm3dFloat>(image: Matrix<F>) -> Seq<F> {
    let stride = sampling_stride(block_count(image));
    Seq::new(
        multiples_below(block_count(image), stride) as nat,
        |k: int|
            haar_detail(
                image,
                (k * stride) / (image.cols - 1),
                (k * stride) % (image.cols - 1),
            ),
    )
}

/// Whether `sigma` is a noise level that `estimator` may give for `image`: zero for an image
/// without a 2 x 2 block, and otherwise an answer of the estimator to the sampled detail
/// coefficients.
pub open spec fn is_white_noise_sigma<F: Bm3dFloat, E: Fn(&Vec<F>) -> F>(
    estimator: E,
    image: Matrix<F>,
    sigma: F,
) -> bool {
    if image.rows < 2 || image.cols < 2 {
        sigma == F::zero_spec()
    } else {
        exists|samples: Vec<F>|
            samples@ == haar_samples(image) && #[trigger] call_ensures(
                estimator,
                (&samples,),
                sigma,
            )
    }
}

/// One step of the count of multiples.
proof fn lemma_multiples_step(n: int, stride: int)
    requires
        n >= 0,
        stride >= 1,
    ensures
        n % stride == 0 ==> multiples_below(n, stride) == n / stride && multiples_below(
            n + 1,
            stride,
        ) == n / stride + 1 && (n / stride) * stride == n,
        n % stride != 0 ==> multiples_below(n + 1, stride) == multiples_below(n, stride),
{
    let q = n / stride;
    let m = n % stride;
    lemma_fundamental_div_mod(n, stride);
    assert(stride * q == q * stride) by (nonlinear_arith);
    if m == 0 {
        lemma_fundamental_div_mod_converse(n + stride - 1, stride, q, stride - 1);
        assert((q + 1) * stride == q * stride + stride) by (nonlinear_arith);
        lemma_fundamental_div_mod_converse(n + stride, stride, q + 1, 0);
    } else {
        assert((q + 1) * stride == q * stride + stride) by (nonlinear_arith);
        lemma_fundamental_div_mod_converse(n + stride - 1, stride, q + 1, m - 1);
        lemma_fundamental_div_mod_converse(n + stride, stride, q + 1, m);
    }
}

/// Fewer multiples lie below a smaller bound.
proof fn lemma_multiples_grow(n: int, m: int, stride: int)
    requires
        0 <= n <= m,
        stride >= 1,
    ensures
        0 <= multiples_below(n, stride) <= multiples_below(m, stride),
{
    vstd::arithmetic::div_mod::lemma_div_is_ordered(n + stride - 1, m + stride - 1, stride);
    vstd::arithmetic::div_mod::lemma_div_pos_is_pos(n + stride - 1, stride);
}

/// No more than [`MAX_SIGMA_SAMPLES`] coefficients are sampled, no smaller stride would leave
/// as few, and all coefficients are sampled where there are no more than that.
pub proof fn law_samples_are_bounded<F: Bm3dFloat>(image: Matrix<F>)
    requires
        image.rows >= 2,
        image.cols >= 2,
    ensures
        1 <= haar_samples(image).len() <= MAX_SIGMA_SAMPLES,
        forall|s: int|
            1 <= s < sampling_stride(block_count(image)) ==> #[trigger] multiples_below(
                block_count(image),
                s,
            ) > MAX_SIGMA_SAMPLES,
        block_count(image) <= MAX_SIGMA_SAMPLES ==> haar_samples(image).len() == block_count(
            image,
        ),
{
    let blocks = block_count(image);
    let most = MAX_SIGMA_SAMPLES as int;
    let stride = sampling_stride(blocks);
    assert((image.rows - 1) * (image.cols - 1) >= 1) by (nonlinear_arith)
        requires
            image.rows >= 2,
            image.cols >= 2,
    ;
    lemma_fundamental_div_mod(blocks + most - 1, most);
    assert(stride >= 1) by {
        if stride <= 0 {
            assert(most * stride <= 0) by (nonlinear_arith)
                requires
                    stride <= 0,
                    most == 1_000_000,
            ;
        }
    }
    // stride * most >= blocks
    assert(most * stride >= blocks);
    let n = multiples_below(blocks, stride);
    lemma_fundamental_div_mod(blocks + stride - 1, stride);
    if n > most {
        assert(stride * n >= stride * most + stride) by (nonlinear_arith)
            requires
                n >= most + 1,
                stride >= 1,
        ;
        assert(stride * most == most * stride) by (nonlinear_arith);
    }
    if n < 1 {
        assert(stride * n <= 0) by (nonlinear_arith)
            requires
                n <= 0,
                stride >= 1,
        ;
    }
    assert forall|s: int| 1 <= s < stride implies #[trigger] multiples_below(blocks, s) > most by {
        let m = multiples_below(blocks, s);
        lemma_fundamental_div_mod(blocks + s - 1, s);
        if m <= most {
            assert(s * m <= (stride - 1) * most) by (nonlinear_arith)
                requires
                    s <= stride - 1,
                    m <= most,
                    s >= 1,
                    most >= 0,
                    stride >= 1,
            ;
            assert((stride - 1) * most == most * stride - most) by (nonlinear_arith);
        }
    }
    if blocks <= most {
        lemma_fundamental_div_mod_converse(blocks + most - 1, most, 1, blocks - 1);
        assert(stride == 1);
        lemma_fundamental_div_mod_converse(blocks, 1, blocks, 0);
    }
}

/// The sampled diagonal Haar detail coefficients of an image.
pub fn haar_detail_samples<F: Bm3dFloat>(image: &Grid<F>) -> (samples: Vec<F>)
    requires
        image@.rows >= 2,
        image@.cols >= 2,
    ensures
        samples@ == haar_samples(image@),
{
    let (rows, cols) = image.dim();
    proof {
        assert(0 <= (rows - 1) * (cols - 1) <= rows * cols) by (nonlinear_arith)
            requires
                rows >= 2,
                cols >= 2,
        ;
    }
    let width: usize = cols - 1;
    let blocks: usize = (rows - 1) * width;
    proof {
        assert((rows - 1) * width >= 1) by (nonlinear_arith)
            requires
                rows >= 2,
                width >= 1,
        ;
        vstd::arithmetic::div_mod::lemma_div_is_ordered(
            MAX_SIGMA_SAMPLES as int,
            blocks + MAX_SIGMA_SAMPLES - 1,
            MAX_SIGMA_SAMPLES as int,
        );
    }
    let stride: usize = (blocks + (MAX_SIGMA_SAMPLES - 1)) / MAX_SIGMA_SAMPLES;
    let half = F::from_decimal(5, 1);
    let ghost target = haar_samples(image@);
    let mut samples: Vec<F> = Vec::new();
    let mut index: usize = 0;
    let mut r: usize = 0;
    proof {
        lemma_multiples_grow(0, 0, stride as int);
        assert(multiples_below(0, stride as int) == 0) by {
            vstd::arithmetic::div_mod::lemma_basic_div(stride - 1, stride as int);
        }
    }
    while r < rows - 1
        invariant
            rows == image@.rows,
            cols == image@.cols,
            rows >= 2,
            cols >= 2,
            width == cols - 1,
            blocks == (rows - 1) * width,
            blocks == block_count(image@),
            stride == sampling_stride(blocks as int),
            stride >= 1,
            half == F::from_decimal_spec(5, 1),
            target == haar_samples(image@),
            r <= rows - 1,
            index == r * width,
            samples@ == target.take(multiples_below(index as int, stride as int)),
            0 <= multiples_below(index as int, stride as int) <= target.len(),
        decreases rows - r,
    {
        let mut c: usize = 0;
        while c < width
            invariant
                rows == image@.rows,
                cols == image@.cols,
                rows >= 2,
                cols >= 2,
                width == cols - 1,
                blocks == (rows - 1) * width,
                blocks == block_count(image@),
                stride == sampling_stride(blocks as int),
                stride >= 1,
                half == F::from_decimal_spec(5, 1),
                target == haar_samples(image@),
                r < rows - 1,
                c <= width,
                index == r * width + c,
                samples@ == target.take(multiples_below(index as int, stride as int)),
                0 <= multiples_below(index as int, stride as int) <= target.len(),
            decreases width - c,
        {
            proof {
                assert(r * width + c < (rows - 1) * width) by (nonlinear_arith)
                    requires
                        r < rows - 1,
                        c < width,
                ;
                lemma_multiples_step(index as int, stride as int);
                lemma_multiples_grow(index + 1, blocks as int, stride as int);
                lemma_fundamental_div_mod_converse(index as int, width as int, r as int, c as int);
            }
            if index % stride == 0 {
                let d = image.get(r, c).minus(image.get(r, c + 1)).minus(image.get(r + 1, c)).plus(
                    image.get(r + 1, c + 1),
                ).times(half);
                let ghost k = index as int / stride as int;
                samples.push(d);
                assert(d == target[k]);
                assert(target.take(k + 1) =~= target.take(k).push(d));
            }
            index = index + 1;
            c = c + 1;
        }
        assert((r + 1) * width == r * width + width) by (nonlinear_arith);
        r = r + 1;
    }
    assert(target.take(target.len() as int) =~= target);
    samples
}

/// Estimate the standard deviation of white noise using a robust estimate of the spread of
/// the diagonal Haar detail coefficients.
///
/// `d = (z[r,c] - z[r,c+1] - z[r+1,c] + z[r+1,c+1]) / 2` has variance `sigma^2` for
/// white noise, while being blind to smooth image content. This is a good fit for
/// deblurring inputs, where the signal has been low-pass filtered by the PSF and the
/// remaining high-frequency energy is dominated by the noise.
///
/// `estimate_robust_sigma` turns the sampled coefficients into a standard deviation, for
/// instance by way of their median absolute deviation.
pub fn estimate_white_noise_sigma<F: Bm3dFloat, E: Fn(&Vec<F>) -> F>(
    image: &Grid<F>,
    estimate_robust_sigma: &E,
) -> (sigma: F)
    requires
        image@.rows >= 2 && image@.cols >= 2 ==> forall|samples: Vec<F>|
            samples@ == haar_samples(image@) ==> #[trigger] call_requires(
                *estimate_robust_sigma,
                (&samples,),
            ),
    ensures
        is_white_noise_sigma(*estimate_robust_sigma, image@, sigma),
{
    let (rows, cols) = image.dim();
    if rows < 2 || cols < 2 {
        return F::zero();
    }
    let samples = haar_detail_samples(image);
    estimate_robust_sigma(&samples)
}

} // verus!
