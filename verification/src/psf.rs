//! Point spread functions: normalization, the usual shapes, and blurring with one.

use crate::float_trait::Bm3dFloat;
use crate::grid::{
    checked_cells, lemma_same_matrix, shape_fits, sum_over, total, Grid, Matrix, MAX_CELLS,
};
use crate::reflect::{reflect_index, reflected};
use vstd::prelude::*;

verus! {

/// The threshold below which ranges, sums and powers count as zero.
pub open spec fn epsilon<F: Bm3dFloat>() -> F {
    F::from_decimal_spec(1, 12)
}

/// Why a PSF cannot be normalized, if it cannot: it is empty, or the magnitude of its sum
/// is at most [`epsilon`].
pub open spec fn psf_violation<F: Bm3dFloat>(psf: Matrix<F>) -> Option<Seq<char>> {
    if psf.is_empty() {
        Some("PSF must not be empty"@)
    } else if total(psf).abs_spec().le_spec(epsilon()) {
        Some("PSF sum must be non-zero"@)
    } else {
        None
    }
}

/// The PSF with every entry divided by the sum of all entries.
pub open spec fn normalized_psf<F: Bm3dFloat>(psf: Matrix<F>) -> Matrix<F> {
    psf.map(|x: F| x.over_spec(total(psf)))
}

/// Normalize a PSF so that its entries sum to 1.
///
/// Fails for empty PSFs and for PSFs whose sum is (close to) zero.
pub fn normalize_psf<F: Bm3dFloat>(psf: &Grid<F>) -> (r: Result<Grid<F>, String>)
    ensures
        match psf_violation(psf@) {
            Some(message) => r matches Err(e) && e@ == message,
            None => r matches Ok(g) && g@ == normalized_psf(psf@),
        },
{
    let (rows, cols) = psf.dim();
    if rows == 0 || cols == 0 {
        return Err("PSF must not be empty".to_string());
    }
    let sum = psf.sum();
    if sum.abs().le(F::from_decimal(1, 12)) {
        return Err("PSF sum must be non-zero".to_string());
    }
    let entry = |r: usize, c: usize| -> (v: F)
        requires
            psf@.has(r as int, c as int),
        ensures
            v == psf@.at(r as int, c as int).over_spec(sum),
        { psf.get(r, c).over(sum) };
    let g = Grid::from_shape_fn(rows, cols, &entry);
    proof {
        lemma_same_matrix(g@, normalized_psf(psf@));
    }
    Ok(g)
}

/// The half width of the Gaussian kernel of standard deviation `sigma`, at least one.
pub open spec fn gaussian_radius_spec<F: Bm3dFloat>(sigma: F) -> int {
    let reach = F::gaussian_truncate_spec().times_spec(sigma).ceil_spec().to_usize_spec();
    if reach >= 1 {
        reach as int
    } else {
        1
    }
}

/// The number of samples of the Gaussian kernel of standard deviation `sigma`.
pub open spec fn gaussian_len<F: Bm3dFloat>(sigma: F) -> int {
    if sigma.le_spec(F::zero_spec()) {
        1
    } else {
        2 * gaussian_radius_spec(sigma) + 1
    }
}

/// The Gaussian at `offset` samples from its centre, not normalized.
pub open spec fn gaussian_weight<F: Bm3dFloat>(sigma: F, offset: int) -> F {
    let x = F::isize_as_spec(offset as isize).over_spec(sigma);
    F::from_decimal_spec((-5) as i64, 1).times_spec(x).times_spec(x).exp_spec()
}

/// The weights of all samples of the Gaussian kernel, not normalized.
pub open spec fn gaussian_weights<F: Bm3dFloat>(sigma: F) -> Seq<F> {
    Seq::new(
        gaussian_len(sigma) as nat,
        |i: int| gaussian_weight(sigma, i - gaussian_radius_spec(sigma)),
    )
}

/// The sum of the first `n` values of `s`, taken from the left.
pub open spec fn sum_of_first<F: Bm3dFloat>(s: Seq<F>, n: nat) -> F
    decreases n,
{
    if n == 0 {
        F::zero_spec()
    } else {
        sum_of_first(s, (n - 1) as nat).plus_spec(s[n - 1])
    }
}

/// The Gaussian kernel of standard deviation `sigma`: a single one if `sigma` is not
/// positive, and otherwise the weights divided by their sum (left as they are if the sum is
/// not positive).
pub open spec fn gaussian_kernel<F: Bm3dFloat>(sigma: F) -> Seq<F> {
    if sigma.le_spec(F::zero_spec()) {
        seq![F::one_spec()]
    } else {
        let weights = gaussian_weights(sigma);
        let sum = sum_of_first(weights, weights.len());
        if F::zero_spec().lt_spec(sum) {
            Seq::new(weights.len(), |i: int| weights[i].over_spec(sum))
        } else {
            weights
        }
    }
}

/// The half width of the Gaussian kernel of standard deviation `sigma`, at least one.
pub fn gaussian_radius<F: Bm3dFloat>(sigma: F) -> (r: usize)
    ensures
        r == gaussian_radius_spec(sigma),
        r >= 1,
{
    let reach = F::gaussian_truncate().times(sigma).ceil().to_usize();
    if reach >= 1 {
        reach
    } else {
        1
    }
}

/// One-dimensional Gaussian kernel, truncated and normalized.
pub fn gaussian_kernel_1d<F: Bm3dFloat>(sigma: F) -> (kernel: Vec<F>)
    requires
        gaussian_len(sigma) <= MAX_CELLS,
    ensures
        kernel@ == gaussian_kernel(sigma),
        kernel@.len() == gaussian_len(sigma),
{
    if sigma.le(F::zero()) {
        let mut single: Vec<F> = Vec::new();
        single.push(F::one());
        assert(single@ =~= gaussian_kernel(sigma));
        return single;
    }
    let radius = gaussian_radius(sigma);
    let len = 2 * radius + 1;
    let neg_half = F::from_decimal(-5, 1);
    let ghost weights = gaussian_weights(sigma);
    let mut kernel: Vec<F> = Vec::new();
    let mut sum: F = F::zero();
    let mut i: usize = 0;
    while i < len
        invariant
            i <= len,
            len == weights.len(),
            len <= MAX_CELLS,
            len == 2 * radius + 1,
            radius == gaussian_radius_spec(sigma),
            neg_half == F::from_decimal_spec((-5) as i64, 1),
            weights == gaussian_weights(sigma),
            kernel@ == weights.take(i as int),
            sum == sum_of_first(weights, i as nat),
        decreases len - i,
    {
        let x = F::isize_as(i as isize - radius as isize).over(sigma);
        let value = neg_half.times(x).times(x).exp();
        sum = sum.plus(value);
        kernel.push(value);
        assert(value == weights[i as int]);
        i = i + 1;
        assert(weights.take(i as int) =~= weights.take(i - 1).push(value));
    }
    assert(weights.take(len as int) =~= weights);
    if F::zero().lt(sum) {
        let mut scaled: Vec<F> = Vec::new();
        let mut k: usize = 0;
        while k < len
            invariant
                k <= len,
                len == weights.len(),
                kernel@ == weights,
                scaled@ == Seq::new(k as nat, |i: int| weights[i].over_spec(sum)),
            decreases len - k,
        {
            scaled.push(kernel[k].over(sum));
            k = k + 1;
            assert(scaled@ =~= Seq::new(k as nat, |i: int| weights[i].over_spec(sum)));
        }
        return scaled;
    }
    kernel
}

/// The separable Gaussian PSF: every entry is the product of a row and a column weight.
pub open spec fn gaussian_psf_spec<F: Bm3dFloat>(sigma_rows: F, sigma_cols: F) -> Matrix<F> {
    Matrix::from_fn(
        gaussian_kernel(sigma_rows).len(),
        gaussian_kernel(sigma_cols).len(),
        |r: int, c: int| gaussian_kernel(sigma_rows)[r].times_spec(gaussian_kernel(sigma_cols)[c]),
    )
}

/// The Gaussian PSF of a single row.
pub open spec fn horizontal_psf_spec<F: Bm3dFloat>(sigma_cols: F) -> Matrix<F> {
    Matrix::from_fn(
        1,
        gaussian_kernel(sigma_cols).len(),
        |r: int, c: int| gaussian_kernel(sigma_cols)[c],
    )
}

/// Separable Gaussian PSF with the given standard deviations (in pixels).
///
/// The kernel is truncated at [`Bm3dFloat::gaussian_truncate`] sigmas and normalized.
pub fn gaussian_psf<F: Bm3dFloat>(sigma_rows: F, sigma_cols: F) -> (psf: Grid<F>)
    requires
        shape_fits(gaussian_len(sigma_rows), gaussian_len(sigma_cols)),
    ensures
        psf@ == gaussian_psf_spec(sigma_rows, sigma_cols),
        psf@.rows == gaussian_len(sigma_rows),
        psf@.cols == gaussian_len(sigma_cols),
{
    let kernel_rows = gaussian_kernel_1d(sigma_rows);
    let kernel_cols = gaussian_kernel_1d(sigma_cols);
    let entry = |r: usize, c: usize| -> (v: F)
        requires
            r < kernel_rows@.len(),
            c < kernel_cols@.len(),
        ensures
            v == kernel_rows@[r as int].times_spec(kernel_cols@[c as int]),
        { kernel_rows[r].times(kernel_cols[c]) };
    let psf = Grid::from_shape_fn(kernel_rows.len(), kernel_cols.len(), &entry);
    proof {
        lemma_same_matrix(psf@, gaussian_psf_spec(sigma_rows, sigma_cols));
    }
    psf
}

/// The PSF of [`gaussian_psf`], or `None` if it has more entries than a grid can hold.
pub fn checked_gaussian_psf<F: Bm3dFloat>(sigma_rows: F, sigma_cols: F) -> (psf: Option<Grid<F>>)
    ensures
        match psf {
            Some(g) => shape_fits(gaussian_len(sigma_rows), gaussian_len(sigma_cols)) && g@
                == gaussian_psf_spec(sigma_rows, sigma_cols),
            None => !shape_fits(gaussian_len(sigma_rows), gaussian_len(sigma_cols)),
        },
{
    match (checked_gaussian_len(sigma_rows), checked_gaussian_len(sigma_cols)) {
        (Some(rows), Some(cols)) => match checked_cells(rows, cols) {
            Some(_) => Some(gaussian_psf(sigma_rows, sigma_cols)),
            None => None,
        },
        _ => None,
    }
}

/// The number of samples of the Gaussian kernel, if a grid can be that long.
fn checked_gaussian_len<F: Bm3dFloat>(sigma: F) -> (r: Option<usize>)
    ensures
        match r {
            Some(len) => len == gaussian_len(sigma) && len <= MAX_CELLS,
            None => gaussian_len(sigma) > MAX_CELLS,
        },
{
    if sigma.le(F::zero()) {
        return Some(1);
    }
    let radius = gaussian_radius(sigma);
    if radius <= (MAX_CELLS - 1) / 2 {
        Some(2 * radius + 1)
    } else {
        None
    }
}

/// Horizontal-only Gaussian PSF, shaped `(1, width)`.
///
/// Models detector / scintillator blur along the detector axis of a sinogram,
/// leaving the projection-angle axis untouched.
pub fn horizontal_gaussian_psf<F: Bm3dFloat>(sigma_cols: F) -> (psf: Grid<F>)
    requires
        gaussian_len(sigma_cols) <= MAX_CELLS,
    ensures
        psf@ == horizontal_psf_spec(sigma_cols),
        psf@.rows == 1,
        psf@.cols == gaussian_len(sigma_cols),
{
    let kernel = gaussian_kernel_1d(sigma_cols);
    let entry = |r: usize, c: usize| -> (v: F)
        requires
            c < kernel@.len(),
        ensures
            v == kernel@[c as int],
        { kernel[c] };
    let psf = Grid::from_shape_fn(1, kernel.len(), &entry);
    proof {
        lemma_same_matrix(psf@, horizontal_psf_spec(sigma_cols));
    }
    psf
}

/// The PSF of [`horizontal_gaussian_psf`], or `None` if it has more entries than a grid can
/// hold.
pub fn checked_horizontal_gaussian_psf<F: Bm3dFloat>(sigma_cols: F) -> (psf: Option<Grid<F>>)
    ensures
        match psf {
            Some(g) => gaussian_len(sigma_cols) <= MAX_CELLS && g@ == horizontal_psf_spec(
                sigma_cols,
            ),
            None => gaussian_len(sigma_cols) > MAX_CELLS,
        },
{
    match checked_gaussian_len(sigma_cols) {
        Some(_) => Some(horizontal_gaussian_psf(sigma_cols)),
        None => None,
    }
}

/// The axis length that a box of `n` samples has: an empty box counts as one sample.
pub open spec fn box_len(n: int) -> int {
    if n >= 1 {
        n
    } else {
        1
    }
}

/// The uniform PSF: one over the number of entries, everywhere.
pub open spec fn boxcar_psf_spec<F: Bm3dFloat>(rows: int, cols: int) -> Matrix<F> {
    Matrix::from_fn(
        box_len(rows) as nat,
        box_len(cols) as nat,
        |r: int, c: int|
            F::one_spec().over_spec(F::usize_as_spec((box_len(rows) * box_len(cols)) as usize)),
    )
}

/// Uniform (box / out-of-focus approximation) PSF of the given size.
pub fn boxcar_psf<F: Bm3dFloat>(rows: usize, cols: usize) -> (psf: Grid<F>)
    requires
        shape_fits(box_len(rows as int), box_len(cols as int)),
    ensures
        psf@ == boxcar_psf_spec::<F>(rows as int, cols as int),
        psf@.rows == box_len(rows as int),
        psf@.cols == box_len(cols as int),
{
    let box_rows: usize = if rows >= 1 {
        rows
    } else {
        1
    };
    let box_cols: usize = if cols >= 1 {
        cols
    } else {
        1
    };
    let value = F::one().over(F::usize_as(box_rows * box_cols));
    let entry = |r: usize, c: usize| -> (v: F)
        ensures
            v == value,
        { value };
    let psf = Grid::from_shape_fn(box_rows, box_cols, &entry);
    proof {
        lemma_same_matrix(psf@, boxcar_psf_spec::<F>(rows as int, cols as int));
    }
    psf
}

/// The contributions to pixel `(i, j)` of the blurred image, one for each entry of the PSF,
/// whose centre lies at `(rows / 2, cols / 2)`.
pub open spec fn contributions<F: Bm3dFloat>(
    image: Matrix<F>,
    psf: Matrix<F>,
    i: int,
    j: int,
) -> Matrix<F> {
    Matrix::from_fn(
        psf.rows,
        psf.cols,
        |r: int, c: int|
            psf.at(r, c).times_spec(
                image.at(
                    reflected(i - (r - psf.rows as int / 2), image.rows as int),
                    reflected(j - (c - psf.cols as int / 2), image.cols as int),
                ),
            ),
    )
}

/// The image convolved with the PSF under mirrored boundaries. An empty image or PSF leaves
/// the image as it is.
pub open spec fn blurred<F: Bm3dFloat>(image: Matrix<F>, psf: Matrix<F>) -> Matrix<F> {
    if image.is_empty() || psf.is_empty() {
        image
    } else {
        Matrix::from_fn(
            image.rows,
            image.cols,
            |i: int, j: int| total(contributions(image, psf, i, j)),
        )
    }
}

/// Pixel `(i, j)` of the blurred image.
fn blurred_pixel<F: Bm3dFloat>(image: &Grid<F>, psf: &Grid<F>, i: usize, j: usize) -> (v: F)
    requires
        image@.has(i as int, j as int),
    ensures
        v == total(contributions(image@, psf@, i as int, j as int)),
{
    let (rows, cols) = image.dim();
    let (psf_rows, psf_cols) = psf.dim();
    let center_r: isize = (psf_rows / 2) as isize;
    let center_c: isize = (psf_cols / 2) as isize;
    let term = |r: usize, c: usize| -> (v: F)
        requires
            psf@.has(r as int, c as int),
        ensures
            v == contributions(image@, psf@, i as int, j as int).at(r as int, c as int),
        {
            let src_r = reflect_index(i as isize - (r as isize - center_r), rows);
            let src_c = reflect_index(j as isize - (c as isize - center_c), cols);
            psf.get(r, c).times(image.get(src_r, src_c))
        };
    sum_over(psf_rows, psf_cols, &term, Ghost(contributions(image@, psf@, i as int, j as int)))
}

/// Blur an image with a PSF using mirrored boundaries (direct convolution).
///
/// Uses the same centring convention as the deblurring model, so it can be used to
/// generate consistent test data:
/// `out[i, j] = sum_{r,c} psf[r, c] * image[i - (r - psf_rows/2), j - (c - psf_cols/2)]`.
///
/// Cost is `O(rows * cols * psf_rows * psf_cols)`, i.e. intended for small PSFs.
pub fn blur_with_psf<F: Bm3dFloat>(image: &Grid<F>, psf: &Grid<F>) -> (out: Grid<F>)
    ensures
        out@ == blurred(image@, psf@),
{
    let (rows, cols) = image.dim();
    let (psf_rows, psf_cols) = psf.dim();
    if rows == 0 || cols == 0 || psf_rows == 0 || psf_cols == 0 {
        return image.clone();
    }
    let pixel = |i: usize, j: usize| -> (v: F)
        requires
            image@.has(i as int, j as int),
        ensures
            v == total(contributions(image@, psf@, i as int, j as int)),
        { blurred_pixel(image, psf, i, j) };
    let out = Grid::from_shape_fn(rows, cols, &pixel);
    proof {
        lemma_same_matrix(out@, blurred(image@, psf@));
    }
    out
}

} // verus!
