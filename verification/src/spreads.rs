//! Point spread functions and blurring, by what has to hold of their entries and pixels.
//!
//! The laws here are stated for scalars that compute exactly.

use crate::config::DeblurBoundary;
use crate::exact::{
    count_is_exact, exact_at, is_exact, lemma_decimal, lemma_decimal_negates, lemma_half,
    lemma_one_positive, lemma_order, lemma_order_chains, lemma_over, lemma_plus,
    lemma_plus_positive, lemma_signs, lemma_square_of_product, lemma_times, lemma_times_zero,
};
use crate::float_trait::Bm3dFloat;
use crate::grid::{total, Matrix};
use crate::laws::law_gaussian_kernel_scales_from_its_middle;
use crate::padding::{law_padding_leaves_room, margins, padded};
use crate::psf::{
    blurred, contributions, epsilon, gaussian_kernel, gaussian_psf_spec, gaussian_radius_spec,
    gaussian_weight, horizontal_psf_spec, normalized_psf, psf_violation,
};
use crate::reflect::{law_reflection_fixes_inside, law_reflection_stays_inside, reflected};
use crate::sums::{
    lemma_sum_of_changed, lemma_sum_of_same, lemma_sum_of_zeros, lemma_sum_scales, lemma_sum_splits,
};
use vstd::prelude::*;

verus! {

/// A PSF can be normalized exactly if it has an entry and its sum lies further from zero than
/// `10^-12`.
pub proof fn law_psf_needs_a_sum<F: Bm3dFloat>(psf: Matrix<F>)
    requires
        is_exact::<F>(),
    ensures
        psf_violation(psf) is None <==> {
            &&& psf.rows > 0
            &&& psf.cols > 0
            &&& F::from_decimal_spec(1, 12).lt_spec(total(psf)) || F::from_decimal_spec(
                1,
                12,
            ).lt_spec(total(psf).neg_spec())
        },
{
    let zero = F::zero_spec();
    let tiny = F::from_decimal_spec(1, 12);
    let sum = total(psf);
    let n = sum.neg_spec();
    assert(exact_at(sum, zero, zero));
    lemma_order(sum.abs_spec(), tiny);
    lemma_order(tiny, sum);
    lemma_order(tiny, n);
    lemma_order(zero, sum);
    lemma_order(sum, zero);
    lemma_decimal::<F>(1, 12);
    lemma_order(zero, tiny);
    if sum.lt_spec(zero) {
        // sum is not above tiny.
        if tiny.lt_spec(sum) {
            lemma_order_chains(tiny, sum, zero);
        }
    } else if tiny.lt_spec(n) {
        // Then zero < n, so that sum + n would be positive.
        lemma_order_chains(zero, tiny, n);
        lemma_plus_positive(sum, n);
        lemma_order(zero, zero);
    }
}

/// Normalization keeps the proportions of a PSF: every entry, times the sum, is what it was.
pub proof fn law_normalization_keeps_proportions<F: Bm3dFloat>(psf: Matrix<F>, r: int, c: int)
    requires
        is_exact::<F>(),
        psf_violation(psf) is None,
        psf.has(r, c),
    ensures
        normalized_psf(psf).rows == psf.rows,
        normalized_psf(psf).cols == psf.cols,
        normalized_psf(psf).at(r, c).times_spec(total(psf)) == psf.at(r, c),
{
    let zero = F::zero_spec();
    let sum = total(psf);
    if sum == zero {
        assert(exact_at(zero, zero, zero));
        lemma_decimal::<F>(1, 12);
        lemma_order(zero, epsilon());
    }
    lemma_over(psf.at(r, c), sum);
}

/// The entries of a Gaussian kernel fall off from the middle as a Gaussian does: the entry at the
/// distance `d` is the middle entry times the exponential of a number that, times twice the
/// square of the standard deviation, is `-d * d`.
pub proof fn law_gaussian_kernel_falls_off<F: Bm3dFloat>(sigma: F, i: int) -> (exponent: F)
    requires
        is_exact::<F>(),
        F::zero_spec().exp_spec() == F::one_spec(),
        F::zero_spec().lt_spec(sigma),
        0 <= i < gaussian_kernel(sigma).len(),
    ensures
        ({
            let kernel = gaussian_kernel(sigma);
            let middle = (kernel.len() - 1) / 2;
            let d = F::isize_as_spec((i - middle) as isize);
            let square = sigma.times_spec(sigma);
            &&& kernel.len() == 2 * middle + 1
            &&& kernel[i] == kernel[middle].times_spec(exponent.exp_spec())
            &&& exponent.times_spec(square.plus_spec(square)) == d.times_spec(d).neg_spec()
        }),
{
    let zero = F::zero_spec();
    let kernel = gaussian_kernel(sigma);
    let radius = gaussian_radius_spec(sigma);
    lemma_order(zero, sigma);
    lemma_order(sigma, zero);
    assert(kernel.len() == 2 * radius + 1);
    law_gaussian_kernel_scales_from_its_middle(sigma);
    let d = F::isize_as_spec((i - radius) as isize);
    let x = d.over_spec(sigma);
    let half = F::from_decimal_spec(5, 1);
    let minus_half = F::from_decimal_spec((-5) as i64, 1);
    let exponent = minus_half.times_spec(x).times_spec(x);
    assert(kernel[i] == kernel[radius].times_spec(gaussian_weight(sigma, i - radius)));
    assert(gaussian_weight(sigma, i - radius) == exponent.exp_spec());
    // x * sigma == d, so that x^2 * sigma^2 == d^2.
    let square = sigma.times_spec(sigma);
    let xx = x.times_spec(x);
    lemma_over(d, sigma);
    lemma_square_of_product(x, sigma);
    assert(xx.times_spec(square) == d.times_spec(d));
    lemma_decimal_negates::<F>(5, 1);
    assert(minus_half == half.neg_spec());
    lemma_times(minus_half, x, x);
    // exponent * (square + square) == -(half * d^2 + half * d^2)
    lemma_signs(half, xx);
    let e = half.times_spec(xx);
    assert(exponent == e.neg_spec());
    lemma_signs(e, square.plus_spec(square));
    lemma_times(square, square, e);
    lemma_times(e, square.plus_spec(square), e);
    lemma_times(e, square, e);
    lemma_times(half, xx, square);
    lemma_times(half, d.times_spec(d), half);
    lemma_half(d.times_spec(d));
    exponent
}

/// A Gaussian kernel reaches as many whole samples to either side as it takes to cover the
/// truncation, and at least one; without a positive standard deviation it is a single one. The
/// rounding up of the reach to an integer has to be exact.
pub proof fn law_gaussian_kernel_reaches_its_truncation<F: Bm3dFloat>(sigma: F)
    requires
        is_exact::<F>(),
        F::zero_spec().lt_spec(sigma) ==> ({
            let reach = F::gaussian_truncate_spec().times_spec(sigma);
            let up = reach.ceil_spec();
            &&& reach.le_spec(up)
            &&& up.lt_spec(reach.plus_spec(F::one_spec()))
            &&& F::usize_as_spec(up.to_usize_spec()) == up
        }),
    ensures
        ({
            let kernel = gaussian_kernel(sigma);
            let reach = F::gaussian_truncate_spec().times_spec(sigma);
            let middle = (kernel.len() - 1) / 2;
            &&& !F::zero_spec().lt_spec(sigma) ==> kernel.len() == 1 && kernel[0] == F::one_spec()
            &&& F::zero_spec().lt_spec(sigma) ==> {
                &&& 1 <= middle <= usize::MAX
                &&& reach.le_spec(F::usize_as_spec(middle as usize))
                &&& middle == 1 || F::usize_as_spec(middle as usize).lt_spec(
                    reach.plus_spec(F::one_spec()),
                )
            }
        }),
{
    let zero = F::zero_spec();
    let reach = F::gaussian_truncate_spec().times_spec(sigma);
    let up = reach.ceil_spec();
    let n = up.to_usize_spec();
    lemma_order(zero, sigma);
    lemma_order(sigma, zero);
    if zero.lt_spec(sigma) {
        let kernel = gaussian_kernel(sigma);
        assert(kernel.len() == 2 * gaussian_radius_spec(sigma) + 1);
        if n == 0 {
            // The reach is not positive, and one is above it.
            lemma_one_positive::<F>();
            assert(count_is_exact::<F>(1));
            lemma_plus(F::one_spec(), zero, zero);
            lemma_order(zero, F::one_spec());
            lemma_order_chains(reach, up, F::one_spec());
        }
    }
}

/// The entries of a Gaussian PSF are the products of the entries of two kernels, and a horizontal
/// one is a kernel laid out in a row.
pub proof fn law_gaussian_psf_is_made_of_kernels<F: Bm3dFloat>(
    sigma_rows: F,
    sigma_cols: F,
    r: int,
    c: int,
)
    requires
        0 <= r < gaussian_kernel(sigma_rows).len(),
        0 <= c < gaussian_kernel(sigma_cols).len(),
    ensures
        ({
            let psf = gaussian_psf_spec(sigma_rows, sigma_cols);
            let row = horizontal_psf_spec(sigma_cols);
            &&& psf.rows == gaussian_kernel(sigma_rows).len()
            &&& psf.cols == gaussian_kernel(sigma_cols).len()
            &&& psf.at(r, c) == gaussian_kernel(sigma_rows)[r].times_spec(
                gaussian_kernel(sigma_cols)[c],
            )
            &&& row.rows == 1
            &&& row.cols == gaussian_kernel(sigma_cols).len()
            &&& row.at(0, c) == gaussian_kernel(sigma_cols)[c]
        }),
{
}

/// Blurring keeps the shape of an image, and without a PSF the image itself.
pub proof fn law_blur_keeps_the_shape<F: Bm3dFloat>(image: Matrix<F>, psf: Matrix<F>)
    ensures
        blurred(image, psf).rows == image.rows,
        blurred(image, psf).cols == image.cols,
        psf.rows == 0 || psf.cols == 0 ==> blurred(image, psf) == image,
{
}

/// Blurring is linear: the blur of a weighted sum of two images is the weighted sum of their
/// blurs, whatever the PSF.
pub proof fn law_blur_is_linear<F: Bm3dFloat>(
    a: Matrix<F>,
    b: Matrix<F>,
    both: Matrix<F>,
    x: F,
    y: F,
    psf: Matrix<F>,
    i: int,
    j: int,
)
    requires
        is_exact::<F>(),
        a.rows == b.rows == both.rows,
        a.cols == b.cols == both.cols,
        a.has(i, j),
        !psf.is_empty(),
        forall|r: int, c: int|
            a.has(r, c) ==> #[trigger] both.at(r, c) == a.at(r, c).times_spec(x).plus_spec(
                b.at(r, c).times_spec(y),
            ),
    ensures
        blurred(both, psf).at(i, j) == blurred(a, psf).at(i, j).times_spec(x).plus_spec(
            blurred(b, psf).at(i, j).times_spec(y),
        ),
{
    let ca = contributions(a, psf, i, j);
    let cb = contributions(b, psf, i, j);
    let cc = contributions(both, psf, i, j);
    let sa = ca.map(|v: F| v.times_spec(x));
    let sb = cb.map(|v: F| v.times_spec(y));
    assert forall|r: int, c: int| sa.has(r, c) implies #[trigger] cc.at(r, c) == sa.at(
        r,
        c,
    ).plus_spec(sb.at(r, c)) by {
        let u = i - (r - psf.rows as int / 2);
        let v = j - (c - psf.cols as int / 2);
        law_reflection_stays_inside(u, a.rows as int);
        law_reflection_stays_inside(v, a.cols as int);
        let p = reflected(u, a.rows as int);
        let q = reflected(v, a.cols as int);
        let w = psf.at(r, c);
        let s = a.at(p, q);
        let t = b.at(p, q);
        assert(both.at(p, q) == s.times_spec(x).plus_spec(t.times_spec(y)));
        lemma_times(s.times_spec(x), t.times_spec(y), w);
        lemma_times(w, s.times_spec(x).plus_spec(t.times_spec(y)), w);
        lemma_times(w, s.times_spec(x), w);
        lemma_times(w, t.times_spec(y), w);
        lemma_times(w, s, x);
        lemma_times(w, t, y);
    }
    lemma_sum_splits(sa, sb, cc, psf.rows, 0);
    lemma_sum_scales(ca, sa, x, psf.rows, 0);
    lemma_sum_scales(cb, sb, y, psf.rows, 0);
}

/// The blur of a single point of level `v` at `(p, q)` is the PSF, times `v`, with its centre
/// `(rows / 2, cols / 2)` on that point: where the PSF does not reach over the border, pixel
/// `(i, j)` holds the entry at `(i - p, j - q)` from the centre, and zero beyond the PSF.
pub proof fn law_blur_of_a_point_is_the_psf<F: Bm3dFloat>(
    image: Matrix<F>,
    psf: Matrix<F>,
    p: int,
    q: int,
    v: F,
    i: int,
    j: int,
)
    requires
        is_exact::<F>(),
        image.has(p, q),
        image.has(i, j),
        !psf.is_empty(),
        image.at(p, q) == v,
        forall|r: int, c: int|
            image.has(r, c) && !(r == p && c == q) ==> #[trigger] image.at(r, c) == F::zero_spec(),
        psf.rows - 1 - psf.rows as int / 2 <= i < image.rows - psf.rows as int / 2,
        psf.cols - 1 - psf.cols as int / 2 <= j < image.cols - psf.cols as int / 2,
    ensures
        ({
            let r = psf.rows as int / 2 + (i - p);
            let c = psf.cols as int / 2 + (j - q);
            blurred(image, psf).at(i, j) == if psf.has(r, c) {
                psf.at(r, c).times_spec(v)
            } else {
                F::zero_spec()
            }
        }),
{
    let zero = F::zero_spec();
    let hr = psf.rows as int / 2 + (i - p);
    let hc = psf.cols as int / 2 + (j - q);
    let terms = contributions(image, psf, i, j);
    let none = Matrix::from_fn(psf.rows, psf.cols, |r: int, c: int| zero);
    assert forall|r: int, c: int|
        psf.has(r, c) && !(r == hr && c == hc) implies #[trigger] terms.at(r, c) == none.at(
        r,
        c,
    ) by {
        let u = i - (r - psf.rows as int / 2);
        let w = j - (c - psf.cols as int / 2);
        law_reflection_fixes_inside(u, image.rows as int);
        law_reflection_fixes_inside(w, image.cols as int);
        assert(image.has(u, w));
        assert(image.at(u, w) == zero);
        lemma_times_zero(psf.at(r, c));
    }
    lemma_sum_of_zeros(none, psf.rows, 0);
    if psf.has(hr, hc) {
        let d = psf.at(hr, hc).times_spec(v);
        law_reflection_fixes_inside(p, image.rows as int);
        law_reflection_fixes_inside(q, image.cols as int);
        lemma_plus(d, d, d);
        lemma_sum_of_changed(none, terms, hr, hc, d, psf.rows, 0);
    } else {
        lemma_sum_of_same(none, terms, psf.rows, 0);
    }
}

/// Beyond its borders an image is blurred as if it were continued by its mirror image: the blur is
/// that of the padded image, behind the margins.
pub proof fn law_blur_continues_by_reflection<F: Bm3dFloat>(
    image: Matrix<F>,
    psf: Matrix<F>,
    patch_size: int,
    i: int,
    j: int,
)
    requires
        image.has(i, j),
        !psf.is_empty(),
    ensures
        ({
            let (top, left) = margins(
                psf.rows as int,
                psf.cols as int,
                patch_size,
                DeblurBoundary::Reflect,
            );
            let large = padded(
                image,
                psf.rows as int,
                psf.cols as int,
                patch_size,
                DeblurBoundary::Reflect,
            );
            blurred(image, psf).at(i, j) == blurred(large, psf).at(top + i, left + j)
        }),
{
    let boundary = DeblurBoundary::Reflect;
    let (top, left) = margins(psf.rows as int, psf.cols as int, patch_size, boundary);
    let large = padded(image, psf.rows as int, psf.cols as int, patch_size, boundary);
    law_padding_leaves_room(
        image.rows as int,
        image.cols as int,
        psf.rows as int,
        psf.cols as int,
        patch_size,
        boundary,
    );
    let a = contributions(image, psf, i, j);
    let b = contributions(large, psf, top + i, left + j);
    assert forall|r: int, c: int| a.has(r, c) implies #[trigger] a.at(r, c) == b.at(r, c) by {
        let u = i - (r - psf.rows as int / 2);
        let w = j - (c - psf.cols as int / 2);
        law_reflection_fixes_inside(top + u, large.rows as int);
        law_reflection_fixes_inside(left + w, large.cols as int);
        assert(large.has(top + u, left + w));
        assert(top + i - (r - psf.rows as int / 2) == top + u);
        assert(left + j - (c - psf.cols as int / 2) == left + w);
    }
    lemma_sum_of_same(a, b, psf.rows, 0);
}

} // verus!
