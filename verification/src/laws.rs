//! What holds of the library as a whole, mostly when scalars compute exactly.

use crate::config::Bm3dDeblurConfig;
use crate::exact::{
    count_is_exact, decimal_is_exact, exact_at, exponentials_are_positive, is_exact,
    lemma_count_positive, lemma_decimal, lemma_decimal_is_count, lemma_decimal_sign, lemma_minus,
    lemma_minus_is_unique, lemma_minus_scales, lemma_minus_splits, lemma_one_positive, lemma_order,
    lemma_order_chains, lemma_over, lemma_plus, lemma_plus_crosswise, lemma_square_not_negative,
    lemma_times, lemma_times_cancels, lemma_times_ordered, lemma_times_zero, lemma_twentieth,
    one_is_neutral, products_commute, signs_are_symmetric, signs_are_symmetric_at,
};
use crate::float_trait::Bm3dFloat;
use crate::grid::{lemma_same_matrix, shape_fits, total, Matrix, MAX_CELLS};
use crate::levels::{
    from_working, highest_before, lowered, lowest_before, normalization, raised, to_working,
};
use crate::noise::{
    block_count, haar_samples, is_white_noise_sigma, law_samples_are_bounded, multiples_below,
    sampling_stride, MAX_SIGMA_SAMPLES,
};
use crate::psf::{
    blurred, box_len, boxcar_psf_spec, contributions, epsilon, gaussian_kernel, gaussian_len,
    gaussian_psf_spec, gaussian_radius_spec, gaussian_weight, gaussian_weights, horizontal_psf_spec,
    normalized_psf, psf_violation, sum_of_first,
};
use crate::reflect::{law_reflection_stays_inside, reflected};
use crate::sums::{
    lemma_sequence_positive, lemma_sequence_scales, lemma_sum_of_constant, lemma_sum_of_products,
    lemma_sum_of_row, lemma_sum_scales, lemma_sum_splits,
};
use vstd::arithmetic::div_mod::{lemma_div_is_ordered, lemma_fundamental_div_mod, lemma_mod_bound};
use vstd::prelude::*;

verus! {

/// A PSF that can be normalized sums to one once it is.
pub proof fn law_normalized_psf_sums_to_one<F: Bm3dFloat>(psf: Matrix<F>)
    requires
        is_exact::<F>(),
        psf_violation(psf) is None,
    ensures
        total(normalized_psf(psf)) == F::one_spec(),
{
    let sum = total(psf);
    let zero = F::zero_spec();
    if sum == zero {
        assert(exact_at(zero, zero, zero));
        lemma_decimal::<F>(1, 12);
        lemma_order(zero, epsilon());
    }
    lemma_over(sum, sum);
    let share = F::one_spec().over_spec(sum);
    let unit = normalized_psf(psf);
    assert forall|r: int, c: int| psf.has(r, c) implies #[trigger] unit.at(r, c) == psf.at(
        r,
        c,
    ).times_spec(share) by {
        lemma_over(psf.at(r, c), sum);
    }
    lemma_sum_scales(psf, unit, share, psf.rows, 0);
}

/// The Gaussian kernel sums to one, whatever its standard deviation.
pub proof fn law_gaussian_kernel_sums_to_one<F: Bm3dFloat>(sigma: F)
    requires
        is_exact::<F>(),
        exponentials_are_positive::<F>(),
    ensures
        gaussian_kernel(sigma).len() > 0,
        sum_of_first(gaussian_kernel(sigma), gaussian_kernel(sigma).len()) == F::one_spec(),
{
    let kernel = gaussian_kernel(sigma);
    if sigma.le_spec(F::zero_spec()) {
        assert(kernel.len() == 1);
        reveal_with_fuel(sum_of_first, 2);
        lemma_plus(F::one_spec(), F::one_spec(), F::one_spec());
    } else {
        let weights = gaussian_weights(sigma);
        let sum = sum_of_first(weights, weights.len());
        assert forall|i: int| 0 <= i < weights.len() implies F::zero_spec().lt_spec(
            #[trigger] weights[i],
        ) by {
            let offset = i - gaussian_radius_spec(sigma);
            let x = F::isize_as_spec(offset as isize).over_spec(sigma);
            let exponent = F::from_decimal_spec((-5) as i64, 1).times_spec(x).times_spec(x);
            assert(F::zero_spec().lt_spec(exponent.exp_spec()));
        }
        lemma_sequence_positive(weights, weights.len());
        lemma_order(F::zero_spec(), sum);
        let share = F::one_spec().over_spec(sum);
        lemma_over(sum, sum);
        assert forall|i: int| 0 <= i < weights.len() implies #[trigger] kernel[i]
            == weights[i].times_spec(share) by {
            lemma_over(weights[i], sum);
        }
        lemma_sequence_scales(weights, kernel, share, weights.len());
    }
}

/// A Gaussian PSF sums to one.
pub proof fn law_gaussian_psf_sums_to_one<F: Bm3dFloat>(sigma_rows: F, sigma_cols: F)
    requires
        is_exact::<F>(),
        exponentials_are_positive::<F>(),
    ensures
        total(gaussian_psf_spec(sigma_rows, sigma_cols)) == F::one_spec(),
        total(horizontal_psf_spec(sigma_cols)) == F::one_spec(),
{
    let rows = gaussian_kernel(sigma_rows);
    let cols = gaussian_kernel(sigma_cols);
    law_gaussian_kernel_sums_to_one(sigma_rows);
    law_gaussian_kernel_sums_to_one(sigma_cols);
    lemma_sum_of_products(gaussian_psf_spec(sigma_rows, sigma_cols), rows, cols, rows.len(), 0);
    lemma_times(F::one_spec(), F::one_spec(), F::one_spec());
    lemma_sum_of_row(horizontal_psf_spec(sigma_cols), cols, cols.len());
}

/// A uniform PSF sums to one.
pub proof fn law_boxcar_psf_sums_to_one<F: Bm3dFloat>(rows: int, cols: int)
    requires
        is_exact::<F>(),
        shape_fits(box_len(rows), box_len(cols)),
    ensures
        total(boxcar_psf_spec::<F>(rows, cols)) == F::one_spec(),
{
    let psf = boxcar_psf_spec::<F>(rows, cols);
    assert(box_len(rows) * box_len(cols) >= 1) by (nonlinear_arith)
        requires
            box_len(rows) >= 1,
            box_len(cols) >= 1,
    ;
    let n = (box_len(rows) * box_len(cols)) as usize;
    let count = F::usize_as_spec(n);
    let share = F::one_spec().over_spec(count);
    lemma_count_positive::<F>(n);
    lemma_sum_of_constant(psf, share, psf.rows, 0);
    lemma_over(F::one_spec(), count);
    lemma_times(count, share, share);
}

/// All entries of a uniform PSF are alike, and as many of them as there are entries make one. It
/// has the size that was asked for, where an axis of length zero counts as one entry.
pub proof fn law_boxcar_psf_is_uniform<F: Bm3dFloat>(rows: int, cols: int)
    requires
        is_exact::<F>(),
        rows >= 0,
        cols >= 0,
        shape_fits(box_len(rows), box_len(cols)),
    ensures
        ({
            let psf = boxcar_psf_spec::<F>(rows, cols);
            &&& psf.rows == if rows == 0 {
                1
            } else {
                rows
            }
            &&& psf.cols == if cols == 0 {
                1
            } else {
                cols
            }
            &&& forall|r: int, c: int, i: int, j: int|
                psf.has(r, c) && psf.has(i, j) ==> #[trigger] psf.at(r, c) == #[trigger] psf.at(
                    i,
                    j,
                )
            &&& forall|r: int, c: int|
                psf.has(r, c) ==> (#[trigger] psf.at(r, c)).times_spec(
                    F::usize_as_spec((psf.rows * psf.cols) as usize),
                ) == F::one_spec()
        }),
{
    let n = box_len(rows) * box_len(cols);
    assert(n >= 1) by (nonlinear_arith)
        requires
            n == box_len(rows) * box_len(cols),
            box_len(rows) >= 1,
            box_len(cols) >= 1,
    ;
    lemma_count_positive::<F>(n as usize);
    lemma_over(F::one_spec(), F::usize_as_spec(n as usize));
}

/// The image with every level multiplied by `gain` and then raised by `offset`.
pub open spec fn relevelled<F: Bm3dFloat>(image: Matrix<F>, gain: F, offset: F) -> Matrix<F> {
    image.map(|x: F| x.times_spec(gain).plus_spec(offset))
}

/// Blurring with a PSF that sums to one commutes with every change of levels.
pub proof fn law_blur_is_affine_equivariant<F: Bm3dFloat>(
    image: Matrix<F>,
    psf: Matrix<F>,
    gain: F,
    offset: F,
)
    requires
        is_exact::<F>(),
        total(psf) == F::one_spec(),
    ensures
        blurred(relevelled(image, gain, offset), psf) == relevelled(
            blurred(image, psf),
            gain,
            offset,
        ),
{
    let changed = relevelled(image, gain, offset);
    if !(image.is_empty() || psf.is_empty()) {
        let lhs = blurred(changed, psf);
        let rhs = relevelled(blurred(image, psf), gain, offset);
        assert forall|i: int, j: int| lhs.has(i, j) implies #[trigger] lhs.at(i, j) == rhs.at(
            i,
            j,
        ) by {
            let before = contributions(image, psf, i, j);
            let after = contributions(changed, psf, i, j);
            let scaled = before.map(|x: F| x.times_spec(gain));
            let raise = psf.map(|x: F| x.times_spec(offset));
            assert forall|r: int, c: int| scaled.has(r, c) implies #[trigger] after.at(r, c)
                == scaled.at(r, c).plus_spec(raise.at(r, c)) by {
                let p = reflected(i - (r - psf.rows as int / 2), image.rows as int);
                let q = reflected(j - (c - psf.cols as int / 2), image.cols as int);
                law_reflection_stays_inside(
                    i - (r - psf.rows as int / 2),
                    image.rows as int,
                );
                law_reflection_stays_inside(
                    j - (c - psf.cols as int / 2),
                    image.cols as int,
                );
                let w = psf.at(r, c);
                let x = image.at(p, q);
                assert(changed.at(p, q) == x.times_spec(gain).plus_spec(offset));
                lemma_times(x.times_spec(gain), offset, w);
                lemma_times(w, x.times_spec(gain).plus_spec(offset), w);
                lemma_times(w, x, gain);
                lemma_times(w, x.times_spec(gain), w);
                lemma_times(w, offset, w);
            }
            lemma_sum_splits(scaled, raise, after, psf.rows, 0);
            lemma_sum_scales(before, scaled, gain, psf.rows, 0);
            lemma_sum_scales(psf, raise, offset, psf.rows, 0);
            lemma_times(offset, offset, offset);
        }
        lemma_same_matrix(lhs, rhs);
    }
}

/// Blurring commutes with the map to the working range: normalization loses nothing of the
/// blur model.
pub proof fn law_blur_commutes_with_normalization<F: Bm3dFloat>(
    image: Matrix<F>,
    psf: Matrix<F>,
    offset: F,
    scale: F,
)
    requires
        is_exact::<F>(),
        total(psf) == F::one_spec(),
        scale != F::zero_spec(),
    ensures
        blurred(to_working(image, offset, scale), psf) == to_working(
            blurred(image, psf),
            offset,
            scale,
        ),
{
    let gain = F::one_spec().over_spec(scale);
    let lift = F::zero_spec().minus_spec(offset.times_spec(gain));
    law_blur_is_affine_equivariant(image, psf, gain, lift);
    lemma_working_is_relevelled(image, offset, scale);
    lemma_working_is_relevelled(blurred(image, psf), offset, scale);
}

/// The map to the working range is a change of levels.
proof fn lemma_working_is_relevelled<F: Bm3dFloat>(image: Matrix<F>, offset: F, scale: F)
    requires
        is_exact::<F>(),
        scale != F::zero_spec(),
    ensures
        to_working(image, offset, scale) == relevelled(
            image,
            F::one_spec().over_spec(scale),
            F::zero_spec().minus_spec(offset.times_spec(F::one_spec().over_spec(scale))),
        ),
{
    let zero = F::zero_spec();
    let gain = F::one_spec().over_spec(scale);
    let shift = offset.times_spec(gain);
    let lift = zero.minus_spec(shift);
    let work = to_working(image, offset, scale);
    let changed = relevelled(image, gain, lift);
    assert forall|r: int, c: int| work.has(r, c) implies #[trigger] work.at(r, c) == changed.at(
        r,
        c,
    ) by {
        let x = image.at(r, c);
        let y = x.times_spec(gain);
        lemma_over(x.minus_spec(offset), scale);
        lemma_minus_scales(x, offset, gain);
        lemma_plus(y, lift, shift);
        lemma_minus(zero, shift);
        lemma_minus_is_unique(y, shift, y.plus_spec(lift));
    }
    lemma_same_matrix(work, changed);
}

/// The smallest cell is at most as large as every cell that has been passed.
pub proof fn lemma_lowest<F: Bm3dFloat>(m: Matrix<F>, a: nat, b: nat, r: int, c: int)
    requires
        is_exact::<F>(),
        m.has(r, c),
        a < m.rows && b <= m.cols || a == m.rows && b == 0,
        r < a || r == a && c < b,
    ensures
        lowest_before(m, a, b).le_spec(m.at(r, c)),
    decreases a, b,
{
    if b > 0 {
        let low = lowest_before(m, a, (b - 1) as nat);
        let x = m.at(a as int, b - 1);
        let now = lowest_before(m, a, b);
        lemma_order(x, low);
        lemma_order(low, x);
        lemma_order(now, x);
        lemma_order(now, low);
        if !(r == a && c == b - 1) {
            lemma_lowest(m, a, (b - 1) as nat, r, c);
            lemma_order_chains(now, low, m.at(r, c));
        }
    } else {
        lemma_lowest(m, (a - 1) as nat, m.cols, r, c);
    }
}

/// The largest cell is at least as large as every cell that has been passed.
pub proof fn lemma_highest<F: Bm3dFloat>(m: Matrix<F>, a: nat, b: nat, r: int, c: int)
    requires
        is_exact::<F>(),
        m.has(r, c),
        a < m.rows && b <= m.cols || a == m.rows && b == 0,
        r < a || r == a && c < b,
    ensures
        m.at(r, c).le_spec(highest_before(m, a, b)),
    decreases a, b,
{
    if b > 0 {
        let high = highest_before(m, a, (b - 1) as nat);
        let x = m.at(a as int, b - 1);
        let now = highest_before(m, a, b);
        lemma_order(x, high);
        lemma_order(high, x);
        lemma_order(x, now);
        lemma_order(high, now);
        if !(r == a && c == b - 1) {
            lemma_highest(m, a, (b - 1) as nat, r, c);
            lemma_order_chains(m.at(r, c), high, now);
        }
    } else {
        lemma_highest(m, (a - 1) as nat, m.cols, r, c);
    }
}

/// The scale of the working range is positive.
pub proof fn lemma_scale_positive<F: Bm3dFloat>(image: Matrix<F>, enabled: bool)
    requires
        is_exact::<F>(),
    ensures
        F::zero_spec().lt_spec(normalization(image, enabled).1),
        normalization(image, enabled).1 != F::zero_spec(),
{
    let zero = F::zero_spec();
    let scale = normalization(image, enabled).1;
    lemma_one_positive::<F>();
    lemma_decimal::<F>(1, 12);
    lemma_order(zero, epsilon());
    lemma_order(epsilon(), scale);
    lemma_order(zero, scale);
    if epsilon::<F>().lt_spec(scale) {
        lemma_order_chains(zero, epsilon(), scale);
    }
}

/// Going to the working range and back changes nothing.
pub proof fn law_working_range_is_undone<F: Bm3dFloat>(image: Matrix<F>, enabled: bool)
    requires
        is_exact::<F>(),
        image.wf(),
    ensures
        ({
            let (offset, scale) = normalization(image, enabled);
            from_working(to_working(image, offset, scale), offset, scale) == image
        }),
{
    let (offset, scale) = normalization(image, enabled);
    let work = to_working(image, offset, scale);
    let back = from_working(work, offset, scale);
    lemma_scale_positive(image, enabled);
    assert forall|r: int, c: int| back.has(r, c) implies #[trigger] back.at(r, c) == image.at(
        r,
        c,
    ) by {
        lemma_over(image.at(r, c).minus_spec(offset), scale);
        lemma_minus(image.at(r, c), offset);
    }
    lemma_same_matrix(back, image);
}

/// In the working range of an image with finite bounds, all values lie between zero and one.
pub proof fn law_working_range_is_unit<F: Bm3dFloat>(image: Matrix<F>)
    requires
        is_exact::<F>(),
        lowest_before(image, image.rows, 0).is_finite_spec(),
        highest_before(image, image.rows, 0).is_finite_spec(),
    ensures
        ({
            let (offset, scale) = normalization(image, true);
            forall|r: int, c: int|
                image.has(r, c) ==> F::zero_spec().le_spec(
                    #[trigger] to_working(image, offset, scale).at(r, c),
                ) && to_working(image, offset, scale).at(r, c).le_spec(F::one_spec())
        }),
{
    let zero = F::zero_spec();
    let one = F::one_spec();
    let (offset, scale) = normalization(image, true);
    let high = highest_before(image, image.rows, 0);
    let range = high.minus_spec(offset);
    lemma_scale_positive(image, true);
    assert forall|r: int, c: int| image.has(r, c) implies zero.le_spec(
        #[trigger] to_working(image, offset, scale).at(r, c),
    ) && to_working(image, offset, scale).at(r, c).le_spec(one) by {
        let x = image.at(r, c);
        let rise = x.minus_spec(offset);
        let y = rise.over_spec(scale);
        lemma_lowest(image, image.rows, 0, r, c);
        lemma_highest(image, image.rows, 0, r, c);
        // zero <= x - offset <= range <= scale
        lemma_minus_ordered(offset, x, offset);
        lemma_minus(offset, offset);
        lemma_minus_ordered(x, high, offset);
        lemma_decimal::<F>(1, 12);
        lemma_order(epsilon(), range);
        lemma_order(range, epsilon());
        lemma_order(range, scale);
        if !epsilon::<F>().lt_spec(range) {
            lemma_order_chains(range, epsilon(), one);
        }
        lemma_order_chains(rise, range, scale);
        // y * scale == rise
        lemma_over(rise, scale);
        lemma_times_zero(scale);
        lemma_times(scale, scale, scale);
        lemma_times_ordered(zero, y, scale);
        lemma_times_ordered(y, one, scale);
    }
}

/// Subtraction keeps the order.
proof fn lemma_minus_ordered<F: Bm3dFloat>(a: F, b: F, c: F)
    requires
        is_exact::<F>(),
        a.le_spec(b),
    ensures
        a.minus_spec(c).le_spec(b.minus_spec(c)),
{
    assert(exact_at(a, b, c.neg_spec()));
    assert(exact_at(a, c, c));
    assert(exact_at(b, c, c));
    lemma_order(a, b);
    lemma_order(a.minus_spec(c), b.minus_spec(c));
}

/// The mean that is removed before an inversion comes back after it.
pub proof fn law_mean_removal_is_undone<F: Bm3dFloat>(image: Matrix<F>, mean: F)
    requires
        is_exact::<F>(),
        image.wf(),
    ensures
        raised(lowered(image, mean), mean) == image,
{
    let back = raised(lowered(image, mean), mean);
    assert forall|r: int, c: int| back.has(r, c) implies #[trigger] back.at(r, c) == image.at(
        r,
        c,
    ) by {
        lemma_minus(image.at(r, c), mean);
    }
    lemma_same_matrix(back, image);
}

/// Whether `other` is `image` plus a profile of the rows and one of the columns.
pub open spec fn differs_by_trends<F: Bm3dFloat>(
    image: Matrix<F>,
    other: Matrix<F>,
    by_row: Seq<F>,
    by_col: Seq<F>,
) -> bool {
    &&& other.rows == image.rows
    &&& other.cols == image.cols
    &&& forall|r: int, c: int|
        image.has(r, c) ==> #[trigger] other.at(r, c) == image.at(r, c).plus_spec(
            by_row[r].plus_spec(by_col[c]),
        )
}

/// The detail coefficients behind a noise estimate are blind to every profile of the rows and
/// of the columns, such as a constant, a ramp or a smooth shading along an axis.
pub proof fn law_details_are_blind_to_trends<F: Bm3dFloat>(
    image: Matrix<F>,
    other: Matrix<F>,
    by_row: Seq<F>,
    by_col: Seq<F>,
)
    requires
        is_exact::<F>(),
        image.rows >= 2,
        image.cols >= 2,
        differs_by_trends(image, other, by_row, by_col),
    ensures
        haar_samples(other) == haar_samples(image),
{
    let stride = sampling_stride(block_count(image));
    law_samples_are_bounded(image);
    assert forall|k: int| 0 <= k < haar_samples(image).len() implies haar_samples(other)[k]
        == haar_samples(image)[k] by {
        let width = image.cols - 1;
        let r = (k * stride) / width;
        let c = (k * stride) % width;
        lemma_sampled_block(image, k);
        lemma_detail_is_blind(
            image.at(r, c),
            image.at(r, c + 1),
            image.at(r + 1, c),
            image.at(r + 1, c + 1),
            by_row[r],
            by_row[r + 1],
            by_col[c],
            by_col[c + 1],
        );
        assert(image.has(r, c) && image.has(r, c + 1) && image.has(r + 1, c) && image.has(
            r + 1,
            c + 1,
        ));
    }
    assert(haar_samples(other) =~= haar_samples(image));
}

/// The sampled blocks lie in the image.
pub proof fn lemma_sampled_block<F: Bm3dFloat>(image: Matrix<F>, k: int)
    requires
        image.rows >= 2,
        image.cols >= 2,
        0 <= k < haar_samples(image).len(),
    ensures
        ({
            let stride = sampling_stride(block_count(image));
            &&& 0 <= (k * stride) / (image.cols - 1) < image.rows - 1
            &&& 0 <= (k * stride) % (image.cols - 1) < image.cols - 1
        }),
{
    let width = image.cols - 1;
    let height = image.rows - 1;
    let blocks = block_count(image);
    let stride = sampling_stride(blocks);
    law_samples_are_bounded(image);
    assert(height * width >= 1) by (nonlinear_arith)
        requires
            height >= 1,
            width >= 1,
    ;
    lemma_div_is_ordered(
        MAX_SIGMA_SAMPLES as int,
        blocks + MAX_SIGMA_SAMPLES - 1,
        MAX_SIGMA_SAMPLES as int,
    );
    assert(stride >= 1);
    lemma_fundamental_div_mod(blocks + stride - 1, stride);
    lemma_mod_bound(blocks + stride - 1, stride);
    let n = multiples_below(blocks, stride);
    assert(k * stride <= stride * (n - 1)) by (nonlinear_arith)
        requires
            k <= n - 1,
            stride >= 1,
    ;
    assert(stride * (n - 1) == stride * n - stride) by (nonlinear_arith);
    assert(k * stride < blocks);
    assert(k * stride >= 0) by (nonlinear_arith)
        requires
            k >= 0,
            stride >= 1,
    ;
    lemma_fundamental_div_mod(k * stride, width);
    lemma_mod_bound(k * stride, width);
    let r = (k * stride) / width;
    if r >= height {
        assert(width * r >= height * width) by (nonlinear_arith)
            requires
                r >= height,
                width >= 1,
        ;
    }
    if r < 0 {
        assert(width * r <= -width) by (nonlinear_arith)
            requires
                r <= -1,
                width >= 1,
        ;
    }
}

/// The detail of four pixels does not change if the rows and the columns are raised.
proof fn lemma_detail_is_blind<F: Bm3dFloat>(x: F, y: F, z: F, w: F, f: F, h: F, g: F, k: F)
    requires
        is_exact::<F>(),
    ensures
        x.plus_spec(f.plus_spec(g)).minus_spec(y.plus_spec(f.plus_spec(k))).minus_spec(
            z.plus_spec(h.plus_spec(g)),
        ).plus_spec(w.plus_spec(h.plus_spec(k))) == x.minus_spec(y).minus_spec(z).plus_spec(w),
{
    let zero = F::zero_spec();
    let fg = f.plus_spec(g);
    let fk = f.plus_spec(k);
    let hg = h.plus_spec(g);
    let hk = h.plus_spec(k);
    lemma_minus_splits(x, fg, y, fk);
    lemma_minus_splits(x.minus_spec(y), fg.minus_spec(fk), z, hg);
    lemma_plus_crosswise(
        x.minus_spec(y).minus_spec(z),
        fg.minus_spec(fk).minus_spec(hg),
        w,
        hk,
    );
    // The trends themselves have no detail.
    let n = k.neg_spec();
    lemma_minus_splits(f, g, f, k);
    lemma_minus(f, f);
    assert(exact_at(g, k, k));
    assert(exact_at(k, n, n));
    let gk = g.minus_spec(k);
    lemma_plus(gk, gk, gk);
    assert(fg.minus_spec(fk) == g.plus_spec(n));
    lemma_plus(h, g, g);
    lemma_minus_splits(g, n, g, h);
    lemma_minus(g, g);
    let nh = n.minus_spec(h);
    lemma_plus(nh, nh, nh);
    assert(fg.minus_spec(fk).minus_spec(hg) == nh);
    lemma_plus(nh, h, k);
    lemma_minus(n, h);
    assert(nh.plus_spec(hk) == n.plus_spec(k));
    lemma_plus(n, k, k);
    assert(nh.plus_spec(hk) == zero);
    let rest = x.minus_spec(y).minus_spec(z).plus_spec(w);
    lemma_plus(rest, rest, rest);
}

/// Whether the constants 2.7, 1 and 0.005 compare with zero as they should.
pub open spec fn default_constants_have_their_signs<F: Bm3dFloat>() -> bool {
    &&& !F::from_decimal_spec(27, 1).lt_spec(F::zero_spec())
    &&& !F::from_decimal_spec(1, 0).le_spec(F::zero_spec())
    &&& !F::from_decimal_spec(5, 3).le_spec(F::zero_spec())
}

/// The default settings are valid if three constants have their signs.
pub proof fn law_default_settings_are_valid<F: Bm3dFloat>()
    requires
        default_constants_have_their_signs::<F>(),
    ensures
        Bm3dDeblurConfig::<F>::defaults().violation() is None,
{
}

/// The constants in the default settings have their signs if scalars compute exactly.
pub proof fn law_exact_default_constants_have_their_signs<F: Bm3dFloat>()
    requires
        is_exact::<F>(),
    ensures
        default_constants_have_their_signs::<F>(),
{
    let zero = F::zero_spec();
    lemma_decimal::<F>(27, 1);
    lemma_decimal::<F>(1, 0);
    lemma_decimal::<F>(5, 3);
    lemma_order(zero, F::from_decimal_spec(27, 1));
    lemma_order(F::from_decimal_spec(1, 0), zero);
    lemma_order(F::from_decimal_spec(5, 3), zero);
}

/// What the default settings are: the noise level is estimated, the first regularization factor is
/// one and the second a two-hundredth, ten times the threshold is twenty-seven, patches of eight
/// pixels are taken every four pixels and matched sixteen at a time within twenty-four pixels, and
/// both stages run on the mirrored and normalized image.
pub proof fn law_default_settings<F: Bm3dFloat>()
    requires
        is_exact::<F>(),
    ensures
        ({
            let config = Bm3dDeblurConfig::<F>::defaults();
            &&& config.sigma == F::zero_spec()
            &&& config.reg_ri == F::one_spec()
            &&& config.reg_rwi.times_spec(F::usize_as_spec(10)).times_spec(
                F::usize_as_spec(20),
            ) == F::one_spec()
            &&& config.threshold.times_spec(F::usize_as_spec(10)) == F::usize_as_spec(27)
            &&& config.patch_size == 8
            &&& config.step_size == 4
            &&& config.search_window == 24
            &&& config.max_matches == 16
            &&& config.wiener_stage
            &&& config.boundary is Reflect
            &&& config.normalize
        }),
{
    let one = F::one_spec();
    lemma_decimal_is_count::<F>(1);
    assert(count_is_exact::<F>(1));
    lemma_plus(one, one, one);
    assert(decimal_is_exact::<F>(5, 3));
    lemma_twentieth(one);
    lemma_times(F::from_decimal_spec(5, 2), one, one);
    assert(decimal_is_exact::<F>(27, 1));
    lemma_decimal_is_count::<F>(27);
}

/// A Gaussian PSF is separable: its entries are the products of the entries of two horizontal
/// ones.
pub proof fn law_gaussian_psf_is_separable<F: Bm3dFloat>(sigma_rows: F, sigma_cols: F)
    ensures
        gaussian_psf_spec(sigma_rows, sigma_cols).rows == horizontal_psf_spec(sigma_rows).cols,
        gaussian_psf_spec(sigma_rows, sigma_cols).cols == horizontal_psf_spec(sigma_cols).cols,
        forall|r: int, c: int|
            gaussian_psf_spec(sigma_rows, sigma_cols).has(r, c)
                ==> #[trigger] gaussian_psf_spec(sigma_rows, sigma_cols).at(r, c)
                == horizontal_psf_spec(sigma_rows).at(0, r).times_spec(
                horizontal_psf_spec(sigma_cols).at(0, c),
            ),
{
}

/// Exchanging its two standard deviations transposes a Gaussian PSF.
pub proof fn law_gaussian_psf_transposes<F: Bm3dFloat>(sigma_rows: F, sigma_cols: F)
    requires
        products_commute::<F>(),
    ensures
        gaussian_psf_spec(sigma_cols, sigma_rows).rows == gaussian_psf_spec(
            sigma_rows,
            sigma_cols,
        ).cols,
        gaussian_psf_spec(sigma_cols, sigma_rows).cols == gaussian_psf_spec(
            sigma_rows,
            sigma_cols,
        ).rows,
        forall|r: int, c: int|
            gaussian_psf_spec(sigma_rows, sigma_cols).has(r, c)
                ==> #[trigger] gaussian_psf_spec(sigma_rows, sigma_cols).at(r, c)
                == gaussian_psf_spec(sigma_cols, sigma_rows).at(c, r),
{
    let psf = gaussian_psf_spec(sigma_rows, sigma_cols);
    let other = gaussian_psf_spec(sigma_cols, sigma_rows);
    assert forall|r: int, c: int| psf.has(r, c) implies #[trigger] psf.at(r, c) == other.at(
        c,
        r,
    ) by {
        let x = gaussian_kernel(sigma_rows)[r];
        let y = gaussian_kernel(sigma_cols)[c];
        assert(x.times_spec(y) == y.times_spec(x));
    }
}

/// A Gaussian PSF without extent across the rows is the horizontal one.
pub proof fn law_flat_gaussian_psf_is_horizontal<F: Bm3dFloat>(sigma_rows: F, sigma_cols: F)
    requires
        one_is_neutral::<F>(),
        sigma_rows.le_spec(F::zero_spec()),
    ensures
        gaussian_psf_spec(sigma_rows, sigma_cols) == horizontal_psf_spec(sigma_cols),
{
    let psf = gaussian_psf_spec(sigma_rows, sigma_cols);
    let row = horizontal_psf_spec(sigma_cols);
    assert(gaussian_kernel(sigma_rows) == seq![F::one_spec()]);
    assert forall|r: int, c: int| psf.has(r, c) implies #[trigger] psf.at(r, c) == row.at(r, c) by {
        let x = gaussian_kernel(sigma_cols)[c];
        assert(F::one_spec().times_spec(x) == x);
    }
    lemma_same_matrix(psf, row);
}

/// The Gaussian weights on both sides of the centre are the same.
proof fn lemma_gaussian_weight_is_even<F: Bm3dFloat>(sigma: F, offset: int)
    requires
        signs_are_symmetric::<F>(),
        sigma != F::zero_spec(),
        0 <= offset <= isize::MAX,
    ensures
        gaussian_weight(sigma, -offset) == gaussian_weight(sigma, offset),
{
    if offset > 0 {
        let half = F::from_decimal_spec((-5) as i64, 1);
        let a = F::isize_as_spec(offset as isize);
        let x = a.over_spec(sigma);
        let y = half.times_spec(x);
        assert(signs_are_symmetric_at(a, sigma, offset as usize));
        assert(F::isize_as_spec((-offset) as isize) == a.neg_spec());
        // The quotient changes its sign, and so does the first product; the second does not.
        assert(signs_are_symmetric_at(half, x, 0));
        assert(signs_are_symmetric_at(y.neg_spec(), x, 0));
        assert(signs_are_symmetric_at(y, x, 0));
        assert(signs_are_symmetric_at(y.times_spec(x), x, 0));
    }
}

/// A Gaussian kernel is symmetric about its middle.
pub proof fn law_gaussian_kernel_is_symmetric<F: Bm3dFloat>(sigma: F)
    requires
        signs_are_symmetric::<F>(),
        gaussian_len(sigma) <= MAX_CELLS,
    ensures
        forall|i: int|
            0 <= i < gaussian_kernel(sigma).len() ==> #[trigger] gaussian_kernel(sigma)[i]
                == gaussian_kernel(sigma)[gaussian_kernel(sigma).len() - 1 - i],
{
    let kernel = gaussian_kernel(sigma);
    if !sigma.le_spec(F::zero_spec()) {
        let weights = gaussian_weights(sigma);
        let radius = gaussian_radius_spec(sigma);
        assert forall|i: int| 0 <= i < kernel.len() implies #[trigger] kernel[i]
            == kernel[kernel.len() - 1 - i] by {
            let offset = i - radius;
            assert(kernel.len() - 1 - i - radius == -offset);
            if offset < 0 {
                lemma_gaussian_weight_is_even(sigma, -offset);
            } else {
                lemma_gaussian_weight_is_even(sigma, offset);
            }
            assert(weights[i] == weights[kernel.len() - 1 - i]);
        }
    }
}

/// A Gaussian PSF is symmetric about its centre along both axes.
pub proof fn law_gaussian_psf_is_symmetric<F: Bm3dFloat>(sigma_rows: F, sigma_cols: F)
    requires
        signs_are_symmetric::<F>(),
        gaussian_len(sigma_rows) <= MAX_CELLS,
        gaussian_len(sigma_cols) <= MAX_CELLS,
    ensures
        ({
            let psf = gaussian_psf_spec(sigma_rows, sigma_cols);
            forall|r: int, c: int|
                psf.has(r, c) ==> #[trigger] psf.at(r, c) == psf.at(psf.rows - 1 - r, c)
                    && psf.at(r, c) == psf.at(r, psf.cols - 1 - c)
        }),
{
    law_gaussian_kernel_is_symmetric(sigma_rows);
    law_gaussian_kernel_is_symmetric(sigma_cols);
    let psf = gaussian_psf_spec(sigma_rows, sigma_cols);
    assert forall|r: int, c: int| psf.has(r, c) implies #[trigger] psf.at(r, c) == psf.at(
        psf.rows - 1 - r,
        c,
    ) && psf.at(r, c) == psf.at(r, psf.cols - 1 - c) by {
        assert(gaussian_kernel(sigma_rows)[r] == gaussian_kernel(sigma_rows)[psf.rows - 1 - r]);
        assert(gaussian_kernel(sigma_cols)[c] == gaussian_kernel(sigma_cols)[psf.cols - 1 - c]);
    }
}

/// Every entry of a Gaussian kernel is the middle entry times the weight of its distance from
/// the middle.
pub proof fn law_gaussian_kernel_scales_from_its_middle<F: Bm3dFloat>(sigma: F)
    requires
        is_exact::<F>(),
        F::zero_spec().exp_spec() == F::one_spec(),
        !sigma.le_spec(F::zero_spec()),
    ensures
        forall|i: int|
            0 <= i < gaussian_kernel(sigma).len() ==> #[trigger] gaussian_kernel(sigma)[i]
                == gaussian_kernel(sigma)[gaussian_radius_spec(sigma)].times_spec(
                gaussian_weight(sigma, i - gaussian_radius_spec(sigma)),
            ),
{
    let zero = F::zero_spec();
    let one = F::one_spec();
    let kernel = gaussian_kernel(sigma);
    let weights = gaussian_weights(sigma);
    let radius = gaussian_radius_spec(sigma);
    let sum = sum_of_first(weights, weights.len());
    // The weight in the middle is one.
    let half = F::from_decimal_spec((-5) as i64, 1);
    assert(count_is_exact::<F>(0));
    lemma_order(sigma, zero);
    lemma_times_zero(sigma);
    lemma_over(zero, sigma);
    lemma_times_cancels(zero.over_spec(sigma), zero, sigma);
    lemma_times_zero(half);
    lemma_times_zero(zero);
    assert(weights[radius] == gaussian_weight(sigma, 0));
    assert(weights[radius] == one);
    assert forall|i: int| 0 <= i < kernel.len() implies #[trigger] kernel[i]
        == kernel[radius].times_spec(gaussian_weight(sigma, i - radius)) by {
        let w = weights[i];
        lemma_times(w, w, w);
        lemma_order(zero, sum);
        if zero.lt_spec(sum) {
            let share = one.over_spec(sum);
            lemma_over(w, sum);
            lemma_times(w, share, share);
        }
    }
}

/// A Gaussian kernel has its peak in the middle, if exponentials are positive and those of values
/// that are not positive are at most one.
pub proof fn law_gaussian_kernel_peaks_in_its_middle<F: Bm3dFloat>(sigma: F)
    requires
        is_exact::<F>(),
        exponentials_are_positive::<F>(),
        F::zero_spec().exp_spec() == F::one_spec(),
        forall|x: F| x.le_spec(F::zero_spec()) ==> (#[trigger] x.exp_spec()).le_spec(F::one_spec()),
        !sigma.le_spec(F::zero_spec()),
    ensures
        forall|i: int|
            0 <= i < gaussian_kernel(sigma).len() ==> (#[trigger] gaussian_kernel(
                sigma,
            )[i]).le_spec(gaussian_kernel(sigma)[gaussian_radius_spec(sigma)]),
{
    let zero = F::zero_spec();
    let one = F::one_spec();
    let kernel = gaussian_kernel(sigma);
    let weights = gaussian_weights(sigma);
    let radius = gaussian_radius_spec(sigma);
    let sum = sum_of_first(weights, weights.len());
    let half = F::from_decimal_spec((-5) as i64, 1);
    let middle = kernel[radius];
    law_gaussian_kernel_scales_from_its_middle(sigma);
    // The middle entry is positive.
    assert forall|i: int| 0 <= i < weights.len() implies zero.lt_spec(#[trigger] weights[i]) by {
        let x = F::isize_as_spec((i - radius) as isize).over_spec(sigma);
        assert(zero.lt_spec(half.times_spec(x).times_spec(x).exp_spec()));
    }
    lemma_sequence_positive(weights, weights.len());
    lemma_order(zero, sum);
    lemma_over(weights[radius], sum);
    lemma_times_zero(sum);
    lemma_times_ordered(zero, middle, sum);
    assert(zero.lt_spec(middle));
    lemma_decimal_sign::<F>((-5) as i64, 1);
    assert forall|i: int| 0 <= i < kernel.len() implies (#[trigger] kernel[i]).le_spec(middle) by {
        let x = F::isize_as_spec((i - radius) as isize).over_spec(sigma);
        let square = x.times_spec(x);
        let exponent = half.times_spec(x).times_spec(x);
        let w = gaussian_weight(sigma, i - radius);
        lemma_times(half, x, x);
        lemma_square_not_negative(x);
        lemma_order(zero, square);
        lemma_order(exponent, zero);
        lemma_times_zero(half);
        if zero.lt_spec(square) {
            lemma_times_ordered(half, zero, square);
            lemma_times_zero(square);
        }
        assert(exponent.le_spec(zero));
        assert(w == exponent.exp_spec());
        assert(w.le_spec(one));
        lemma_times_ordered(w, one, middle);
        lemma_times(middle, w, w);
        lemma_times(middle, middle, middle);
    }
}

/// A noise estimate is blind to every profile of the rows and of the columns: what may be
/// estimated for an image may be estimated with the profiles added, and nothing else.
pub proof fn law_noise_estimate_is_blind_to_trends<F: Bm3dFloat, E: Fn(&Vec<F>) -> F>(
    estimator: E,
    image: Matrix<F>,
    other: Matrix<F>,
    by_row: Seq<F>,
    by_col: Seq<F>,
)
    requires
        is_exact::<F>(),
        differs_by_trends(image, other, by_row, by_col),
    ensures
        forall|sigma: F| #[trigger]
            is_white_noise_sigma(estimator, other, sigma) == is_white_noise_sigma(
                estimator,
                image,
                sigma,
            ),
{
    if image.rows >= 2 && image.cols >= 2 {
        law_details_are_blind_to_trends(image, other, by_row, by_col);
    }
}

/// Whether an estimator has a single answer for every image.
pub open spec fn estimator_is_function<F: Bm3dFloat, E: Fn(&Vec<F>) -> F>(estimator: E) -> bool {
    forall|image: Matrix<F>, a: F, b: F|
        #[trigger] is_white_noise_sigma(estimator, image, a)
            && #[trigger] is_white_noise_sigma(estimator, image, b) ==> a == b
}

/// An estimator with a single answer gives the same noise level with and without profiles of
/// the rows and of the columns.
pub proof fn law_noise_level_ignores_trends<F: Bm3dFloat, E: Fn(&Vec<F>) -> F>(
    estimator: E,
    image: Matrix<F>,
    other: Matrix<F>,
    by_row: Seq<F>,
    by_col: Seq<F>,
    a: F,
    b: F,
)
    requires
        is_exact::<F>(),
        estimator_is_function(estimator),
        differs_by_trends(image, other, by_row, by_col),
        is_white_noise_sigma(estimator, image, a),
        is_white_noise_sigma(estimator, other, b),
    ensures
        a == b,
{
    law_noise_estimate_is_blind_to_trends(estimator, image, other, by_row, by_col);
}

} // verus!
