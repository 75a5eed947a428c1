//! The detail coefficients behind a noise estimate, block by block.
//!
//! The laws here are stated for scalars that compute exactly.

use crate::exact::{
    exact_at, is_exact, lemma_half, lemma_minus, lemma_minus_scales, lemma_minus_splits,
    lemma_over, lemma_plus, lemma_times,
};
use crate::float_trait::Bm3dFloat;
use crate::grid::Matrix;
use crate::laws::lemma_sampled_block;
use crate::levels::to_working;
use crate::noise::{
    block_count, haar_samples, law_samples_are_bounded, multiples_below, sampling_stride,
    MAX_SIGMA_SAMPLES,
};
use vstd::arithmetic::div_mod::{
    lemma_div_is_ordered, lemma_fundamental_div_mod, lemma_fundamental_div_mod_converse,
    lemma_mod_bound,
};
use vstd::prelude::*;

verus! {

/// Which blocks are sampled: the numbers of the blocks, counted row by row, are the multiples of
/// a stride. The stride is the smallest that keeps the samples to one million, and no block with
/// such a number is left out.
pub proof fn law_every_nth_block_is_sampled<F: Bm3dFloat>(image: Matrix<F>, r: int, c: int, k: int)
    requires
        is_exact::<F>(),
        image.rows >= 2,
        image.cols >= 2,
        0 <= r < image.rows - 1,
        0 <= c < image.cols - 1,
        r * (image.cols - 1) + c == k * sampling_stride((image.rows - 1) * (image.cols - 1)),
    ensures
        ({
            let blocks = (image.rows - 1) * (image.cols - 1);
            let stride = sampling_stride(blocks);
            let samples = haar_samples(image);
            &&& (stride - 1) * 1_000_000 < blocks <= stride * 1_000_000
            &&& (samples.len() - 1) * stride < blocks <= samples.len() * stride
            &&& 0 <= k < samples.len()
            &&& samples[k].plus_spec(samples[k]) == image.at(r, c).minus_spec(
                image.at(r, c + 1),
            ).minus_spec(image.at(r + 1, c)).plus_spec(image.at(r + 1, c + 1))
        }),
{
    let width = image.cols - 1;
    let blocks = (image.rows - 1) * width;
    let most = MAX_SIGMA_SAMPLES as int;
    let stride = sampling_stride(blocks);
    let n = haar_samples(image).len() as int;
    assert(block_count(image) == blocks);
    law_samples_are_bounded(image);
    assert(blocks >= 1) by (nonlinear_arith)
        requires
            blocks == (image.rows - 1) * width,
            image.rows >= 2,
            width >= 1,
    ;
    lemma_fundamental_div_mod(blocks + most - 1, most);
    lemma_mod_bound(blocks + most - 1, most);
    assert((stride - 1) * most == most * stride - most && stride * most == most * stride)
        by (nonlinear_arith);
    lemma_div_is_ordered(most, blocks + most - 1, most);
    assert(stride >= 1);
    assert(n == multiples_below(blocks, stride));
    lemma_fundamental_div_mod(blocks + stride - 1, stride);
    lemma_mod_bound(blocks + stride - 1, stride);
    assert((n - 1) * stride == stride * n - stride && n * stride == stride * n)
        by (nonlinear_arith);
    // The number of the block lies below the number of blocks.
    assert(0 <= r * width && r * width + c < blocks) by (nonlinear_arith)
        requires
            blocks == (image.rows - 1) * width,
            0 <= r < image.rows - 1,
            0 <= c < width,
    ;
    if k >= n {
        assert(k * stride >= n * stride) by (nonlinear_arith)
            requires
                k >= n,
                stride >= 1,
        ;
    }
    if k < 0 {
        assert(k * stride < 0) by (nonlinear_arith)
            requires
                k < 0,
                stride >= 1,
        ;
    }
    lemma_fundamental_div_mod_converse(k * stride, width, r, c);
    lemma_half(
        image.at(r, c).minus_spec(image.at(r, c + 1)).minus_spec(image.at(r + 1, c)).plus_spec(
            image.at(r + 1, c + 1),
        ),
    );
}

/// Without more than one million blocks every block has its sample, at its place in row
/// by row order, and twice the sample is `z[r,c] - z[r,c+1] - z[r+1,c] + z[r+1,c+1]`.
pub proof fn law_every_block_is_sampled<F: Bm3dFloat>(image: Matrix<F>, r: int, c: int)
    requires
        is_exact::<F>(),
        0 <= r < image.rows - 1,
        0 <= c < image.cols - 1,
        (image.rows - 1) * (image.cols - 1) <= 1_000_000,
    ensures
        ({
            let samples = haar_samples(image);
            let k = r * (image.cols - 1) + c;
            &&& samples.len() == (image.rows - 1) * (image.cols - 1)
            &&& 0 <= k < samples.len()
            &&& samples[k].plus_spec(samples[k]) == image.at(r, c).minus_spec(
                image.at(r, c + 1),
            ).minus_spec(image.at(r + 1, c)).plus_spec(image.at(r + 1, c + 1))
        }),
{
    let blocks = (image.rows - 1) * (image.cols - 1);
    let most = MAX_SIGMA_SAMPLES as int;
    let k = r * (image.cols - 1) + c;
    assert(block_count(image) == blocks);
    law_samples_are_bounded(image);
    assert(blocks >= 1) by (nonlinear_arith)
        requires
            blocks == (image.rows - 1) * (image.cols - 1),
            image.rows >= 2,
            image.cols >= 2,
    ;
    lemma_fundamental_div_mod_converse(blocks + most - 1, most, 1, blocks - 1);
    assert(sampling_stride(blocks) == 1);
    assert(k == k * 1) by (nonlinear_arith);
    law_every_nth_block_is_sampled(image, r, c, k);
}

/// Raising one pixel by `d` raises twice the samples of the two blocks that hold it in their
/// first or in their last corner by `d`, lowers twice those of the two other blocks around it by
/// `d`, and leaves all other samples as they are.
pub proof fn law_a_pixel_shows_in_its_four_blocks<F: Bm3dFloat>(
    image: Matrix<F>,
    other: Matrix<F>,
    p: int,
    q: int,
    d: F,
    r: int,
    c: int,
)
    requires
        is_exact::<F>(),
        0 <= r < image.rows - 1,
        0 <= c < image.cols - 1,
        (image.rows - 1) * (image.cols - 1) <= 1_000_000,
        image.has(p, q),
        other.rows == image.rows,
        other.cols == image.cols,
        other.at(p, q) == image.at(p, q).plus_spec(d),
        forall|i: int, j: int|
            image.has(i, j) && !(i == p && j == q) ==> #[trigger] other.at(i, j) == image.at(i, j),
    ensures
        ({
            let k = r * (image.cols - 1) + c;
            let before = haar_samples(image)[k].plus_spec(haar_samples(image)[k]);
            let after = haar_samples(other)[k].plus_spec(haar_samples(other)[k]);
            &&& (r == p && c == q) || (r == p - 1 && c == q - 1) ==> after == before.plus_spec(d)
            &&& (r == p && c == q - 1) || (r == p - 1 && c == q) ==> after == before.minus_spec(d)
            &&& !(p - 1 <= r <= p && q - 1 <= c <= q) ==> after == before
        }),
{
    law_every_block_is_sampled(image, r, c);
    law_every_block_is_sampled(other, r, c);
    let x = image.at(r, c);
    let y = image.at(r, c + 1);
    let z = image.at(r + 1, c);
    let w = image.at(r + 1, c + 1);
    assert(image.has(r, c) && image.has(r, c + 1) && image.has(r + 1, c) && image.has(
        r + 1,
        c + 1,
    ));
    lemma_detail_follows_its_corners(x, y, z, w, d);
}

/// The detail of four pixels follows each of them.
proof fn lemma_detail_follows_its_corners<F: Bm3dFloat>(x: F, y: F, z: F, w: F, d: F)
    requires
        is_exact::<F>(),
    ensures
        ({
            let detail = x.minus_spec(y).minus_spec(z).plus_spec(w);
            &&& x.plus_spec(d).minus_spec(y).minus_spec(z).plus_spec(w) == detail.plus_spec(d)
            &&& x.minus_spec(y.plus_spec(d)).minus_spec(z).plus_spec(w) == detail.minus_spec(d)
            &&& x.minus_spec(y).minus_spec(z.plus_spec(d)).plus_spec(w) == detail.minus_spec(d)
            &&& x.minus_spec(y).minus_spec(z).plus_spec(w.plus_spec(d)) == detail.plus_spec(d)
        }),
{
    let zero = F::zero_spec();
    let m = d.neg_spec();
    let xy = x.minus_spec(y);
    let xyz = xy.minus_spec(z);
    assert(exact_at(zero, d, d));
    assert(exact_at(d, zero, zero));
    assert(exact_at(xyz.plus_spec(w), d, d));
    lemma_plus(m, m, m);
    lemma_plus(x, x, x);
    lemma_plus(y, y, y);
    lemma_plus(z, z, z);
    lemma_plus(xy, xy, xy);
    lemma_minus(d, zero);
    lemma_minus(m, zero);
    // The first corner.
    lemma_minus_splits(x, d, y, zero);
    lemma_minus_splits(xy, d, z, zero);
    lemma_plus(xyz, d, w);
    lemma_plus(d, w, w);
    lemma_plus(xyz, w, d);
    // The corner on its right.
    lemma_minus_splits(x, zero, y, d);
    lemma_minus_splits(xy, m, z, zero);
    lemma_plus(xyz, m, w);
    lemma_plus(m, w, w);
    lemma_plus(xyz, w, m);
    // The corner below it.
    lemma_minus_splits(xy, zero, z, d);
}

/// The details of an image in working units are those of the image over the scale: the offset
/// does not show, and a noise level that is estimated in working units is one in input units once
/// it is multiplied by the scale.
pub proof fn law_details_follow_the_scale<F: Bm3dFloat>(
    image: Matrix<F>,
    offset: F,
    scale: F,
    k: int,
)
    requires
        is_exact::<F>(),
        image.rows >= 2,
        image.cols >= 2,
        scale != F::zero_spec(),
        0 <= k < haar_samples(image).len(),
    ensures
        haar_samples(to_working(image, offset, scale)).len() == haar_samples(image).len(),
        haar_samples(to_working(image, offset, scale))[k].times_spec(scale) == haar_samples(
            image,
        )[k],
{
    let work = to_working(image, offset, scale);
    let stride = sampling_stride(block_count(image));
    let r = (k * stride) / (image.cols - 1);
    let c = (k * stride) % (image.cols - 1);
    let half = F::from_decimal_spec(5, 1);
    lemma_sampled_block(image, k);
    let x = image.at(r, c);
    let y = image.at(r, c + 1);
    let z = image.at(r + 1, c);
    let w = image.at(r + 1, c + 1);
    let a = work.at(r, c);
    let b = work.at(r, c + 1);
    let e = work.at(r + 1, c);
    let f = work.at(r + 1, c + 1);
    lemma_over(x.minus_spec(offset), scale);
    lemma_over(y.minus_spec(offset), scale);
    lemma_over(z.minus_spec(offset), scale);
    lemma_over(w.minus_spec(offset), scale);
    lemma_minus_scales(a, b, scale);
    lemma_minus_scales(a.minus_spec(b), e, scale);
    lemma_times(a.minus_spec(b).minus_spec(e), f, scale);
    lemma_offset_drops_out(x, y, z, w, offset);
    let detail = a.minus_spec(b).minus_spec(e).plus_spec(f);
    lemma_times(detail, half, scale);
    lemma_times(half, scale, scale);
    lemma_times(detail, scale, half);
}

/// A level that all four pixels have in common drops out of their detail.
proof fn lemma_offset_drops_out<F: Bm3dFloat>(x: F, y: F, z: F, w: F, o: F)
    requires
        is_exact::<F>(),
    ensures
        x.minus_spec(o).minus_spec(y.minus_spec(o)).minus_spec(z.minus_spec(o)).plus_spec(
            w.minus_spec(o),
        ) == x.minus_spec(y).minus_spec(z).plus_spec(w),
{
    let n = o.neg_spec();
    assert(exact_at(x, o, o));
    assert(exact_at(y, o, o));
    assert(exact_at(z, o, o));
    assert(exact_at(w, o, o));
    lemma_detail_follows_its_corners(x, y.plus_spec(n), z.plus_spec(n), w.plus_spec(n), n);
    lemma_detail_follows_its_corners(x, y, z.plus_spec(n), w.plus_spec(n), n);
    lemma_detail_follows_its_corners(x, y, z, w.plus_spec(n), n);
    lemma_detail_follows_its_corners(x, y, z, w, n);
    // The detail is raised for the first pixel and lowered for the second, then the other way.
    let d = x.minus_spec(y).minus_spec(z).plus_spec(w);
    lemma_minus(d, n);
}

} // verus!
