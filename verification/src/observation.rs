//! The observation model: what the transfer function stands for.
//!
//! A filter in the frequency domain acts as a circular convolution. The laws here say, for
//! scalars that compute exactly, that the circular convolution behind the transfer function is
//! the blur of [`crate::psf::blur_with_psf`].

use crate::complex::Complex;
use crate::config::DeblurBoundary;
use crate::exact::{
    is_exact, law_exact_scalars_obey_weaker_rules, lemma_plus, lemma_times, lemma_times_zero,
    zero_is_neutral,
};
use crate::float_trait::Bm3dFloat;
use crate::grid::{lemma_same_matrix, partial_sum, total, Grid, Matrix};
use crate::padding::{law_padding_leaves_room, margin, margins, padded};
use crate::psf::{blurred, contributions};
use crate::spectral::{
    complex_of, filtered, gathered_before, is_fft, is_ifft, placed_psf, wrapped_positions,
};
use crate::sums::{lemma_sum_of_changed, lemma_sum_of_same, lemma_sum_of_zeros};
use crate::white_noise::{constant, impulse, impulse_to_constant};
use vstd::arithmetic::div_mod::{
    lemma_fundamental_div_mod, lemma_mod_bound, lemma_small_mod, lemma_sub_mod_noop_right,
};
use vstd::prelude::*;

verus! {

/// The terms of pixel `(i, j)` of a circular convolution.
pub open spec fn circular_terms<F: Bm3dFloat>(
    image: Matrix<F>,
    kernel: Matrix<F>,
    i: int,
    j: int,
) -> Matrix<F> {
    Matrix::from_fn(
        kernel.rows,
        kernel.cols,
        |p: int, q: int|
            kernel.at(p, q).times_spec(
                image.at((i - p) % image.rows as int, (j - q) % image.cols as int),
            ),
    )
}

/// The circular convolution of an image with a kernel whose centre lies in cell `(0, 0)`.
pub open spec fn circular_convolution<F: Bm3dFloat>(
    image: Matrix<F>,
    kernel: Matrix<F>,
) -> Matrix<F> {
    Matrix::from_fn(
        image.rows,
        image.cols,
        |i: int, j: int| total(circular_terms(image, kernel, i, j)),
    )
}

/// What has been gathered in every cell before `(a, b)`, weighted.
pub open spec fn weighted_gathering<F: Bm3dFloat>(
    values: Matrix<F>,
    row_to: Seq<int>,
    col_to: Seq<int>,
    weight: Matrix<F>,
    a: nat,
    b: nat,
) -> Matrix<F> {
    Matrix::from_fn(
        weight.rows,
        weight.cols,
        |p: int, q: int|
            gathered_before(values, row_to, col_to, p, q, a, b).times_spec(weight.at(p, q)),
    )
}

/// The values, each weighted like the cell that it is sent to.
pub open spec fn weighted_values<F: Bm3dFloat>(
    values: Matrix<F>,
    row_to: Seq<int>,
    col_to: Seq<int>,
    weight: Matrix<F>,
) -> Matrix<F> {
    Matrix::from_fn(
        values.rows,
        values.cols,
        |r: int, c: int| values.at(r, c).times_spec(weight.at(row_to[r], col_to[c])),
    )
}

/// A weighted sum over the cells in which values have been gathered is the sum of the values,
/// each weighted like the cell that it was sent to.
pub proof fn lemma_weighted_gathering<F: Bm3dFloat>(
    values: Matrix<F>,
    row_to: Seq<int>,
    col_to: Seq<int>,
    weight: Matrix<F>,
    a: nat,
    b: nat,
)
    requires
        is_exact::<F>(),
        row_to.len() == values.rows,
        col_to.len() == values.cols,
        forall|r: int| 0 <= r < row_to.len() ==> 0 <= #[trigger] row_to[r] < weight.rows,
        forall|c: int| 0 <= c < col_to.len() ==> 0 <= #[trigger] col_to[c] < weight.cols,
        a < values.rows && b <= values.cols || a == values.rows && b == 0,
    ensures
        total(weighted_gathering(values, row_to, col_to, weight, a, b)) == partial_sum(
            weighted_values(values, row_to, col_to, weight),
            a,
            b,
        ),
    decreases a, b,
{
    let now = weighted_gathering(values, row_to, col_to, weight, a, b);
    let terms = weighted_values(values, row_to, col_to, weight);
    if b > 0 {
        let e = (b - 1) as nat;
        let before = weighted_gathering(values, row_to, col_to, weight, a, e);
        lemma_weighted_gathering(values, row_to, col_to, weight, a, e);
        let p = row_to[a as int];
        let q = col_to[b - 1];
        let x = values.at(a as int, b - 1);
        lemma_times(gathered_before(values, row_to, col_to, p, q, a, e), x, weight.at(p, q));
        lemma_sum_of_changed(
            before,
            now,
            p,
            q,
            x.times_spec(weight.at(p, q)),
            weight.rows,
            0,
        );
        assert(terms.at(a as int, b - 1) == x.times_spec(weight.at(p, q)));
    } else if a > 0 {
        let before = weighted_gathering(
            values,
            row_to,
            col_to,
            weight,
            (a - 1) as nat,
            values.cols,
        );
        lemma_weighted_gathering(values, row_to, col_to, weight, (a - 1) as nat, values.cols);
        lemma_sum_of_same(before, now, weight.rows, 0);
    } else {
        assert forall|p: int, q: int| now.has(p, q) implies #[trigger] now.at(p, q)
            == F::zero_spec() by {
            lemma_times_zero(weight.at(p, q));
        }
        lemma_sum_of_zeros(now, weight.rows, 0);
    }
}

/// Wrapped positions are cells of the axis.
pub proof fn lemma_wrapped_inside(n: nat, center: int, len: int)
    requires
        len > 0,
    ensures
        forall|k: int|
            0 <= k < n ==> 0 <= #[trigger] wrapped_positions(n, center, len)[k] < len,
{
    assert forall|k: int| 0 <= k < n implies 0 <= #[trigger] wrapped_positions(n, center, len)[k]
        < len by {
        lemma_mod_bound(k - center, len);
    }
}

/// The PSF on the grid has the sum of the PSF, whatever the size of the grid: the transfer
/// function of a PSF that sums to one leaves the mean level alone.
pub proof fn law_placed_psf_keeps_sum<F: Bm3dFloat>(psf: Matrix<F>, rows: nat, cols: nat)
    requires
        is_exact::<F>(),
        rows > 0,
        cols > 0,
    ensures
        total(placed_psf(psf, rows, cols)) == total(psf),
{
    let row_to = wrapped_positions(psf.rows, psf.rows as int / 2, rows as int);
    let col_to = wrapped_positions(psf.cols, psf.cols as int / 2, cols as int);
    let ones = Matrix::from_fn(rows, cols, |p: int, q: int| F::one_spec());
    let placed = placed_psf(psf, rows, cols);
    lemma_wrapped_inside(psf.rows, psf.rows as int / 2, rows as int);
    lemma_wrapped_inside(psf.cols, psf.cols as int / 2, cols as int);
    lemma_weighted_gathering(psf, row_to, col_to, ones, psf.rows, 0);
    let gathering = weighted_gathering(psf, row_to, col_to, ones, psf.rows, 0);
    assert forall|p: int, q: int| placed.has(p, q) implies #[trigger] placed.at(p, q)
        == gathering.at(p, q) by {
        lemma_times(placed.at(p, q), placed.at(p, q), placed.at(p, q));
    }
    lemma_sum_of_same(placed, gathering, rows, 0);
    let terms = weighted_values(psf, row_to, col_to, ones);
    assert forall|r: int, c: int| psf.has(r, c) implies #[trigger] psf.at(r, c) == terms.at(
        r,
        c,
    ) by {
        assert(0 <= row_to[r] < rows && 0 <= col_to[c] < cols);
        lemma_times(psf.at(r, c), psf.at(r, c), psf.at(r, c));
    }
    lemma_sum_of_same(psf, terms, psf.rows, 0);
}

/// The terms of pixel `(i, j)` of an image that is blurred circularly, one for each entry of the
/// PSF, whose centre lies at `(rows / 2, cols / 2)`.
pub open spec fn wrapped_contributions<F: Bm3dFloat>(
    image: Matrix<F>,
    psf: Matrix<F>,
    i: int,
    j: int,
) -> Matrix<F> {
    Matrix::from_fn(
        psf.rows,
        psf.cols,
        |r: int, c: int|
            psf.at(r, c).times_spec(
                image.at(
                    (i - (r - psf.rows as int / 2)) % image.rows as int,
                    (j - (c - psf.cols as int / 2)) % image.cols as int,
                ),
            ),
    )
}

/// The image convolved with the PSF under periodic boundaries.
pub open spec fn circularly_blurred<F: Bm3dFloat>(image: Matrix<F>, psf: Matrix<F>) -> Matrix<F> {
    Matrix::from_fn(
        image.rows,
        image.cols,
        |i: int, j: int| total(wrapped_contributions(image, psf, i, j)),
    )
}

/// The circular convolution with the PSF on the grid is the blur with the PSF under periodic
/// boundaries, for every image and for a PSF of any size.
pub proof fn law_placed_psf_blurs_circularly<F: Bm3dFloat>(image: Matrix<F>, psf: Matrix<F>)
    requires
        is_exact::<F>(),
        !image.is_empty(),
    ensures
        circular_convolution(image, placed_psf(psf, image.rows, image.cols)) == circularly_blurred(
            image,
            psf,
        ),
{
    let rows = image.rows as int;
    let cols = image.cols as int;
    let placed = placed_psf(psf, image.rows, image.cols);
    let center_r = psf.rows as int / 2;
    let center_c = psf.cols as int / 2;
    let row_to = wrapped_positions(psf.rows, center_r, rows);
    let col_to = wrapped_positions(psf.cols, center_c, cols);
    lemma_wrapped_inside(psf.rows, center_r, rows);
    lemma_wrapped_inside(psf.cols, center_c, cols);
    let lhs = circular_convolution(image, placed);
    let rhs = circularly_blurred(image, psf);
    assert forall|i: int, j: int| lhs.has(i, j) implies #[trigger] lhs.at(i, j) == rhs.at(i, j) by {
        let weight = Matrix::from_fn(
            image.rows,
            image.cols,
            |p: int, q: int| image.at((i - p) % rows, (j - q) % cols),
        );
        let terms = circular_terms(image, placed, i, j);
        let gathering = weighted_gathering(psf, row_to, col_to, weight, psf.rows, 0);
        assert forall|p: int, q: int| terms.has(p, q) implies #[trigger] terms.at(p, q)
            == gathering.at(p, q) by {
            assert(weight.at(p, q) == image.at((i - p) % rows, (j - q) % cols));
            assert(placed.at(p, q) == gathered_before(psf, row_to, col_to, p, q, psf.rows, 0));
        }
        lemma_sum_of_same(terms, gathering, image.rows, 0);
        lemma_weighted_gathering(psf, row_to, col_to, weight, psf.rows, 0);
        let weighted = weighted_values(psf, row_to, col_to, weight);
        let direct = wrapped_contributions(image, psf, i, j);
        assert forall|r: int, c: int| direct.has(r, c) implies #[trigger] direct.at(r, c)
            == weighted.at(r, c) by {
            let dr = r - center_r;
            let dc = c - center_c;
            assert(row_to[r] == dr % rows);
            assert(col_to[c] == dc % cols);
            lemma_sub_mod_noop_right(i, dr, rows);
            lemma_sub_mod_noop_right(j, dc, cols);
        }
        lemma_sum_of_same(direct, weighted, psf.rows, 0);
    }
    lemma_same_matrix(lhs, rhs);
}

/// The mirror padding makes the circular model exact: convolving the padded image circularly
/// with the PSF on the padded grid, and cropping, gives the blur with mirrored boundaries. No
/// pixel of the image is reached by what wraps around.
pub proof fn law_circular_model_is_mirrored_blur<F: Bm3dFloat>(
    image: Matrix<F>,
    psf: Matrix<F>,
    patch_size: int,
)
    requires
        is_exact::<F>(),
        !image.is_empty(),
        !psf.is_empty(),
    ensures
        ({
            let large = padded(
                image,
                psf.rows as int,
                psf.cols as int,
                patch_size,
                DeblurBoundary::Reflect,
            );
            let before = margins(
                psf.rows as int,
                psf.cols as int,
                patch_size,
                DeblurBoundary::Reflect,
            );
            circular_convolution(large, placed_psf(psf, large.rows, large.cols)).part(
                before.0,
                before.1,
                image.rows,
                image.cols,
            ) == blurred(image, psf)
        }),
{
    let psf_rows = psf.rows as int;
    let psf_cols = psf.cols as int;
    let large = padded(image, psf_rows, psf_cols, patch_size, DeblurBoundary::Reflect);
    let before = margins(psf_rows, psf_cols, patch_size, DeblurBoundary::Reflect);
    let top = before.0;
    let left = before.1;
    law_padding_leaves_room(
        image.rows as int,
        image.cols as int,
        psf_rows,
        psf_cols,
        patch_size,
        DeblurBoundary::Reflect,
    );
    law_placed_psf_blurs_circularly(large, psf);
    let circular = circularly_blurred(large, psf);
    let lhs = circular.part(top, left, image.rows, image.cols);
    let rhs = blurred(image, psf);
    assert forall|i: int, j: int| lhs.has(i, j) implies #[trigger] lhs.at(i, j) == rhs.at(i, j) by {
        let wrapped = wrapped_contributions(large, psf, top + i, left + j);
        let direct = contributions(image, psf, i, j);
        assert(circular.at(top + i, left + j) == total(wrapped));
        assert forall|r: int, c: int| direct.has(r, c) implies #[trigger] direct.at(r, c)
            == wrapped.at(r, c) by {
            let dr = r - psf_rows / 2;
            let dc = c - psf_cols / 2;
            lemma_small_mod((top + i - dr) as nat, large.rows);
            lemma_small_mod((left + j - dc) as nat, large.cols);
            assert((top + i - dr) - margin(psf_rows, patch_size) == i - dr);
            assert((left + j - dc) - margin(psf_cols, patch_size) == j - dc);
        }
        lemma_sum_of_same(direct, wrapped, psf.rows, 0);
    }
    lemma_same_matrix(lhs, rhs);
}

/// Whether multiplication of spectra is circular convolution of images on a `rows x cols` grid.
pub open spec fn transforms_convolve<
    F: Bm3dFloat,
    Fft: Fn(&Grid<F>) -> Grid<Complex<F>>,
    Ifft: Fn(&Grid<Complex<F>>) -> Grid<F>,
>(fft2d: Fft, ifft2d: Ifft, rows: nat, cols: nat) -> bool {
    forall|
        image: Matrix<F>,
        kernel: Matrix<F>,
        of_image: Matrix<Complex<F>>,
        of_kernel: Matrix<Complex<F>>,
        product: Matrix<F>,
    |
        {
            &&& image.rows == kernel.rows == rows
            &&& image.cols == kernel.cols == cols
            &&& #[trigger] is_fft(fft2d, image, of_image)
            &&& #[trigger] is_fft(fft2d, kernel, of_kernel)
            &&& #[trigger] is_ifft(ifft2d, filtered(of_image, of_kernel), product)
        } ==> product == circular_convolution(image, kernel)
}

/// Filtering with the transfer function of a PSF blurs with the PSF under periodic boundaries,
/// whatever the image and the size of the PSF, if the transforms turn products into circular
/// convolutions.
pub proof fn law_transfer_function_blurs<
    F: Bm3dFloat,
    Fft: Fn(&Grid<F>) -> Grid<Complex<F>>,
    Ifft: Fn(&Grid<Complex<F>>) -> Grid<F>,
>(
    fft2d: Fft,
    ifft2d: Ifft,
    image: Matrix<F>,
    psf: Matrix<F>,
    spectrum: Matrix<Complex<F>>,
    transfer: Matrix<Complex<F>>,
    filtered_image: Matrix<F>,
)
    requires
        is_exact::<F>(),
        !image.is_empty(),
        transforms_convolve(fft2d, ifft2d, image.rows, image.cols),
        is_fft(fft2d, image, spectrum),
        is_fft(fft2d, placed_psf(psf, image.rows, image.cols), transfer),
        is_ifft(ifft2d, filtered(spectrum, transfer), filtered_image),
    ensures
        filtered_image == circularly_blurred(image, psf),
{
    law_placed_psf_blurs_circularly(image, psf);
}

/// Whether the first entry of a spectrum is the sum of its image, on a `rows x cols` grid.
pub open spec fn first_entry_is_sum<F: Bm3dFloat, Fft: Fn(&Grid<F>) -> Grid<Complex<F>>>(
    fft2d: Fft,
    rows: nat,
    cols: nat,
) -> bool {
    forall|image: Matrix<F>, spectrum: Matrix<Complex<F>>|
        image.rows == rows && image.cols == cols && #[trigger] is_fft(fft2d, image, spectrum)
            ==> spectrum.at(0, 0) == Complex::from_real_spec(total(image))
}

/// The first entry of a transfer function is the sum of the PSF, whatever its size: a PSF that
/// sums to one leaves the mean level alone.
pub proof fn law_transfer_of_the_mean_is_the_sum<
    F: Bm3dFloat,
    Fft: Fn(&Grid<F>) -> Grid<Complex<F>>,
>(fft2d: Fft, psf: Matrix<F>, rows: nat, cols: nat, transfer: Matrix<Complex<F>>)
    requires
        is_exact::<F>(),
        rows > 0,
        cols > 0,
        first_entry_is_sum(fft2d, rows, cols),
        is_fft(fft2d, placed_psf(psf, rows, cols), transfer),
    ensures
        transfer.at(0, 0) == Complex::from_real_spec(total(psf)),
{
    law_placed_psf_keeps_sum(psf, rows, cols);
}

/// The entry of a PSF at `(r, c)`, zero outside.
pub open spec fn entry_of<F: Bm3dFloat>(psf: Matrix<F>, r: int, c: int) -> F {
    if psf.has(r, c) {
        psf.at(r, c)
    } else {
        F::zero_spec()
    }
}

/// Whether a PSF is symmetric about its centre `(rows / 2, cols / 2)`.
pub open spec fn is_centrally_symmetric<F: Bm3dFloat>(psf: Matrix<F>) -> bool {
    forall|r: int, c: int| #[trigger]
        entry_of(psf, r, c) == entry_of(
            psf,
            2 * (psf.rows as int / 2) - r,
            2 * (psf.cols as int / 2) - c,
        )
}

/// Whether a periodic image is symmetric about cell `(0, 0)`.
pub open spec fn is_even<F>(image: Matrix<F>) -> bool {
    forall|i: int, j: int|
        image.has(i, j) ==> #[trigger] image.at(i, j) == image.at(
            (-i) % image.rows as int,
            (-j) % image.cols as int,
        )
}

/// The weights that pick cell `(i, j)` out of the positions that fall on it.
spec fn picking<F: Bm3dFloat>(
    n: nat,
    m: nat,
    center_r: int,
    center_c: int,
    rows: int,
    cols: int,
    i: int,
    j: int,
) -> Matrix<F> {
    Matrix::from_fn(
        n,
        m,
        |r: int, c: int|
            if (r - center_r) % rows == i && (c - center_c) % cols == j {
                F::one_spec()
            } else {
                F::zero_spec()
            },
    )
}

/// The products of the cells of two matrices.
spec fn cellwise<F: Bm3dFloat>(a: Matrix<F>, b: Matrix<F>) -> Matrix<F> {
    Matrix::from_fn(a.rows, a.cols, |r: int, c: int| a.at(r, c).times_spec(b.at(r, c)))
}

/// What is gathered in a cell is the sum of all values, weighted with one if they are sent
/// there and with zero if not.
proof fn lemma_gathered_is_picked<F: Bm3dFloat>(
    values: Matrix<F>,
    center_r: int,
    center_c: int,
    rows: int,
    cols: int,
    i: int,
    j: int,
    a: nat,
    b: nat,
)
    requires
        is_exact::<F>(),
        a < values.rows && b <= values.cols || a == values.rows && b == 0,
    ensures
        gathered_before(
            values,
            wrapped_positions(values.rows, center_r, rows),
            wrapped_positions(values.cols, center_c, cols),
            i,
            j,
            a,
            b,
        ) == partial_sum(
            cellwise(
                values,
                picking(values.rows, values.cols, center_r, center_c, rows, cols, i, j),
            ),
            a,
            b,
        ),
    decreases a, b,
{
    if b > 0 {
        lemma_gathered_is_picked(
            values,
            center_r,
            center_c,
            rows,
            cols,
            i,
            j,
            a,
            (b - 1) as nat,
        );
        let x = values.at(a as int, b - 1);
        lemma_times(x, x, x);
        lemma_times_zero(x);
        let before = gathered_before(
            values,
            wrapped_positions(values.rows, center_r, rows),
            wrapped_positions(values.cols, center_c, cols),
            i,
            j,
            a,
            (b - 1) as nat,
        );
        lemma_plus(before, before, before);
    } else if a > 0 {
        lemma_gathered_is_picked(
            values,
            center_r,
            center_c,
            rows,
            cols,
            i,
            j,
            (a - 1) as nat,
            values.cols,
        );
    }
}

/// The PSF with an odd number of rows and columns: a row or a column of zeros is added where
/// the number is even.
spec fn completed<F: Bm3dFloat>(psf: Matrix<F>) -> Matrix<F> {
    Matrix::from_fn(
        (2 * (psf.rows as int / 2) + 1) as nat,
        (2 * (psf.cols as int / 2) + 1) as nat,
        |r: int, c: int| entry_of(psf, r, c),
    )
}

/// Zeros that are added to a matrix do not change a weighted sum.
proof fn lemma_completed_sum<F: Bm3dFloat>(psf: Matrix<F>, weight: Matrix<F>)
    requires
        is_exact::<F>(),
        weight.rows == completed(psf).rows,
        weight.cols == completed(psf).cols,
    ensures
        total(cellwise(completed(psf), weight)) == total(cellwise(psf, weight)),
{
    law_exact_scalars_obey_weaker_rules::<F>();
    let row_to = Seq::new(psf.rows, |r: int| r);
    let col_to = Seq::new(psf.cols, |c: int| c);
    let large = cellwise(completed(psf), weight);
    let gathering = weighted_gathering(psf, row_to, col_to, weight, psf.rows, 0);
    lemma_weighted_gathering(psf, row_to, col_to, weight, psf.rows, 0);
    assert forall|p: int, q: int| large.has(p, q) implies #[trigger] large.at(p, q)
        == gathering.at(p, q) by {
        lemma_gathered_alone(psf, row_to, col_to, p, q, p, q, psf.rows, 0);
    }
    lemma_sum_of_same(large, gathering, weight.rows, 0);
    let terms = weighted_values(psf, row_to, col_to, weight);
    let small = cellwise(psf, weight);
    assert forall|r: int, c: int| small.has(r, c) implies #[trigger] small.at(r, c) == terms.at(
        r,
        c,
    ) by {}
    lemma_sum_of_same(small, terms, psf.rows, 0);
}

/// A sum may be taken backwards.
proof fn lemma_reversed_sum<F: Bm3dFloat>(values: Matrix<F>, weight: Matrix<F>)
    requires
        is_exact::<F>(),
        weight.rows == values.rows,
        weight.cols == values.cols,
    ensures
        total(
            Matrix::from_fn(
                values.rows,
                values.cols,
                |r: int, c: int|
                    values.at(values.rows - 1 - r, values.cols - 1 - c).times_spec(weight.at(r, c)),
            ),
        ) == total(
            Matrix::from_fn(
                values.rows,
                values.cols,
                |r: int, c: int|
                    values.at(r, c).times_spec(
                        weight.at(values.rows - 1 - r, values.cols - 1 - c),
                    ),
            ),
        ),
{
    law_exact_scalars_obey_weaker_rules::<F>();
    let row_to = Seq::new(values.rows, |r: int| values.rows - 1 - r);
    let col_to = Seq::new(values.cols, |c: int| values.cols - 1 - c);
    let reversed = Matrix::from_fn(
        values.rows,
        values.cols,
        |r: int, c: int|
            values.at(values.rows - 1 - r, values.cols - 1 - c).times_spec(weight.at(r, c)),
    );
    let forward = Matrix::from_fn(
        values.rows,
        values.cols,
        |r: int, c: int|
            values.at(r, c).times_spec(weight.at(values.rows - 1 - r, values.cols - 1 - c)),
    );
    lemma_weighted_gathering(values, row_to, col_to, weight, values.rows, 0);
    let gathering = weighted_gathering(values, row_to, col_to, weight, values.rows, 0);
    assert forall|p: int, q: int| reversed.has(p, q) implies #[trigger] reversed.at(p, q)
        == gathering.at(p, q) by {
        lemma_gathered_alone(
            values,
            row_to,
            col_to,
            p,
            q,
            values.rows - 1 - p,
            values.cols - 1 - q,
            values.rows,
            0,
        );
    }
    lemma_sum_of_same(reversed, gathering, values.rows, 0);
    let terms = weighted_values(values, row_to, col_to, weight);
    assert forall|r: int, c: int| forward.has(r, c) implies #[trigger] forward.at(r, c)
        == terms.at(r, c) by {
        assert(row_to[r] == values.rows - 1 - r && col_to[c] == values.cols - 1 - c);
    }
    lemma_sum_of_same(forward, terms, values.rows, 0);
}

/// The opposite of a position falls on the opposite cell.
proof fn lemma_opposite_cell(d: int, len: int, i: int)
    requires
        0 <= i < len,
    ensures
        (-d) % len == i <==> d % len == (-i) % len,
        0 <= (-i) % len < len,
{
    lemma_mod_bound(-i, len);
    lemma_fundamental_div_mod(-d, len);
    lemma_fundamental_div_mod(d, len);
    lemma_fundamental_div_mod(-i, len);
    lemma_mod_bound(-d, len);
    lemma_mod_bound(d, len);
    let a = (-d) / len;
    let b = d / len;
    let e = (-i) / len;
    if (-d) % len == i {
        assert(d % len - (-i) % len == len * (e - a - b)) by (nonlinear_arith)
            requires
                -d == len * a + i,
                d == len * b + d % len,
                -i == len * e + (-i) % len,
        ;
        lemma_small_multiple(d % len - (-i) % len, len, e - a - b);
    }
    if d % len == (-i) % len {
        assert((-d) % len - i == len * (e - b - a)) by (nonlinear_arith)
            requires
                -d == len * a + (-d) % len,
                d == len * b + d % len,
                -i == len * e + d % len,
        ;
        lemma_small_multiple((-d) % len - i, len, e - b - a);
    }
}

/// A PSF that is symmetric about its centre lies symmetrically on the grid, whatever its size.
pub proof fn law_symmetric_psf_is_placed_evenly<F: Bm3dFloat>(psf: Matrix<F>, rows: nat, cols: nat)
    requires
        is_exact::<F>(),
        rows > 0,
        cols > 0,
        is_centrally_symmetric(psf),
    ensures
        is_even(placed_psf(psf, rows, cols)),
{
    let placed = placed_psf(psf, rows, cols);
    let center_r = psf.rows as int / 2;
    let center_c = psf.cols as int / 2;
    let odd = completed(psf);
    assert forall|i: int, j: int| placed.has(i, j) implies #[trigger] placed.at(i, j) == placed.at(
        (-i) % rows as int,
        (-j) % cols as int,
    ) by {
        let k = (-i) % rows as int;
        let l = (-j) % cols as int;
        lemma_opposite_cell(0, rows as int, i);
        lemma_opposite_cell(0, cols as int, j);
        let here = picking::<F>(
            odd.rows,
            odd.cols,
            center_r,
            center_c,
            rows as int,
            cols as int,
            i,
            j,
        );
        let there = picking::<F>(
            odd.rows,
            odd.cols,
            center_r,
            center_c,
            rows as int,
            cols as int,
            k,
            l,
        );
        lemma_placed_is_picked(psf, rows, cols, i, j);
        lemma_placed_is_picked(psf, rows, cols, k, l);
        lemma_reversed_sum(odd, here);
        let reversed = Matrix::from_fn(
            odd.rows,
            odd.cols,
            |r: int, c: int|
                odd.at(odd.rows - 1 - r, odd.cols - 1 - c).times_spec(here.at(r, c)),
        );
        let forward = Matrix::from_fn(
            odd.rows,
            odd.cols,
            |r: int, c: int|
                odd.at(r, c).times_spec(here.at(odd.rows - 1 - r, odd.cols - 1 - c)),
        );
        let picked_here = cellwise(odd, here);
        let picked_there = cellwise(odd, there);
        assert forall|r: int, c: int| reversed.has(r, c) implies #[trigger] reversed.at(r, c)
            == picked_here.at(r, c) by {
            assert(entry_of(psf, r, c) == entry_of(psf, 2 * center_r - r, 2 * center_c - c));
        }
        lemma_sum_of_same(reversed, picked_here, odd.rows, 0);
        assert forall|r: int, c: int| forward.has(r, c) implies #[trigger] forward.at(r, c)
            == picked_there.at(r, c) by {
            lemma_opposite_cell(r - center_r, rows as int, i);
            lemma_opposite_cell(c - center_c, cols as int, j);
            assert((odd.rows - 1 - r) - center_r == -(r - center_r));
            assert((odd.cols - 1 - c) - center_c == -(c - center_c));
        }
        lemma_sum_of_same(forward, picked_there, odd.rows, 0);
    }
}

/// A cell of the PSF on the grid is a weighted sum over the completed PSF.
proof fn lemma_placed_is_picked<F: Bm3dFloat>(
    psf: Matrix<F>,
    rows: nat,
    cols: nat,
    i: int,
    j: int,
)
    requires
        is_exact::<F>(),
        0 <= i < rows,
        0 <= j < cols,
    ensures
        placed_psf(psf, rows, cols).at(i, j) == total(
            cellwise(
                completed(psf),
                picking(
                    completed(psf).rows,
                    completed(psf).cols,
                    psf.rows as int / 2,
                    psf.cols as int / 2,
                    rows as int,
                    cols as int,
                    i,
                    j,
                ),
            ),
        ),
{
    let center_r = psf.rows as int / 2;
    let center_c = psf.cols as int / 2;
    let odd = completed(psf);
    let small = picking::<F>(
        psf.rows,
        psf.cols,
        center_r,
        center_c,
        rows as int,
        cols as int,
        i,
        j,
    );
    let large = picking::<F>(
        odd.rows,
        odd.cols,
        center_r,
        center_c,
        rows as int,
        cols as int,
        i,
        j,
    );
    lemma_gathered_is_picked(
        psf,
        center_r,
        center_c,
        rows as int,
        cols as int,
        i,
        j,
        psf.rows,
        0,
    );
    lemma_completed_sum(psf, large);
    lemma_sum_of_same(cellwise(psf, small), cellwise(psf, large), psf.rows, 0);
}

/// Whether the spectra of even images are real, on a `rows x cols` grid.
pub open spec fn even_images_have_real_spectra<
    F: Bm3dFloat,
    Fft: Fn(&Grid<F>) -> Grid<Complex<F>>,
>(fft2d: Fft, rows: nat, cols: nat) -> bool {
    forall|image: Matrix<F>, spectrum: Matrix<Complex<F>>|
        image.rows == rows && image.cols == cols && is_even(image) && #[trigger] is_fft(
            fft2d,
            image,
            spectrum,
        ) ==> forall|r: int, c: int|
            image.has(r, c) ==> (#[trigger] spectrum.at(r, c)).im == F::zero_spec()
}

/// The transfer function of a PSF that is symmetric about its centre is real: the model is free
/// of phase.
pub proof fn law_symmetric_psf_transfers_without_phase<
    F: Bm3dFloat,
    Fft: Fn(&Grid<F>) -> Grid<Complex<F>>,
>(fft2d: Fft, psf: Matrix<F>, rows: nat, cols: nat, transfer: Matrix<Complex<F>>)
    requires
        is_exact::<F>(),
        rows > 0,
        cols > 0,
        is_centrally_symmetric(psf),
        even_images_have_real_spectra(fft2d, rows, cols),
        is_fft(fft2d, placed_psf(psf, rows, cols), transfer),
    ensures
        forall|r: int, c: int|
            0 <= r < rows && 0 <= c < cols ==> (#[trigger] transfer.at(r, c)).im == F::zero_spec(),
{
    law_symmetric_psf_is_placed_evenly(psf, rows, cols);
    let placed = placed_psf(psf, rows, cols);
    assert forall|r: int, c: int| 0 <= r < rows && 0 <= c < cols implies (#[trigger] transfer.at(
        r,
        c,
    )).im == F::zero_spec() by {
        assert(placed.has(r, c));
    }
}

/// If only row `p` is sent to row `i` and only column `q` to column `j`, then cell `(i, j)` holds
/// the value in `(p, q)` once that has been passed, and nothing else.
pub proof fn lemma_gathered_alone<F: Bm3dFloat>(
    values: Matrix<F>,
    row_to: Seq<int>,
    col_to: Seq<int>,
    i: int,
    j: int,
    p: int,
    q: int,
    a: nat,
    b: nat,
)
    requires
        zero_is_neutral::<F>(),
        forall|r: int| 0 <= r < values.rows ==> (#[trigger] row_to[r] == i <==> r == p),
        forall|c: int| 0 <= c < values.cols ==> (#[trigger] col_to[c] == j <==> c == q),
        a < values.rows && b <= values.cols || a == values.rows && b == 0,
    ensures
        gathered_before(values, row_to, col_to, i, j, a, b) == if values.has(p, q) && (p < a || p
            == a && q < b) {
            values.at(p, q)
        } else {
            F::zero_spec()
        },
    decreases a, b,
{
    if b > 0 {
        lemma_gathered_alone(values, row_to, col_to, i, j, p, q, a, (b - 1) as nat);
        let x = values.at(a as int, b - 1);
        assert(F::zero_spec().plus_spec(x) == x);
        assert(row_to[a as int] == i <==> a == p);
        assert(col_to[b - 1] == j <==> b - 1 == q);
    } else if a > 0 {
        lemma_gathered_alone(values, row_to, col_to, i, j, p, q, (a - 1) as nat, values.cols);
    }
}

/// Which position falls on a cell of a circular axis.
pub proof fn lemma_wrapped_inverse(n: int, center: int, len: int, i: int)
    requires
        0 <= n <= len,
        0 <= i < len,
    ensures
        forall|k: int|
            0 <= k < n ==> ((#[trigger] (k - center)) % len == i <==> k == (i + center) % len),
{
    assert forall|k: int| 0 <= k < n implies ((#[trigger] (k - center)) % len == i <==> k == (i
        + center) % len) by {
        lemma_fundamental_div_mod(k - center, len);
        lemma_fundamental_div_mod(i + center, len);
        lemma_mod_bound(k - center, len);
        lemma_mod_bound(i + center, len);
        let a = (k - center) / len;
        let b = (i + center) / len;
        if (k - center) % len == i {
            // k - i - center is a multiple of len, and so is i + center - (i + center) % len.
            assert(k - (i + center) % len == len * (a + b)) by (nonlinear_arith)
                requires
                    k - center == len * a + i,
                    i + center == len * b + (i + center) % len,
            ;
            lemma_small_multiple(k - (i + center) % len, len, a + b);
        }
        if k == (i + center) % len {
            assert((k - center) % len - i == len * (-a - b)) by (nonlinear_arith)
                requires
                    k - center == len * a + (k - center) % len,
                    i + center == len * b + k,
            ;
            lemma_small_multiple((k - center) % len - i, len, -a - b);
        }
    }
}

/// The only multiple of `len` closer to zero than `len` is zero.
proof fn lemma_small_multiple(x: int, len: int, m: int)
    requires
        -len < x < len,
        x == len * m,
    ensures
        x == 0,
{
    if m >= 1 {
        assert(len * m >= len) by (nonlinear_arith)
            requires
                m >= 1,
                len > 0,
        ;
    } else if m <= -1 {
        assert(len * m <= -len) by (nonlinear_arith)
            requires
                m <= -1,
                len > 0,
        ;
    }
}

/// A PSF that is no larger than the grid lies on it as it is, shifted circularly so that its
/// centre is in cell `(0, 0)`; the other cells are zero.
pub proof fn law_placed_psf_is_shifted<F: Bm3dFloat>(psf: Matrix<F>, rows: nat, cols: nat)
    requires
        zero_is_neutral::<F>(),
        psf.rows <= rows,
        psf.cols <= cols,
    ensures
        forall|i: int, j: int|
            0 <= i < rows && 0 <= j < cols ==> #[trigger] placed_psf(psf, rows, cols).at(i, j) == {
                let r = (i + psf.rows as int / 2) % rows as int;
                let c = (j + psf.cols as int / 2) % cols as int;
                if psf.has(r, c) {
                    psf.at(r, c)
                } else {
                    F::zero_spec()
                }
            },
        !psf.is_empty() ==> placed_psf(psf, rows, cols).at(0, 0) == psf.at(
            psf.rows as int / 2,
            psf.cols as int / 2,
        ),
{
    let center_r = psf.rows as int / 2;
    let center_c = psf.cols as int / 2;
    let row_to = wrapped_positions(psf.rows, center_r, rows as int);
    let col_to = wrapped_positions(psf.cols, center_c, cols as int);
    let placed = placed_psf(psf, rows, cols);
    assert forall|i: int, j: int| 0 <= i < rows && 0 <= j < cols implies #[trigger] placed.at(i, j)
        == {
        let r = (i + center_r) % rows as int;
        let c = (j + center_c) % cols as int;
        if psf.has(r, c) {
            psf.at(r, c)
        } else {
            F::zero_spec()
        }
    } by {
        let p = (i + center_r) % rows as int;
        let q = (j + center_c) % cols as int;
        lemma_wrapped_inverse(psf.rows as int, center_r, rows as int, i);
        lemma_wrapped_inverse(psf.cols as int, center_c, cols as int, j);
        assert forall|r: int| 0 <= r < psf.rows implies (#[trigger] row_to[r] == i <==> r == p) by {
            assert(row_to[r] == (r - center_r) % rows as int);
        }
        assert forall|c: int| 0 <= c < psf.cols implies (#[trigger] col_to[c] == j <==> c == q) by {
            assert(col_to[c] == (c - center_c) % cols as int);
        }
        lemma_mod_bound(i + center_r, rows as int);
        lemma_mod_bound(j + center_c, cols as int);
        lemma_gathered_alone(psf, row_to, col_to, i, j, p, q, psf.rows, 0);
    }
    if !psf.is_empty() {
        lemma_small_mod(center_r as nat, rows);
        lemma_small_mod(center_c as nat, cols);
        assert(placed.at(0, 0) == psf.at(center_r, center_c));
    }
}

/// A PSF of a single entry lies on the grid as an impulse, and its transfer function is the
/// entry at every frequency.
pub proof fn law_single_entry_transfers_all_alike<
    F: Bm3dFloat,
    Fft: Fn(&Grid<F>) -> Grid<Complex<F>>,
>(fft2d: Fft, psf: Matrix<F>, rows: nat, cols: nat, transfer: Matrix<Complex<F>>)
    requires
        zero_is_neutral::<F>(),
        psf.rows == 1,
        psf.cols == 1,
        rows > 0,
        cols > 0,
        impulse_to_constant(fft2d, rows, cols, psf.at(0, 0)),
        is_fft(fft2d, placed_psf(psf, rows, cols), transfer),
    ensures
        placed_psf(psf, rows, cols) == impulse(rows, cols, psf.at(0, 0)),
        transfer == complex_of(constant(rows, cols, psf.at(0, 0))),
{
    let placed = placed_psf(psf, rows, cols);
    let target = impulse(rows, cols, psf.at(0, 0));
    law_placed_psf_is_shifted(psf, rows, cols);
    assert forall|i: int, j: int| placed.has(i, j) implies #[trigger] placed.at(i, j) == target.at(
        i,
        j,
    ) by {
        lemma_small_mod(i as nat, rows);
        lemma_small_mod(j as nat, cols);
    }
    lemma_same_matrix(placed, target);
}

} // verus!
