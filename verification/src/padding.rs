//! Mirror padding before the frequency-domain inversion, and cropping after it.

use crate::config::DeblurBoundary;
use crate::fast_len::{fast_len, is_seven_smooth, law_fast_len, next_fast_len};
use crate::float_trait::Bm3dFloat;
use crate::grid::{checked_cells, lemma_same_matrix, shape_fits, Grid, Matrix, MAX_CELLS};
use crate::levels::from_working;
use crate::reflect::{law_reflection_fixes_inside, reflect_index, reflected};
use vstd::prelude::*;

verus! {

/// The padding on either side of an axis: beyond the reach of the PSF, and at least a patch.
pub open spec fn margin(psf_len: int, patch_size: int) -> int {
    if psf_len / 2 + 1 >= patch_size {
        psf_len / 2 + 1
    } else {
        patch_size
    }
}

/// The padding before the first row and before the first column.
pub open spec fn margins(
    psf_rows: int,
    psf_cols: int,
    patch_size: int,
    boundary: DeblurBoundary,
) -> (int, int) {
    match boundary {
        DeblurBoundary::Circular => (0, 0),
        DeblurBoundary::Reflect => (margin(psf_rows, patch_size), margin(psf_cols, patch_size)),
    }
}

/// The shape of the padded image: both margins are added, and the sum is rounded up to a
/// fast transform length.
pub open spec fn padded_shape_spec(
    rows: int,
    cols: int,
    psf_rows: int,
    psf_cols: int,
    patch_size: int,
    boundary: DeblurBoundary,
) -> (int, int) {
    match boundary {
        DeblurBoundary::Circular => (rows, cols),
        DeblurBoundary::Reflect => (
            fast_len(rows + 2 * margin(psf_rows, patch_size)),
            fast_len(cols + 2 * margin(psf_cols, patch_size)),
        ),
    }
}

/// Whether the padded image has a shape that a grid can have.
pub open spec fn padding_fits(
    rows: int,
    cols: int,
    psf_rows: int,
    psf_cols: int,
    patch_size: int,
    boundary: DeblurBoundary,
) -> bool {
    let shape = padded_shape_spec(rows, cols, psf_rows, psf_cols, patch_size, boundary);
    shape_fits(shape.0, shape.1)
}

/// The padded image: the image continued by reflection at its borders, or the image itself
/// if it is periodic.
pub open spec fn padded<F>(
    image: Matrix<F>,
    psf_rows: int,
    psf_cols: int,
    patch_size: int,
    boundary: DeblurBoundary,
) -> Matrix<F> {
    match boundary {
        DeblurBoundary::Circular => image,
        DeblurBoundary::Reflect => {
            let shape = padded_shape_spec(
                image.rows as int,
                image.cols as int,
                psf_rows,
                psf_cols,
                patch_size,
                boundary,
            );
            Matrix::from_fn(
                shape.0 as nat,
                shape.1 as nat,
                |r: int, c: int|
                    image.at(
                        reflected(r - margin(psf_rows, patch_size), image.rows as int),
                        reflected(c - margin(psf_cols, patch_size), image.cols as int),
                    ),
            )
        },
    }
}

/// The padding on either side of an axis.
fn axis_margin(psf_len: usize, patch_size: usize) -> (r: usize)
    ensures
        r == margin(psf_len as int, patch_size as int),
{
    if psf_len / 2 + 1 >= patch_size {
        psf_len / 2 + 1
    } else {
        patch_size
    }
}

/// The length of a padded axis, if a grid can be that long.
fn padded_axis(n: usize, psf_len: usize, patch_size: usize) -> (r: Option<usize>)
    ensures
        match r {
            Some(len) => len == fast_len(n + 2 * margin(psf_len as int, patch_size as int)) && len
                <= MAX_CELLS,
            None => fast_len(n + 2 * margin(psf_len as int, patch_size as int)) > MAX_CELLS,
        },
{
    let pad = axis_margin(psf_len, patch_size);
    proof {
        law_fast_len(n + 2 * pad);
    }
    if n > MAX_CELLS || pad > MAX_CELLS || n + 2 * pad > MAX_CELLS {
        return None;
    }
    let len = next_fast_len(n + 2 * pad);
    if len <= MAX_CELLS {
        Some(len)
    } else {
        None
    }
}

/// The shape of the padded image, or `None` if no grid can have it.
pub fn padded_shape(
    rows: usize,
    cols: usize,
    psf_dim: (usize, usize),
    patch_size: usize,
    boundary: DeblurBoundary,
) -> (r: Option<(usize, usize)>)
    ensures
        match r {
            Some(shape) => padding_fits(
                rows as int,
                cols as int,
                psf_dim.0 as int,
                psf_dim.1 as int,
                patch_size as int,
                boundary,
            ) && (shape.0 as int, shape.1 as int) == padded_shape_spec(
                rows as int,
                cols as int,
                psf_dim.0 as int,
                psf_dim.1 as int,
                patch_size as int,
                boundary,
            ),
            None => !padding_fits(
                rows as int,
                cols as int,
                psf_dim.0 as int,
                psf_dim.1 as int,
                patch_size as int,
                boundary,
            ),
        },
{
    let shape = match boundary {
        DeblurBoundary::Circular => (Some(rows), Some(cols)),
        DeblurBoundary::Reflect => (
            padded_axis(rows, psf_dim.0, patch_size),
            padded_axis(cols, psf_dim.1, patch_size),
        ),
    };
    match shape {
        (Some(target_rows), Some(target_cols)) => match checked_cells(target_rows, target_cols) {
            Some(_) => Some((target_rows, target_cols)),
            None => None,
        },
        _ => None,
    }
}

/// Mirror-pad an image for deconvolution and round the size up to a fast FFT length.
///
/// Returns `(pad_rows, pad_cols, padded)`; the image occupies
/// `padded[pad_rows .. pad_rows + rows, pad_cols .. pad_cols + cols]`.
pub fn pad_for_deconvolution<F: Bm3dFloat>(
    image: &Grid<F>,
    psf_dim: (usize, usize),
    patch_size: usize,
    boundary: DeblurBoundary,
) -> (r: (usize, usize, Grid<F>))
    requires
        boundary is Reflect ==> !image@.is_empty(),
        padding_fits(
            image@.rows as int,
            image@.cols as int,
            psf_dim.0 as int,
            psf_dim.1 as int,
            patch_size as int,
            boundary,
        ),
    ensures
        (r.0 as int, r.1 as int) == margins(
            psf_dim.0 as int,
            psf_dim.1 as int,
            patch_size as int,
            boundary,
        ),
        r.2@ == padded(
            image@,
            psf_dim.0 as int,
            psf_dim.1 as int,
            patch_size as int,
            boundary,
        ),
{
    let (rows, cols) = image.dim();
    match boundary {
        DeblurBoundary::Circular => (0, 0, image.clone()),
        DeblurBoundary::Reflect => {
            let pad_rows = axis_margin(psf_dim.0, patch_size);
            let pad_cols = axis_margin(psf_dim.1, patch_size);
            proof {
                law_fast_len(rows + 2 * pad_rows);
                law_fast_len(cols + 2 * pad_cols);
            }
            let target_rows = next_fast_len(rows + 2 * pad_rows);
            let target_cols = next_fast_len(cols + 2 * pad_cols);
            let ghost target = padded(
                image@,
                psf_dim.0 as int,
                psf_dim.1 as int,
                patch_size as int,
                boundary,
            );
            let cell = |r: usize, c: usize| -> (v: F)
                requires
                    r < target_rows,
                    c < target_cols,
                ensures
                    v == image@.at(
                        reflected(r - pad_rows, rows as int),
                        reflected(c - pad_cols, cols as int),
                    ),
                {
                    let src_r = reflect_index(r as isize - pad_rows as isize, rows);
                    let src_c = reflect_index(c as isize - pad_cols as isize, cols);
                    image.get(src_r, src_c)
                };
            let out = Grid::from_shape_fn(target_rows, target_cols, &cell);
            proof {
                lemma_same_matrix(out@, target);
            }
            (pad_rows, pad_cols, out)
        },
    }
}

/// Cuts the `rows x cols` part at `(top, left)` out of `image` and takes it back to input
/// units: `x * scale + offset`.
pub fn crop_to_input_range<F: Bm3dFloat>(
    image: &Grid<F>,
    top: usize,
    left: usize,
    rows: usize,
    cols: usize,
    offset: F,
    scale: F,
) -> (r: Grid<F>)
    requires
        top + rows <= image@.rows,
        left + cols <= image@.cols,
    ensures
        r@ == from_working(
            image@.part(top as int, left as int, rows as nat, cols as nat),
            offset,
            scale,
        ),
{
    let (all_rows, all_cols) = image.dim();
    proof {
        assert(rows * cols <= all_rows * all_cols) by (nonlinear_arith)
            requires
                rows <= all_rows,
                cols <= all_cols,
        ;
    }
    let cell = |r: usize, c: usize| -> (v: F)
        requires
            r < rows,
            c < cols,
        ensures
            v == image@.at(top + r, left + c).times_spec(scale).plus_spec(offset),
        { image.get(top + r, left + c).times(scale).plus(offset) };
    let out = Grid::from_shape_fn(rows, cols, &cell);
    proof {
        lemma_same_matrix(
            out@,
            from_working(
                image@.part(top as int, left as int, rows as nat, cols as nat),
                offset,
                scale,
            ),
        );
    }
    out
}

/// Padding never shrinks an axis and leaves room for both margins, so what was large enough
/// to hold a patch still is; and under reflection both padded lengths are fast.
pub proof fn law_padding_leaves_room(
    rows: int,
    cols: int,
    psf_rows: int,
    psf_cols: int,
    patch_size: int,
    boundary: DeblurBoundary,
)
    requires
        rows >= 0,
        cols >= 0,
        psf_rows >= 0,
        psf_cols >= 0,
    ensures
        ({
            let shape = padded_shape_spec(rows, cols, psf_rows, psf_cols, patch_size, boundary);
            let before = margins(psf_rows, psf_cols, patch_size, boundary);
            &&& before.0 >= 0
            &&& before.1 >= 0
            &&& shape.0 >= rows + 2 * before.0
            &&& shape.1 >= cols + 2 * before.1
            &&& boundary is Reflect ==> is_seven_smooth(shape.0) && is_seven_smooth(shape.1)
        }),
{
    law_fast_len(rows + 2 * margin(psf_rows, patch_size));
    law_fast_len(cols + 2 * margin(psf_cols, patch_size));
}

/// Cropping undoes padding: the part of the padded image behind the margins is the image.
pub proof fn law_crop_undoes_padding<F>(
    image: Matrix<F>,
    psf_rows: int,
    psf_cols: int,
    patch_size: int,
    boundary: DeblurBoundary,
)
    requires
        image.wf(),
        psf_rows >= 0,
        psf_cols >= 0,
    ensures
        ({
            let before = margins(psf_rows, psf_cols, patch_size, boundary);
            padded(image, psf_rows, psf_cols, patch_size, boundary).part(
                before.0,
                before.1,
                image.rows,
                image.cols,
            ) == image
        }),
{
    let before = margins(psf_rows, psf_cols, patch_size, boundary);
    let large = padded(image, psf_rows, psf_cols, patch_size, boundary);
    let part = large.part(before.0, before.1, image.rows, image.cols);
    law_padding_leaves_room(
        image.rows as int,
        image.cols as int,
        psf_rows,
        psf_cols,
        patch_size,
        boundary,
    );
    assert forall|r: int, c: int| part.has(r, c) implies #[trigger] part.at(r, c) == image.at(
        r,
        c,
    ) by {
        law_reflection_fixes_inside(r, image.rows as int);
        law_reflection_fixes_inside(c, image.cols as int);
    }
    lemma_same_matrix(part, image);
}

} // verus!
