//! Intensity levels of an image: mean, variance, and the map to the working range.

use crate::float_trait::Bm3dFloat;
use crate::grid::{lemma_same_matrix, sum_over, total, Grid, Matrix};
use crate::psf::epsilon;
use vstd::prelude::*;

verus! {

/// One over the number of cells of `m`.
pub open spec fn inverse_count<F: Bm3dFloat, T>(m: Matrix<T>) -> F {
    F::one_spec().over_spec(F::usize_as_spec((m.rows * m.cols) as usize))
}

/// The mean of all cells; zero for an empty image.
pub open spec fn mean_of<F: Bm3dFloat>(m: Matrix<F>) -> F {
    if m.is_empty() {
        F::zero_spec()
    } else {
        total(m).times_spec(inverse_count(m))
    }
}

/// The squared distance of every cell from `mean`.
pub open spec fn squared_deviations<F: Bm3dFloat>(m: Matrix<F>, mean: F) -> Matrix<F> {
    m.map(|x: F| x.minus_spec(mean).times_spec(x.minus_spec(mean)))
}

/// The population variance of all cells; zero for an empty image.
pub open spec fn variance_of<F: Bm3dFloat>(m: Matrix<F>) -> F {
    if m.is_empty() {
        F::zero_spec()
    } else {
        total(squared_deviations(m, mean_of(m))).times_spec(inverse_count(m))
    }
}

/// Mean and (population) variance of an image.
pub fn mean_and_variance<F: Bm3dFloat>(image: &Grid<F>) -> (r: (F, F))
    ensures
        r.0 == mean_of(image@),
        r.1 == variance_of(image@),
{
    let (rows, cols) = image.dim();
    if rows == 0 || cols == 0 {
        return (F::zero(), F::zero());
    }
    let inv_n = F::one().over(F::usize_as(rows * cols));
    let mean = image.sum().times(inv_n);
    let deviation = |r: usize, c: usize| -> (v: F)
        requires
            image@.has(r as int, c as int),
        ensures
            v == squared_deviations(image@, mean).at(r as int, c as int),
        {
            let x = image.get(r, c);
            x.minus(mean).times(x.minus(mean))
        };
    let spread = sum_over(rows, cols, &deviation, Ghost(squared_deviations(image@, mean)));
    (mean, spread.times(inv_n))
}

/// The smallest cell before `(a, b)` in row by row order, positive infinity if there is none.
/// Of cells that do not compare as smaller, the earlier stays.
pub open spec fn lowest_before<F: Bm3dFloat>(m: Matrix<F>, a: nat, b: nat) -> F
    decreases a, b,
{
    if b > 0 {
        let low = lowest_before(m, a, (b - 1) as nat);
        let x = m.at(a as int, b - 1);
        if x.lt_spec(low) {
            x
        } else {
            low
        }
    } else if a > 0 {
        lowest_before(m, (a - 1) as nat, m.cols)
    } else {
        F::infinity_spec()
    }
}

/// The largest cell before `(a, b)` in row by row order, negative infinity if there is none.
/// Of cells that do not compare as larger, the earlier stays.
pub open spec fn highest_before<F: Bm3dFloat>(m: Matrix<F>, a: nat, b: nat) -> F
    decreases a, b,
{
    if b > 0 {
        let high = highest_before(m, a, (b - 1) as nat);
        let x = m.at(a as int, b - 1);
        if high.lt_spec(x) {
            x
        } else {
            high
        }
    } else if a > 0 {
        highest_before(m, (a - 1) as nat, m.cols)
    } else {
        F::neg_infinity_spec()
    }
}

/// Offset and scale of the working range: the minimum and the range of the image. Without
/// normalization, or if either bound is not finite, the range stays as it is; a range of at
/// most [`epsilon`] is not stretched.
pub open spec fn normalization<F: Bm3dFloat>(m: Matrix<F>, enabled: bool) -> (F, F) {
    let low = lowest_before(m, m.rows, 0);
    let high = highest_before(m, m.rows, 0);
    if !enabled || !low.is_finite_spec() || !high.is_finite_spec() {
        (F::zero_spec(), F::one_spec())
    } else if epsilon::<F>().lt_spec(high.minus_spec(low)) {
        (low, high.minus_spec(low))
    } else {
        (low, F::one_spec())
    }
}

/// Min-max normalization parameters: `work = (x - offset) / scale`.
pub fn normalization_params<F: Bm3dFloat>(image: &Grid<F>, enabled: bool) -> (r: (F, F))
    ensures
        r == normalization(image@, enabled),
{
    if !enabled {
        return (F::zero(), F::one());
    }
    let (rows, cols) = image.dim();
    let mut low: F = F::infinity();
    let mut high: F = F::neg_infinity();
    let mut i: usize = 0;
    while i < rows
        invariant
            rows == image@.rows,
            cols == image@.cols,
            i <= rows,
            low == lowest_before(image@, i as nat, 0),
            high == highest_before(image@, i as nat, 0),
        decreases rows - i,
    {
        let mut j: usize = 0;
        while j < cols
            invariant
                rows == image@.rows,
                cols == image@.cols,
                i < rows,
                j <= cols,
                low == lowest_before(image@, i as nat, j as nat),
                high == highest_before(image@, i as nat, j as nat),
            decreases cols - j,
        {
            let x = image.get(i, j);
            if x.lt(low) {
                low = x;
            }
            if high.lt(x) {
                high = x;
            }
            j = j + 1;
        }
        i = i + 1;
    }
    if !low.is_finite() || !high.is_finite() {
        return (F::zero(), F::one());
    }
    let range = high.minus(low);
    if F::from_decimal(1, 12).lt(range) {
        (low, range)
    } else {
        (low, F::one())
    }
}

/// The image in working units.
pub open spec fn to_working<F: Bm3dFloat>(m: Matrix<F>, offset: F, scale: F) -> Matrix<F> {
    m.map(|x: F| x.minus_spec(offset).over_spec(scale))
}

/// The image back in input units.
pub open spec fn from_working<F: Bm3dFloat>(m: Matrix<F>, offset: F, scale: F) -> Matrix<F> {
    m.map(|x: F| x.times_spec(scale).plus_spec(offset))
}

/// The image with `level` subtracted everywhere.
pub open spec fn lowered<F: Bm3dFloat>(m: Matrix<F>, level: F) -> Matrix<F> {
    m.map(|x: F| x.minus_spec(level))
}

/// The image with `level` added everywhere.
pub open spec fn raised<F: Bm3dFloat>(m: Matrix<F>, level: F) -> Matrix<F> {
    m.map(|x: F| x.plus_spec(level))
}

/// The image in working units: `(x - offset) / scale`.
pub fn into_working_range<F: Bm3dFloat>(image: &Grid<F>, offset: F, scale: F) -> (r: Grid<F>)
    ensures
        r@ == to_working(image@, offset, scale),
{
    let (rows, cols) = image.dim();
    let cell = |r: usize, c: usize| -> (v: F)
        requires
            image@.has(r as int, c as int),
        ensures
            v == image@.at(r as int, c as int).minus_spec(offset).over_spec(scale),
        { image.get(r, c).minus(offset).over(scale) };
    let out = Grid::from_shape_fn(rows, cols, &cell);
    proof {
        lemma_same_matrix(out@, to_working(image@, offset, scale));
    }
    out
}

/// The image with `level` subtracted everywhere.
pub fn lower_by<F: Bm3dFloat>(image: &Grid<F>, level: F) -> (r: Grid<F>)
    ensures
        r@ == lowered(image@, level),
{
    let (rows, cols) = image.dim();
    let cell = |r: usize, c: usize| -> (v: F)
        requires
            image@.has(r as int, c as int),
        ensures
            v == image@.at(r as int, c as int).minus_spec(level),
        { image.get(r, c).minus(level) };
    let out = Grid::from_shape_fn(rows, cols, &cell);
    proof {
        lemma_same_matrix(out@, lowered(image@, level));
    }
    out
}

/// The image with `level` added everywhere.
pub fn raise_by<F: Bm3dFloat>(image: &Grid<F>, level: F) -> (r: Grid<F>)
    ensures
        r@ == raised(image@, level),
{
    let (rows, cols) = image.dim();
    let cell = |r: usize, c: usize| -> (v: F)
        requires
            image@.has(r as int, c as int),
        ensures
            v == image@.at(r as int, c as int).plus_spec(level),
        { image.get(r, c).plus(level) };
    let out = Grid::from_shape_fn(rows, cols, &cell);
    proof {
        lemma_same_matrix(out@, raised(image@, level));
    }
    out
}

} // verus!
