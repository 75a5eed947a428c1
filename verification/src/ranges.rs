//! The working range of an image, by what has to hold of its bounds.
//!
//! The laws here are stated for scalars that compute exactly.

use crate::equivariance::is_finite_image;
use crate::exact::{
    exact_at, is_exact, lemma_minus, lemma_order, lemma_order_chains, lemma_over, lemma_plus,
};
use crate::float_trait::Bm3dFloat;
use crate::grid::Matrix;
use crate::laws::{lemma_highest, lemma_lowest};
use crate::levels::{
    from_working, highest_before, lowered, lowest_before, normalization, raised, to_working,
};
use vstd::prelude::*;

verus! {

/// Whether all pixels lie between the infinities.
pub open spec fn lies_between_infinities<F: Bm3dFloat>(image: Matrix<F>) -> bool {
    forall|r: int, c: int|
        image.has(r, c) ==> (#[trigger] image.at(r, c)).lt_spec(F::infinity_spec())
            && F::neg_infinity_spec().lt_spec(image.at(r, c))
}

/// The smallest cell is a cell.
proof fn lemma_lowest_is_a_cell<F: Bm3dFloat>(m: Matrix<F>, a: nat, b: nat) -> (cell: (int, int))
    requires
        !m.is_empty(),
        lies_between_infinities(m),
        a < m.rows && b <= m.cols || a == m.rows && b == 0,
        a > 0 || b > 0,
    ensures
        m.has(cell.0, cell.1),
        m.at(cell.0, cell.1) == lowest_before(m, a, b),
    decreases a, b,
{
    if b > 0 {
        let x = m.at(a as int, b - 1);
        assert(m.has(a as int, b - 1));
        if a == 0 && b == 1 {
            assert(lowest_before(m, 0, 0) == F::infinity_spec());
            assert(x.lt_spec(F::infinity_spec()));
            (0, 0)
        } else if x.lt_spec(lowest_before(m, a, (b - 1) as nat)) {
            (a as int, b - 1)
        } else {
            lemma_lowest_is_a_cell(m, a, (b - 1) as nat)
        }
    } else {
        lemma_lowest_is_a_cell(m, (a - 1) as nat, m.cols)
    }
}

/// The largest cell is a cell.
proof fn lemma_highest_is_a_cell<F: Bm3dFloat>(m: Matrix<F>, a: nat, b: nat) -> (cell: (int, int))
    requires
        !m.is_empty(),
        lies_between_infinities(m),
        a < m.rows && b <= m.cols || a == m.rows && b == 0,
        a > 0 || b > 0,
    ensures
        m.has(cell.0, cell.1),
        m.at(cell.0, cell.1) == highest_before(m, a, b),
    decreases a, b,
{
    if b > 0 {
        let x = m.at(a as int, b - 1);
        assert(m.has(a as int, b - 1));
        if a == 0 && b == 1 {
            assert(highest_before(m, 0, 0) == F::neg_infinity_spec());
            assert(F::neg_infinity_spec().lt_spec(x));
            (0, 0)
        } else if highest_before(m, a, (b - 1) as nat).lt_spec(x) {
            (a as int, b - 1)
        } else {
            lemma_highest_is_a_cell(m, a, (b - 1) as nat)
        }
    } else {
        lemma_highest_is_a_cell(m, (a - 1) as nat, m.cols)
    }
}

/// Whether two pixels of an image lie further apart than `10^-12`.
pub open spec fn has_contrast<F: Bm3dFloat>(image: Matrix<F>) -> bool {
    exists|r: int, c: int, i: int, j: int|
        image.has(r, c) && image.has(i, j) && F::from_decimal_spec(1, 12).lt_spec(
            #[trigger] image.at(r, c).minus_spec(#[trigger] image.at(i, j)),
        )
}

/// With normalization the working range begins at the smallest pixel. In an image with contrast
/// it ends at the largest; otherwise it has length one.
pub proof fn law_working_range_spans_the_pixels<F: Bm3dFloat>(image: Matrix<F>)
    requires
        is_exact::<F>(),
        is_finite_image(image),
    ensures
        ({
            let (offset, scale) = normalization(image, true);
            &&& exists|r: int, c: int| image.has(r, c) && #[trigger] image.at(r, c) == offset
            &&& forall|r: int, c: int|
                image.has(r, c) ==> offset.le_spec(#[trigger] image.at(r, c))
            &&& has_contrast(image) ==> {
                &&& exists|r: int, c: int|
                    image.has(r, c) && #[trigger] image.at(r, c) == offset.plus_spec(scale)
                &&& forall|r: int, c: int|
                    image.has(r, c) ==> (#[trigger] image.at(r, c)).le_spec(
                        offset.plus_spec(scale),
                    )
            }
            &&& !has_contrast(image) ==> scale == F::one_spec()
        }),
{
    let tiny = F::from_decimal_spec(1, 12);
    let low = lowest_before(image, image.rows, 0);
    let high = highest_before(image, image.rows, 0);
    let range = high.minus_spec(low);
    let first = lemma_lowest_is_a_cell(image, image.rows, 0);
    let last = lemma_highest_is_a_cell(image, image.rows, 0);
    assert forall|r: int, c: int| image.has(r, c) implies low.le_spec(
        #[trigger] image.at(r, c),
    ) && image.at(r, c).le_spec(high) by {
        lemma_lowest(image, image.rows, 0, r, c);
        lemma_highest(image, image.rows, 0, r, c);
    }
    lemma_minus(high, low);
    lemma_plus(low, range, low);
    if tiny.lt_spec(range) {
        assert(image.at(last.0, last.1).minus_spec(image.at(first.0, first.1)) == range);
        assert(has_contrast(image));
    } else if has_contrast(image) {
        let (r, c, i, j) = choose|r: int, c: int, i: int, j: int|
            image.has(r, c) && image.has(i, j) && tiny.lt_spec(
                #[trigger] image.at(r, c).minus_spec(#[trigger] image.at(i, j)),
            );
        lemma_lowest(image, image.rows, 0, i, j);
        lemma_highest(image, image.rows, 0, r, c);
        lemma_difference_ordered(image.at(r, c), high, low, image.at(i, j));
        let d = image.at(r, c).minus_spec(image.at(i, j));
        lemma_order(tiny, d);
        lemma_order_chains(tiny, d, range);
        lemma_order(tiny, range);
    }
}

/// A difference grows with its minuend and shrinks with its subtrahend.
proof fn lemma_difference_ordered<F: Bm3dFloat>(a: F, b: F, c: F, d: F)
    requires
        is_exact::<F>(),
        a.le_spec(b),
        c.le_spec(d),
    ensures
        a.minus_spec(d).le_spec(b.minus_spec(c)),
{
    let p = a.minus_spec(d);
    let q = b.minus_spec(d);
    let s = b.minus_spec(c);
    lemma_order(a, b);
    lemma_order(c, d);
    // a - d <= b - d
    assert(exact_at(a, b, d.neg_spec()));
    assert(exact_at(a, d, d));
    assert(exact_at(b, d, d));
    lemma_order(p, q);
    // b - d <= b - c, because adding c and d to both gives b + c <= b + d.
    lemma_order(q, s);
    if s.lt_spec(q) {
        lemma_minus(b, c);
        lemma_minus(b, d);
        let m = c.plus_spec(d);
        assert(exact_at(s, q, m));
        lemma_plus(s, c, d);
        lemma_plus(c, d, d);
        lemma_plus(q, d, c);
        // s + m == b + d and q + m == b + c
        assert(exact_at(c, d, b));
        lemma_plus(c, b, b);
        lemma_plus(d, b, b);
        lemma_order(b.plus_spec(c), b.plus_spec(d));
    }
    lemma_order_chains(p, q, s);
}

/// An image whose smallest or largest pixel is not finite keeps its range.
pub proof fn law_unbounded_range_is_kept<F: Bm3dFloat>(
    image: Matrix<F>,
    enabled: bool,
    r: int,
    c: int,
    i: int,
    j: int,
)
    requires
        is_exact::<F>(),
        lies_between_infinities(image),
        image.has(r, c),
        image.has(i, j),
        forall|p: int, q: int|
            image.has(p, q) ==> image.at(r, c).le_spec(#[trigger] image.at(p, q)) && image.at(
                p,
                q,
            ).le_spec(image.at(i, j)),
        !image.at(r, c).is_finite_spec() || !image.at(i, j).is_finite_spec(),
    ensures
        normalization(image, enabled) == (F::zero_spec(), F::one_spec()),
{
    let low = lowest_before(image, image.rows, 0);
    let high = highest_before(image, image.rows, 0);
    let first = lemma_lowest_is_a_cell(image, image.rows, 0);
    let last = lemma_highest_is_a_cell(image, image.rows, 0);
    lemma_lowest(image, image.rows, 0, r, c);
    lemma_highest(image, image.rows, 0, i, j);
    lemma_order(image.at(r, c), low);
    lemma_order(low, image.at(r, c));
    lemma_order(image.at(i, j), high);
    lemma_order(high, image.at(i, j));
    assert(image.at(r, c).le_spec(image.at(first.0, first.1)));
    assert(image.at(last.0, last.1).le_spec(image.at(i, j)));
}

/// Without normalization the image stays as it is.
pub proof fn law_without_normalization_nothing_changes<F: Bm3dFloat>(
    image: Matrix<F>,
    r: int,
    c: int,
)
    requires
        is_exact::<F>(),
        image.has(r, c),
    ensures
        ({
            let (offset, scale) = normalization(image, false);
            &&& offset == F::zero_spec()
            &&& scale == F::one_spec()
            &&& to_working(image, offset, scale).at(r, c) == image.at(r, c)
            &&& from_working(image, offset, scale).at(r, c) == image.at(r, c)
        }),
{
    let x = image.at(r, c);
    let one = F::one_spec();
    assert(exact_at(x, one, one));
    lemma_minus(x, x);
    lemma_plus(x, x, x);
    lemma_over(x, one);
}

/// What the changes of levels do to a pixel: a pixel in working units is the share of the scale
/// by which it lies above the offset, and back in input units it lies above the offset by its
/// multiple of the scale; a pixel that has been lowered or raised differs by the level.
pub proof fn law_levels_move_by_offset_and_scale<F: Bm3dFloat>(
    image: Matrix<F>,
    offset: F,
    scale: F,
    r: int,
    c: int,
)
    requires
        is_exact::<F>(),
        image.has(r, c),
        scale != F::zero_spec(),
    ensures
        to_working(image, offset, scale).at(r, c).times_spec(scale).plus_spec(offset) == image.at(
            r,
            c,
        ),
        from_working(image, offset, scale).at(r, c).minus_spec(offset) == image.at(
            r,
            c,
        ).times_spec(scale),
        lowered(image, offset).at(r, c).plus_spec(offset) == image.at(r, c),
        raised(image, offset).at(r, c).minus_spec(offset) == image.at(r, c),
{
    let x = image.at(r, c);
    lemma_over(x.minus_spec(offset), scale);
    lemma_minus(x, offset);
    lemma_minus(x.times_spec(scale), offset);
}

} // verus!
