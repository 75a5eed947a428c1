//! Scalars that compute without rounding.
//!
//! Floating-point numbers only come close to this. The laws of the library that need sums to
//! be taken in any order, or a division to be undone by a multiplication, are stated for
//! scalars that compute without rounding. Laws that need less, such as products whose factors
//! may be exchanged, name what they need.

use crate::float_trait::Bm3dFloat;
use vstd::prelude::*;

verus! {

/// What holds of the scalars `a`, `b` and `c` if they are elements of an ordered field, with
/// the magnitude and the maximum that belong to its order.
pub open spec fn exact_at<F: Bm3dFloat>(a: F, b: F, c: F) -> bool {
    let zero = F::zero_spec();
    let one = F::one_spec();
    // Addition and subtraction.
    &&& a.plus_spec(b) == b.plus_spec(a)
    &&& a.plus_spec(b).plus_spec(c) == a.plus_spec(b.plus_spec(c))
    &&& a.plus_spec(zero) == a
    &&& a.plus_spec(a.neg_spec()) == zero
    &&& a.minus_spec(b) == a.plus_spec(b.neg_spec())
    // Multiplication and division.
    &&& a.times_spec(b) == b.times_spec(a)
    &&& a.times_spec(b).times_spec(c) == a.times_spec(b.times_spec(c))
    &&& a.times_spec(one) == a
    &&& a.plus_spec(b).times_spec(c) == a.times_spec(c).plus_spec(b.times_spec(c))
    &&& b != zero ==> a.over_spec(b).times_spec(b) == a
    // Order.
    &&& a.le_spec(b) == (a.lt_spec(b) || a == b)
    &&& a.lt_spec(b) ==> a != b && !b.lt_spec(a)
    &&& a == b || a.lt_spec(b) || b.lt_spec(a)
    &&& a.lt_spec(b) && b.lt_spec(c) ==> a.lt_spec(c)
    &&& a.lt_spec(b) ==> a.plus_spec(c).lt_spec(b.plus_spec(c))
    &&& zero.lt_spec(a) && zero.lt_spec(b) ==> zero.lt_spec(a.times_spec(b))
    // Magnitude and maximum.
    &&& a.abs_spec() == if a.lt_spec(zero) {
        a.neg_spec()
    } else {
        a
    }
    &&& a.max_spec(b) == if a.lt_spec(b) {
        b
    } else {
        a
    }
}

/// What holds of the count `n` as a scalar: it is one more than the count before it, it does not
/// matter whether it is given as a signed integer, and its opposite is its negation.
pub open spec fn count_is_exact<F: Bm3dFloat>(n: usize) -> bool {
    &&& n > 0 ==> F::usize_as_spec(n) == F::usize_as_spec((n - 1) as usize).plus_spec(
        F::one_spec(),
    )
    &&& n <= isize::MAX ==> F::isize_as_spec(n as isize) == F::usize_as_spec(n)
    &&& n <= isize::MAX ==> F::isize_as_spec((-n) as isize) == F::isize_as_spec(
        n as isize,
    ).neg_spec()
}

/// What holds of the decimal constant `digits / 10^places`: without places it is the integer
/// `digits`, which is zero or one more than the integer before it; and with one place less it is
/// ten times as large.
pub open spec fn decimal_is_exact<F: Bm3dFloat>(digits: i64, places: u32) -> bool {
    if places == 0 {
        &&& digits == 0 ==> F::from_decimal_spec(digits, 0) == F::zero_spec()
        &&& digits > i64::MIN ==> F::from_decimal_spec(digits, 0) == F::from_decimal_spec(
            (digits - 1) as i64,
            0,
        ).plus_spec(F::one_spec())
    } else {
        F::from_decimal_spec(digits, places).times_spec(F::usize_as_spec(10))
            == F::from_decimal_spec(digits, (places - 1) as u32)
    }
}

/// Whether the scalars are an ordered field, such as that of the rational or of the real
/// numbers, and counts and decimal constants have the values that they stand for. Nothing is
/// asked of roots and exponentials.
pub open spec fn is_exact<F: Bm3dFloat>() -> bool {
    &&& forall|a: F, b: F, c: F| #[trigger] exact_at(a, b, c)
    &&& forall|n: usize| #[trigger] count_is_exact::<F>(n)
    &&& forall|digits: i64, places: u32| #[trigger] decimal_is_exact::<F>(digits, places)
    &&& F::zero_spec() != F::one_spec()
    &&& F::usize_as_spec(0) == F::zero_spec()
}

/// Sums may be taken in any order.
pub proof fn lemma_plus<F: Bm3dFloat>(a: F, b: F, c: F)
    requires
        is_exact::<F>(),
    ensures
        a.plus_spec(b) == b.plus_spec(a),
        a.plus_spec(b).plus_spec(c) == a.plus_spec(b.plus_spec(c)),
        a.plus_spec(F::zero_spec()) == a,
        F::zero_spec().plus_spec(a) == a,
{
    assert(exact_at(a, b, c));
    assert(exact_at(F::zero_spec(), a, c));
}

/// Products may be taken in any order, and they distribute over sums.
pub proof fn lemma_times<F: Bm3dFloat>(a: F, b: F, c: F)
    requires
        is_exact::<F>(),
    ensures
        a.times_spec(b) == b.times_spec(a),
        a.times_spec(b).times_spec(c) == a.times_spec(b.times_spec(c)),
        a.times_spec(F::one_spec()) == a,
        F::one_spec().times_spec(a) == a,
        a.plus_spec(b).times_spec(c) == a.times_spec(c).plus_spec(b.times_spec(c)),
{
    assert(exact_at(a, b, c));
    assert(exact_at(F::one_spec(), a, c));
}

/// A summand on both sides may be left out.
pub proof fn lemma_plus_cancels<F: Bm3dFloat>(a: F, b: F, c: F)
    requires
        is_exact::<F>(),
        a.plus_spec(c) == b.plus_spec(c),
    ensures
        a == b,
{
    assert(exact_at(c, c, c));
    lemma_plus(a, c, c.neg_spec());
    lemma_plus(b, c, c.neg_spec());
}

/// A product with zero is zero.
pub proof fn lemma_times_zero<F: Bm3dFloat>(a: F)
    requires
        is_exact::<F>(),
    ensures
        F::zero_spec().times_spec(a) == F::zero_spec(),
        a.times_spec(F::zero_spec()) == F::zero_spec(),
{
    let z = F::zero_spec();
    let p = z.times_spec(a);
    lemma_plus(z, z, z);
    lemma_times(z, z, a);
    lemma_plus(p, p, p);
    lemma_plus_cancels(p, z, p);
    lemma_times(a, z, z);
}

/// A difference is what has to be added to the subtrahend.
pub proof fn lemma_minus<F: Bm3dFloat>(a: F, b: F)
    requires
        is_exact::<F>(),
    ensures
        a.minus_spec(b).plus_spec(b) == a,
        a.plus_spec(b).minus_spec(b) == a,
        a.minus_spec(a) == F::zero_spec(),
        a.minus_spec(F::zero_spec()) == a,
{
    let n = b.neg_spec();
    let z = F::zero_spec();
    assert(exact_at(b, b, b));
    assert(exact_at(a, b, b));
    assert(exact_at(a.plus_spec(b), b, b));
    assert(exact_at(a, a, a));
    assert(exact_at(a, z, z));
    assert(exact_at(z, z, z));
    lemma_plus(a, n, b);
    lemma_plus(b, n, z);
    lemma_plus(a, b, n);
    lemma_plus(z.neg_spec(), z, z);
    lemma_plus(a, z, z);
}

/// What `c` is if `c + b` is `a`.
pub proof fn lemma_minus_is_unique<F: Bm3dFloat>(a: F, b: F, c: F)
    requires
        is_exact::<F>(),
        c.plus_spec(b) == a,
    ensures
        a.minus_spec(b) == c,
{
    lemma_minus(a, b);
    lemma_plus_cancels(a.minus_spec(b), c, b);
}

/// A factor other than zero on both sides may be left out.
pub proof fn lemma_times_cancels<F: Bm3dFloat>(a: F, b: F, s: F)
    requires
        is_exact::<F>(),
        s != F::zero_spec(),
        a.times_spec(s) == b.times_spec(s),
    ensures
        a == b,
{
    let inv = F::one_spec().over_spec(s);
    assert(exact_at(F::one_spec(), s, s));
    lemma_times(inv, s, s);
    lemma_times(a, s, inv);
    lemma_times(b, s, inv);
}

/// A quotient is what has to be multiplied with the divisor.
pub proof fn lemma_over<F: Bm3dFloat>(a: F, s: F)
    requires
        is_exact::<F>(),
        s != F::zero_spec(),
    ensures
        a.over_spec(s).times_spec(s) == a,
        a.times_spec(s).over_spec(s) == a,
        s.over_spec(s) == F::one_spec(),
        a.over_spec(s) == a.times_spec(F::one_spec().over_spec(s)),
{
    let one = F::one_spec();
    let inv = one.over_spec(s);
    assert(exact_at(a, s, s));
    assert(exact_at(a.times_spec(s), s, s));
    assert(exact_at(one, s, s));
    assert(exact_at(s, s, s));
    lemma_times_cancels(a.times_spec(s).over_spec(s), a, s);
    lemma_times(s, s, s);
    lemma_times_cancels(s.over_spec(s), one, s);
    lemma_times(a, inv, s);
    lemma_times(a, one, one);
    lemma_times_cancels(a.over_spec(s), a.times_spec(inv), s);
}

/// What `c` is if `c * s` is `a`.
pub proof fn lemma_over_is_unique<F: Bm3dFloat>(a: F, s: F, c: F)
    requires
        is_exact::<F>(),
        s != F::zero_spec(),
        c.times_spec(s) == a,
    ensures
        a.over_spec(s) == c,
{
    lemma_over(c, s);
}

/// A common factor other than zero may be left out of a quotient.
pub proof fn lemma_over_reduces<F: Bm3dFloat>(a: F, b: F, k: F)
    requires
        is_exact::<F>(),
        b != F::zero_spec(),
        k != F::zero_spec(),
    ensures
        a.times_spec(k).over_spec(b.times_spec(k)) == a.over_spec(b),
        b.times_spec(k) != F::zero_spec(),
{
    let q = a.over_spec(b);
    if b.times_spec(k) == F::zero_spec() {
        lemma_times_zero(k);
        lemma_times_cancels(b, F::zero_spec(), k);
    }
    lemma_over(a, b);
    lemma_times(q, b, k);
    lemma_over_is_unique(a.times_spec(k), b.times_spec(k), q);
}

/// The order is total and does not hold both ways.
pub proof fn lemma_order<F: Bm3dFloat>(a: F, b: F)
    requires
        is_exact::<F>(),
    ensures
        a.le_spec(b) == (a.lt_spec(b) || a == b),
        a.lt_spec(b) ==> a != b && !b.lt_spec(a),
        a == b || a.lt_spec(b) || b.lt_spec(a),
        a.le_spec(b) == !b.lt_spec(a),
{
    assert(exact_at(a, b, b));
    assert(exact_at(b, a, a));
}

/// The order is transitive.
pub proof fn lemma_order_chains<F: Bm3dFloat>(a: F, b: F, c: F)
    requires
        is_exact::<F>(),
        a.le_spec(b),
        b.le_spec(c),
    ensures
        a.le_spec(c),
        a.lt_spec(b) || b.lt_spec(c) ==> a.lt_spec(c),
{
    lemma_order(a, b);
    lemma_order(b, c);
    lemma_order(a, c);
    assert(exact_at(a, b, c));
}

/// A sum with a positive and a non-negative summand is positive.
pub proof fn lemma_plus_positive<F: Bm3dFloat>(a: F, b: F)
    requires
        is_exact::<F>(),
        F::zero_spec().le_spec(a),
        F::zero_spec().lt_spec(b),
    ensures
        F::zero_spec().lt_spec(a.plus_spec(b)),
{
    let z = F::zero_spec();
    lemma_plus(b, b, b);
    lemma_order(z, a);
    if z.lt_spec(a) {
        assert(exact_at(z, a, b));
        lemma_order(b, a.plus_spec(b));
        lemma_order(z, b);
        lemma_order_chains(z, b, a.plus_spec(b));
    }
}

/// What has to be added to `a` to give zero is its negation.
pub proof fn lemma_neg_is_unique<F: Bm3dFloat>(a: F, b: F)
    requires
        is_exact::<F>(),
        b.plus_spec(a) == F::zero_spec(),
    ensures
        b == a.neg_spec(),
{
    assert(exact_at(a, a, a));
    lemma_plus(a, a.neg_spec(), a);
    lemma_plus_cancels(b, a.neg_spec(), a);
}

/// Signs may be taken out of products and quotients, and two of them cancel.
pub proof fn lemma_signs<F: Bm3dFloat>(a: F, b: F)
    requires
        is_exact::<F>(),
    ensures
        a.neg_spec().neg_spec() == a,
        a.neg_spec().times_spec(b) == a.times_spec(b).neg_spec(),
        a.times_spec(b.neg_spec()) == a.times_spec(b).neg_spec(),
        b != F::zero_spec() ==> a.neg_spec().over_spec(b) == a.over_spec(b).neg_spec(),
{
    let zero = F::zero_spec();
    let n = a.neg_spec();
    assert(exact_at(a, a, a));
    assert(exact_at(b, b, b));
    lemma_neg_is_unique(n, a);
    lemma_plus(a, n, a);
    lemma_times(n, a, b);
    lemma_times_zero(b);
    lemma_neg_is_unique(a.times_spec(b), n.times_spec(b));
    let m = b.neg_spec();
    lemma_plus(b, m, b);
    lemma_times(m, b, a);
    lemma_times_zero(a);
    lemma_times(a, m, a);
    lemma_times(a, b, a);
    lemma_neg_is_unique(a.times_spec(b), a.times_spec(m));
    if b != zero {
        let q = a.over_spec(b);
        let r = n.over_spec(b);
        lemma_over(a, b);
        lemma_over(n, b);
        lemma_times(r, q, b);
        lemma_times_cancels(r.plus_spec(q), zero, b);
        lemma_neg_is_unique(q, r);
    }
}

/// A square is not negative.
pub proof fn lemma_square_not_negative<F: Bm3dFloat>(a: F)
    requires
        is_exact::<F>(),
    ensures
        F::zero_spec().le_spec(a.times_spec(a)),
{
    let zero = F::zero_spec();
    let n = a.neg_spec();
    lemma_order(zero, a);
    lemma_order(zero, a.times_spec(a));
    assert(exact_at(a, a, a));
    lemma_times_zero(a);
    if a.lt_spec(zero) {
        assert(exact_at(a, zero, n));
        lemma_plus(n, n, n);
        assert(exact_at(n, n, n));
        lemma_signs(a, n);
        lemma_signs(a, a);
        lemma_signs(a.times_spec(a), a);
    }
}

/// One is positive.
pub proof fn lemma_one_positive<F: Bm3dFloat>()
    requires
        is_exact::<F>(),
    ensures
        F::zero_spec().lt_spec(F::one_spec()),
        F::zero_spec() != F::one_spec(),
{
    let one = F::one_spec();
    lemma_square_not_negative(one);
    lemma_times(one, one, one);
    lemma_order(F::zero_spec(), one);
}

/// Counts are non-negative, and positive but for zero.
pub proof fn lemma_count_positive<F: Bm3dFloat>(n: usize)
    requires
        is_exact::<F>(),
    ensures
        F::zero_spec().le_spec(F::usize_as_spec(n)),
        n > 0 ==> F::zero_spec().lt_spec(F::usize_as_spec(n)) && F::usize_as_spec(n)
            != F::zero_spec(),
    decreases n,
{
    let z = F::zero_spec();
    lemma_order(z, F::usize_as_spec(n));
    if n == 0 {
    } else {
        let before = (n - 1) as usize;
        lemma_count_positive::<F>(before);
        lemma_one_positive::<F>();
        lemma_plus_positive(F::usize_as_spec(before), F::one_spec());
        assert(count_is_exact::<F>(n));
    }
}

/// Multiplication with a positive factor keeps the order.
pub proof fn lemma_times_ordered<F: Bm3dFloat>(a: F, b: F, k: F)
    requires
        is_exact::<F>(),
        F::zero_spec().lt_spec(k),
    ensures
        a.lt_spec(b) == a.times_spec(k).lt_spec(b.times_spec(k)),
        a.le_spec(b) == a.times_spec(k).le_spec(b.times_spec(k)),
{
    lemma_order(a, b);
    lemma_order(a.times_spec(k), b.times_spec(k));
    if a.lt_spec(b) {
        lemma_times_keeps_order(a, b, k);
    } else if b.lt_spec(a) {
        lemma_times_keeps_order(b, a, k);
    }
}

/// Multiplication with a positive factor keeps a strict inequality.
proof fn lemma_times_keeps_order<F: Bm3dFloat>(a: F, b: F, k: F)
    requires
        is_exact::<F>(),
        F::zero_spec().lt_spec(k),
        a.lt_spec(b),
    ensures
        a.times_spec(k).lt_spec(b.times_spec(k)),
{
    let z = F::zero_spec();
    let d = b.minus_spec(a);
    lemma_minus(b, a);
    lemma_minus(a, a);
    assert(exact_at(a, b, a.neg_spec()));
    assert(exact_at(b, a, a));
    assert(exact_at(d, k, k));
    lemma_times(d, a, k);
    let ak = a.times_spec(k);
    assert(exact_at(z, d.times_spec(k), ak));
    lemma_plus(ak, z, z);
}

/// The larger of two scalars.
pub proof fn lemma_max<F: Bm3dFloat>(a: F, b: F)
    requires
        is_exact::<F>(),
    ensures
        a.max_spec(b) == if a.lt_spec(b) {
            b
        } else {
            a
        },
        a.le_spec(a.max_spec(b)),
        b.le_spec(a.max_spec(b)),
{
    assert(exact_at(a, b, b));
    lemma_order(a, a);
    lemma_order(b, b);
    lemma_order(a, b);
    lemma_order(b, a);
}

/// A positive factor may be taken out of a maximum.
pub proof fn lemma_max_scales<F: Bm3dFloat>(a: F, b: F, k: F)
    requires
        is_exact::<F>(),
        F::zero_spec().lt_spec(k),
    ensures
        a.times_spec(k).max_spec(b.times_spec(k)) == a.max_spec(b).times_spec(k),
{
    lemma_max(a, b);
    lemma_max(a.times_spec(k), b.times_spec(k));
    lemma_times_ordered(a, b, k);
}

/// A decimal constant has the sign of its digits.
pub proof fn lemma_decimal_sign<F: Bm3dFloat>(digits: i64, places: u32)
    requires
        is_exact::<F>(),
    ensures
        digits > 0 ==> F::zero_spec().lt_spec(F::from_decimal_spec(digits, places)),
        digits == 0 ==> F::from_decimal_spec(digits, places) == F::zero_spec(),
        digits < 0 ==> F::from_decimal_spec(digits, places).lt_spec(F::zero_spec()),
    decreases
            places,
            if digits < 0 {
                -digits
            } else {
                digits as int
            },
{
    let zero = F::zero_spec();
    let one = F::one_spec();
    let v = F::from_decimal_spec(digits, places);
    assert(decimal_is_exact::<F>(digits, places));
    if places > 0 {
        let ten = F::usize_as_spec(10);
        lemma_decimal_sign::<F>(digits, (places - 1) as u32);
        lemma_count_positive::<F>(10);
        lemma_times_zero(ten);
        lemma_times_ordered(zero, v, ten);
        lemma_times_ordered(v, zero, ten);
        if digits == 0 {
            lemma_times_cancels(v, zero, ten);
        }
    } else if digits > 0 {
        let before = F::from_decimal_spec((digits - 1) as i64, 0);
        lemma_decimal_sign::<F>((digits - 1) as i64, 0);
        lemma_one_positive::<F>();
        lemma_order(zero, before);
        lemma_plus_positive(before, one);
    } else if digits < 0 {
        let next = F::from_decimal_spec((digits + 1) as i64, 0);
        assert(decimal_is_exact::<F>((digits + 1) as i64, 0));
        lemma_decimal_sign::<F>((digits + 1) as i64, 0);
        lemma_one_positive::<F>();
        // v < v + 1, which is at most zero.
        assert(exact_at(zero, one, v));
        lemma_plus(v, one, v);
        lemma_order(v, next);
        lemma_order(next, zero);
        lemma_order_chains(v, next, zero);
    }
}

/// A decimal fraction of one is at most one.
proof fn lemma_fraction_of_one<F: Bm3dFloat>(places: u32)
    requires
        is_exact::<F>(),
    ensures
        F::from_decimal_spec(1, places).le_spec(F::one_spec()),
    decreases places,
{
    let zero = F::zero_spec();
    let one = F::one_spec();
    let v = F::from_decimal_spec(1, places);
    assert(decimal_is_exact::<F>(1, places));
    lemma_order(v, one);
    if places == 0 {
        assert(decimal_is_exact::<F>(0, 0));
        lemma_plus(one, one, one);
    } else {
        let ten = F::usize_as_spec(10);
        let nine = F::usize_as_spec(9);
        let y = F::from_decimal_spec(1, (places - 1) as u32);
        lemma_fraction_of_one::<F>((places - 1) as u32);
        lemma_count_positive::<F>(10);
        lemma_count_positive::<F>(9);
        assert(count_is_exact::<F>(10));
        // one <= ten, so that ten * one <= one cannot hold.
        assert(exact_at(zero, nine, one));
        lemma_plus(one, one, one);
        lemma_order(one, ten);
        lemma_order(one, v);
        if one.lt_spec(v) {
            lemma_times_ordered(one, v, ten);
            lemma_times(ten, ten, ten);
            lemma_order(ten, y);
            lemma_order_chains(ten, y, one);
            lemma_order(ten, one);
        }
    }
}

/// Decimal constants with positive digits are positive, and a decimal fraction of one is at
/// most one.
pub proof fn lemma_decimal<F: Bm3dFloat>(digits: i64, places: u32)
    requires
        is_exact::<F>(),
        digits > 0,
    ensures
        F::zero_spec().lt_spec(F::from_decimal_spec(digits, places)),
        F::from_decimal_spec(digits, places) != F::zero_spec(),
        F::from_decimal_spec(1, places).le_spec(F::one_spec()),
{
    lemma_decimal_sign::<F>(digits, places);
    lemma_fraction_of_one::<F>(places);
    lemma_order(F::zero_spec(), F::from_decimal_spec(digits, places));
}

/// Counts add up as integers do.
pub proof fn lemma_counts_add<F: Bm3dFloat>(a: usize, b: usize)
    requires
        is_exact::<F>(),
        a + b <= usize::MAX,
    ensures
        F::usize_as_spec((a + b) as usize) == F::usize_as_spec(a).plus_spec(F::usize_as_spec(b)),
    decreases b,
{
    let x = F::usize_as_spec(a);
    lemma_plus(x, x, x);
    if b > 0 {
        let before = (b - 1) as usize;
        lemma_counts_add::<F>(a, before);
        assert(count_is_exact::<F>((a + b) as usize));
        assert(count_is_exact::<F>(b));
        lemma_plus(x, F::usize_as_spec(before), F::one_spec());
    }
}

/// A decimal constant without places is the count of its digits.
pub proof fn lemma_decimal_is_count<F: Bm3dFloat>(n: usize)
    requires
        is_exact::<F>(),
        n <= i64::MAX,
    ensures
        F::from_decimal_spec(n as i64, 0) == F::usize_as_spec(n),
    decreases n,
{
    assert(decimal_is_exact::<F>(n as i64, 0));
    assert(count_is_exact::<F>(n));
    if n > 0 {
        lemma_decimal_is_count::<F>((n - 1) as usize);
    }
}

/// Ten times a decimal constant has one place less.
proof fn lemma_tenth<F: Bm3dFloat>(n: usize)
    requires
        is_exact::<F>(),
        n <= i64::MAX,
    ensures
        F::from_decimal_spec(n as i64, 1).times_spec(F::usize_as_spec(10)) == F::usize_as_spec(n),
{
    assert(decimal_is_exact::<F>(n as i64, 1));
    lemma_decimal_is_count::<F>(n);
}

/// Two halves are a whole.
pub proof fn lemma_half<F: Bm3dFloat>(x: F)
    requires
        is_exact::<F>(),
    ensures
        F::from_decimal_spec(5, 1).plus_spec(F::from_decimal_spec(5, 1)) == F::one_spec(),
        x.times_spec(F::from_decimal_spec(5, 1)).plus_spec(
            x.times_spec(F::from_decimal_spec(5, 1)),
        ) == x,
{
    let half = F::from_decimal_spec(5, 1);
    let ten = F::usize_as_spec(10);
    lemma_tenth::<F>(5);
    lemma_counts_add::<F>(5, 5);
    lemma_count_positive::<F>(10);
    lemma_times(half, half, ten);
    lemma_times(ten, ten, ten);
    lemma_times_cancels(half.plus_spec(half), F::one_spec(), ten);
    lemma_times(half, half, x);
    lemma_times(x, half, half);
    lemma_times(x, x, x);
}

/// Twenty twentieths are a whole.
pub proof fn lemma_twentieth<F: Bm3dFloat>(x: F)
    requires
        is_exact::<F>(),
    ensures
        x.times_spec(F::from_decimal_spec(5, 2)).times_spec(F::usize_as_spec(20)) == x,
{
    let share = F::from_decimal_spec(5, 2);
    let ten = F::usize_as_spec(10);
    let twenty = F::usize_as_spec(20);
    let half = F::from_decimal_spec(5, 1);
    assert(decimal_is_exact::<F>(5, 2));
    lemma_counts_add::<F>(10, 10);
    lemma_half(x);
    lemma_times(ten, ten, share);
    lemma_times(share, twenty, x);
    lemma_times(share, ten, x);
    assert(share.times_spec(twenty) == half.plus_spec(half));
    lemma_times(x, share, twenty);
    lemma_times(x, x, x);
}

/// The opposite of a decimal constant is its negation.
pub proof fn lemma_decimal_negates<F: Bm3dFloat>(digits: i64, places: u32)
    requires
        is_exact::<F>(),
        digits >= 0,
    ensures
        F::from_decimal_spec((-digits) as i64, places) == F::from_decimal_spec(
            digits,
            places,
        ).neg_spec(),
    decreases places, digits,
{
    let zero = F::zero_spec();
    let one = F::one_spec();
    let x = F::from_decimal_spec(digits, places);
    let y = F::from_decimal_spec((-digits) as i64, places);
    assert(decimal_is_exact::<F>(digits, places));
    assert(decimal_is_exact::<F>((-digits) as i64, places));
    if places > 0 {
        let ten = F::usize_as_spec(10);
        let up = (places - 1) as u32;
        lemma_decimal_negates::<F>(digits, up);
        lemma_count_positive::<F>(10);
        lemma_times(y, x, ten);
        assert(exact_at(F::from_decimal_spec(digits, up), zero, zero));
        lemma_plus(
            F::from_decimal_spec(digits, up),
            F::from_decimal_spec(digits, up).neg_spec(),
            zero,
        );
        lemma_times_zero(ten);
        lemma_times_cancels(y.plus_spec(x), zero, ten);
    } else if digits > 0 {
        let before = (digits - 1) as i64;
        let a = F::from_decimal_spec(before, 0);
        let b = F::from_decimal_spec((-before) as i64, 0);
        lemma_decimal_negates::<F>(before, 0);
        assert(decimal_is_exact::<F>((-before) as i64, 0));
        assert((-before) - 1 == -digits);
        // x is a + 1, and y + 1 is b, which is the opposite of a.
        assert(exact_at(a, a, a));
        lemma_plus(a, one, y);
        lemma_plus(y, one, a);
        lemma_plus(a, b, b);
        lemma_plus(one, y, y);
        lemma_plus(a, y.plus_spec(one), a);
        lemma_plus(x, y, y);
    } else {
        lemma_plus(zero, zero, zero);
    }
    lemma_neg_is_unique(x, y);
}

/// Two sums of two may be taken crosswise.
pub proof fn lemma_plus_crosswise<F: Bm3dFloat>(p: F, q: F, x: F, y: F)
    requires
        is_exact::<F>(),
    ensures
        p.plus_spec(q).plus_spec(x.plus_spec(y)) == p.plus_spec(x).plus_spec(q.plus_spec(y)),
{
    lemma_plus(p, q, x.plus_spec(y));
    lemma_plus(q, x, y);
    lemma_plus(x, q, y);
    lemma_plus(p, x, q.plus_spec(y));
}

/// A difference of sums is the sum of the differences.
pub proof fn lemma_minus_splits<F: Bm3dFloat>(x: F, u: F, y: F, v: F)
    requires
        is_exact::<F>(),
    ensures
        x.plus_spec(u).minus_spec(y.plus_spec(v)) == x.minus_spec(y).plus_spec(u.minus_spec(v)),
{
    lemma_plus_crosswise(x.minus_spec(y), u.minus_spec(v), y, v);
    lemma_minus(x, y);
    lemma_minus(u, v);
    lemma_minus_is_unique(
        x.plus_spec(u),
        y.plus_spec(v),
        x.minus_spec(y).plus_spec(u.minus_spec(v)),
    );
}

/// A common factor may be taken out of a difference.
pub proof fn lemma_minus_scales<F: Bm3dFloat>(a: F, b: F, k: F)
    requires
        is_exact::<F>(),
    ensures
        a.times_spec(k).minus_spec(b.times_spec(k)) == a.minus_spec(b).times_spec(k),
{
    lemma_minus(a, b);
    lemma_times(a.minus_spec(b), b, k);
    lemma_minus_is_unique(a.times_spec(k), b.times_spec(k), a.minus_spec(b).times_spec(k));
}

/// The square of a product is the product of the squares.
pub proof fn lemma_square_of_product<F: Bm3dFloat>(a: F, k: F)
    requires
        is_exact::<F>(),
    ensures
        a.times_spec(k).times_spec(a.times_spec(k)) == a.times_spec(a).times_spec(k.times_spec(k)),
{
    lemma_times(a, k, a.times_spec(k));
    lemma_times(k, a, k);
    lemma_times(a, k, k);
    lemma_times(a, a, k.times_spec(k));
    lemma_times(k, a.times_spec(k), k);
}

/// Whether exponentials are positive.
pub open spec fn exponentials_are_positive<F: Bm3dFloat>() -> bool {
    forall|a: F| F::zero_spec().lt_spec(#[trigger] a.exp_spec())
}

/// The product of two positive scalars is positive.
pub proof fn lemma_times_positive<F: Bm3dFloat>(a: F, b: F)
    requires
        is_exact::<F>(),
        F::zero_spec().lt_spec(a),
        F::zero_spec().lt_spec(b),
    ensures
        F::zero_spec().lt_spec(a.times_spec(b)),
        a.times_spec(b) != F::zero_spec(),
        a != F::zero_spec(),
{
    assert(exact_at(a, b, b));
    lemma_order(F::zero_spec(), a.times_spec(b));
    lemma_order(F::zero_spec(), a);
}

/// Whether the factors of a product may be exchanged.
pub open spec fn products_commute<F: Bm3dFloat>() -> bool {
    forall|a: F, b: F| #[trigger] a.times_spec(b) == b.times_spec(a)
}

/// Whether a product with one is the other factor.
pub open spec fn one_is_neutral<F: Bm3dFloat>() -> bool {
    forall|a: F| #[trigger] F::one_spec().times_spec(a) == a
}

/// Whether a sum that begins with zero is the other summand.
pub open spec fn zero_is_neutral<F: Bm3dFloat>() -> bool {
    forall|a: F| #[trigger] F::zero_spec().plus_spec(a) == a
}

/// What holds of the signs of `a` and `b` and of the count `n`: signs may be taken out of
/// products and quotients, two of them cancel, and the opposite of a count is its negation.
pub open spec fn signs_are_symmetric_at<F: Bm3dFloat>(a: F, b: F, n: usize) -> bool {
    &&& a.neg_spec().neg_spec() == a
    &&& a.neg_spec().times_spec(b) == a.times_spec(b).neg_spec()
    &&& a.times_spec(b.neg_spec()) == a.times_spec(b).neg_spec()
    &&& b != F::zero_spec() ==> a.neg_spec().over_spec(b) == a.over_spec(b).neg_spec()
    &&& 0 < n <= isize::MAX ==> F::isize_as_spec((-n) as isize) == F::isize_as_spec(
        n as isize,
    ).neg_spec()
}

/// Whether signs obey the usual rules, and zero compares with itself.
pub open spec fn signs_are_symmetric<F: Bm3dFloat>() -> bool {
    &&& forall|a: F, b: F, n: usize| #[trigger] signs_are_symmetric_at(a, b, n)
    &&& F::zero_spec().le_spec(F::zero_spec())
}

/// Scalars that compute exactly obey all of the weaker rules.
pub proof fn law_exact_scalars_obey_weaker_rules<F: Bm3dFloat>()
    requires
        is_exact::<F>(),
    ensures
        products_commute::<F>(),
        one_is_neutral::<F>(),
        zero_is_neutral::<F>(),
        signs_are_symmetric::<F>(),
{
    assert forall|a: F, b: F| #[trigger] a.times_spec(b) == b.times_spec(a) by {
        lemma_times(a, b, b);
    }
    assert forall|a: F| #[trigger] F::one_spec().times_spec(a) == a by {
        lemma_times(a, a, a);
    }
    assert forall|a: F| #[trigger] F::zero_spec().plus_spec(a) == a by {
        lemma_plus(a, a, a);
    }
    assert forall|a: F, b: F, n: usize| #[trigger] signs_are_symmetric_at(a, b, n) by {
        lemma_signs(a, b);
        assert(count_is_exact::<F>(n));
    }
    lemma_order(F::zero_spec(), F::zero_spec());
}

} // verus!
