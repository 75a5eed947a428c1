//! The scalar type that images, point spread functions and noise levels are made of.

use vstd::prelude::*;

verus! {

/// A real scalar type, such as a single or double precision number.
///
/// Every operation comes as a pair: a `.._spec` function that names its result and the
/// executable method that returns exactly that result. Nothing else is asked of an
/// implementation: no rounding rule, no algebraic law. What the library proves therefore
/// holds of any arithmetic whose operations are functions of their operands; values that
/// an implementation cannot tell apart (two not-a-number patterns, say) count as one value.
pub trait Bm3dFloat: Copy {
    /// The value of [`Bm3dFloat::zero`].
    spec fn zero_spec() -> Self;

    /// The value of [`Bm3dFloat::one`].
    spec fn one_spec() -> Self;

    /// The value of [`Bm3dFloat::infinity`].
    spec fn infinity_spec() -> Self;

    /// The value of [`Bm3dFloat::neg_infinity`].
    spec fn neg_infinity_spec() -> Self;

    /// The value of [`Bm3dFloat::gaussian_truncate`].
    spec fn gaussian_truncate_spec() -> Self;

    /// The value of [`Bm3dFloat::from_decimal`].
    spec fn from_decimal_spec(digits: i64, places: u32) -> Self;

    /// The value of [`Bm3dFloat::usize_as`].
    spec fn usize_as_spec(n: usize) -> Self;

    /// The value of [`Bm3dFloat::isize_as`].
    spec fn isize_as_spec(n: isize) -> Self;

    /// The sum `self + rhs`.
    spec fn plus_spec(self, rhs: Self) -> Self;

    /// The difference `self - rhs`.
    spec fn minus_spec(self, rhs: Self) -> Self;

    /// The product `self * rhs`.
    spec fn times_spec(self, rhs: Self) -> Self;

    /// The quotient `self / rhs`.
    spec fn over_spec(self, rhs: Self) -> Self;

    /// The negation `-self`.
    spec fn neg_spec(self) -> Self;

    /// The magnitude of `self`.
    spec fn abs_spec(self) -> Self;

    /// The larger of `self` and `other`.
    spec fn max_spec(self, other: Self) -> Self;

    /// The square root of `self`.
    spec fn sqrt_spec(self) -> Self;

    /// The exponential of `self`.
    spec fn exp_spec(self) -> Self;

    /// The smallest integral value that is not below `self`.
    spec fn ceil_spec(self) -> Self;

    /// The value of [`Bm3dFloat::to_usize`].
    spec fn to_usize_spec(self) -> usize;

    /// Whether `self < other`.
    spec fn lt_spec(self, other: Self) -> bool;

    /// Whether `self <= other`.
    spec fn le_spec(self, other: Self) -> bool;

    /// Whether `self` is neither infinite nor not-a-number.
    spec fn is_finite_spec(self) -> bool;

    /// The number zero.
    fn zero() -> (r: Self)
        ensures
            r == Self::zero_spec(),
    ;

    /// The number one.
    fn one() -> (r: Self)
        ensures
            r == Self::one_spec(),
    ;

    /// Positive infinity, above every finite value.
    fn infinity() -> (r: Self)
        ensures
            r == Self::infinity_spec(),
    ;

    /// Negative infinity, below every finite value.
    fn neg_infinity() -> (r: Self)
        ensures
            r == Self::neg_infinity_spec(),
    ;

    /// The number of standard deviations at which Gaussian kernels are cut off.
    fn gaussian_truncate() -> (r: Self)
        ensures
            r == Self::gaussian_truncate_spec(),
    ;

    /// The value nearest to `digits` shifted by `places` decimal places, i.e. to
    /// `digits / 10^places`.
    fn from_decimal(digits: i64, places: u32) -> (r: Self)
        ensures
            r == Self::from_decimal_spec(digits, places),
    ;

    /// The value nearest to the count `n`.
    fn usize_as(n: usize) -> (r: Self)
        ensures
            r == Self::usize_as_spec(n),
    ;

    /// The value nearest to the signed integer `n`.
    fn isize_as(n: isize) -> (r: Self)
        ensures
            r == Self::isize_as_spec(n),
    ;

    /// Adds two values.
    fn plus(self, rhs: Self) -> (r: Self)
        ensures
            r == self.plus_spec(rhs),
    ;

    /// Subtracts `rhs`.
    fn minus(self, rhs: Self) -> (r: Self)
        ensures
            r == self.minus_spec(rhs),
    ;

    /// Multiplies two values.
    fn times(self, rhs: Self) -> (r: Self)
        ensures
            r == self.times_spec(rhs),
    ;

    /// Divides by `rhs`.
    fn over(self, rhs: Self) -> (r: Self)
        ensures
            r == self.over_spec(rhs),
    ;

    /// Changes the sign.
    fn neg(self) -> (r: Self)
        ensures
            r == self.neg_spec(),
    ;

    /// The magnitude.
    fn abs(self) -> (r: Self)
        ensures
            r == self.abs_spec(),
    ;

    /// The larger of two values.
    fn max(self, other: Self) -> (r: Self)
        ensures
            r == self.max_spec(other),
    ;

    /// The square root.
    fn sqrt(self) -> (r: Self)
        ensures
            r == self.sqrt_spec(),
    ;

    /// The exponential function.
    fn exp(self) -> (r: Self)
        ensures
            r == self.exp_spec(),
    ;

    /// Rounds up to an integral value.
    fn ceil(self) -> (r: Self)
        ensures
            r == self.ceil_spec(),
    ;

    /// The value as a count: cut towards zero, with negative values and not-a-number as 0
    /// and values past the range as `usize::MAX`.
    fn to_usize(self) -> (r: usize)
        ensures
            r == self.to_usize_spec(),
    ;

    /// Compares with `<`.
    fn lt(self, other: Self) -> (r: bool)
        ensures
            r == self.lt_spec(other),
    ;

    /// Compares with `<=`.
    fn le(self, other: Self) -> (r: bool)
        ensures
            r == self.le_spec(other),
    ;

    /// Tests for a finite value.
    fn is_finite(self) -> (r: bool)
        ensures
            r == self.is_finite_spec(),
    ;
}

} // verus!
