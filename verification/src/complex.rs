//! Complex numbers over a [`Bm3dFloat`].

use crate::float_trait::Bm3dFloat;
use vstd::prelude::*;

verus! {

/// A complex number in Cartesian form.
#[derive(Clone, Copy, Debug)]
pub struct Complex<F> {
    /// Real part.
    pub re: F,
    /// Imaginary part.
    pub im: F,
}

impl<F: Bm3dFloat> Complex<F> {
    /// The complex zero.
    pub open spec fn zero_spec() -> Complex<F> {
        Complex { re: F::zero_spec(), im: F::zero_spec() }
    }

    /// The real number `x`.
    pub open spec fn from_real_spec(x: F) -> Complex<F> {
        Complex { re: x, im: F::zero_spec() }
    }

    /// The conjugate of `self`.
    pub open spec fn conj_spec(self) -> Complex<F> {
        Complex { re: self.re, im: self.im.neg_spec() }
    }

    /// The squared magnitude of `self`.
    pub open spec fn norm_sqr_spec(self) -> F {
        self.re.times_spec(self.re).plus_spec(self.im.times_spec(self.im))
    }

    /// The product of two complex numbers.
    pub open spec fn times_spec(self, rhs: Complex<F>) -> Complex<F> {
        Complex {
            re: self.re.times_spec(rhs.re).minus_spec(self.im.times_spec(rhs.im)),
            im: self.re.times_spec(rhs.im).plus_spec(self.im.times_spec(rhs.re)),
        }
    }

    /// The product with a real factor.
    pub open spec fn scaled_spec(self, factor: F) -> Complex<F> {
        Complex { re: self.re.times_spec(factor), im: self.im.times_spec(factor) }
    }

    /// The quotient by a real divisor.
    pub open spec fn over_spec(self, divisor: F) -> Complex<F> {
        Complex { re: self.re.over_spec(divisor), im: self.im.over_spec(divisor) }
    }

    /// The complex zero.
    pub fn zero() -> (r: Complex<F>)
        ensures
            r == Complex::<F>::zero_spec(),
    {
        Complex { re: F::zero(), im: F::zero() }
    }

    /// The real number `x`.
    pub fn from_real(x: F) -> (r: Complex<F>)
        ensures
            r == Complex::<F>::from_real_spec(x),
    {
        Complex { re: x, im: F::zero() }
    }

    /// The conjugate.
    pub fn conj(self) -> (r: Complex<F>)
        ensures
            r == self.conj_spec(),
    {
        Complex { re: self.re, im: self.im.neg() }
    }

    /// The squared magnitude.
    pub fn norm_sqr(self) -> (r: F)
        ensures
            r == self.norm_sqr_spec(),
    {
        self.re.times(self.re).plus(self.im.times(self.im))
    }

    /// Multiplies two complex numbers.
    pub fn times(self, rhs: Complex<F>) -> (r: Complex<F>)
        ensures
            r == self.times_spec(rhs),
    {
        Complex {
            re: self.re.times(rhs.re).minus(self.im.times(rhs.im)),
            im: self.re.times(rhs.im).plus(self.im.times(rhs.re)),
        }
    }

    /// Multiplies by a real factor.
    pub fn scaled(self, factor: F) -> (r: Complex<F>)
        ensures
            r == self.scaled_spec(factor),
    {
        Complex { re: self.re.times(factor), im: self.im.times(factor) }
    }

    /// Divides by a real divisor.
    pub fn over(self, divisor: F) -> (r: Complex<F>)
        ensures
            r == self.over_spec(divisor),
    {
        Complex { re: self.re.over(divisor), im: self.im.over(divisor) }
    }
}

} // verus!
