//! What the inverse filters do to a blurred spectrum, frequency by frequency.
//!
//! The laws here are stated for scalars that compute exactly, over the parts of the transfer
//! function and of the response.

use crate::complex::Complex;
use crate::exact::{
    exact_at, is_exact, lemma_minus, lemma_minus_scales, lemma_order, lemma_over, lemma_plus,
    lemma_plus_positive, lemma_signs, lemma_square_not_negative, lemma_times, lemma_times_cancels,
    lemma_times_ordered, lemma_times_positive, lemma_times_zero,
};
use crate::float_trait::Bm3dFloat;
use crate::grid::Matrix;
use crate::spectral::{
    filtered, filtered_noise, inverse_filter, signal_psd, wiener_filter,
};
use vstd::prelude::*;

verus! {

/// The sum of the squares of the parts of `v` is not negative, and positive unless `v` is zero.
pub proof fn lemma_power<F: Bm3dFloat>(v: Complex<F>)
    requires
        is_exact::<F>(),
    ensures
        F::zero_spec().le_spec(
            v.re.times_spec(v.re).plus_spec(v.im.times_spec(v.im)),
        ),
        v.re != F::zero_spec() || v.im != F::zero_spec() ==> F::zero_spec().lt_spec(
            v.re.times_spec(v.re).plus_spec(v.im.times_spec(v.im)),
        ),
        v.re == F::zero_spec() && v.im == F::zero_spec() ==> v.re.times_spec(v.re).plus_spec(
            v.im.times_spec(v.im),
        ) == F::zero_spec(),
{
    let zero = F::zero_spec();
    let a = v.re.times_spec(v.re);
    let b = v.im.times_spec(v.im);
    lemma_square_not_negative(v.re);
    lemma_square_not_negative(v.im);
    lemma_times_zero(zero);
    lemma_order(zero, a);
    lemma_order(zero, b);
    lemma_order(zero, a.plus_spec(b));
    lemma_plus(a, b, b);
    lemma_plus(b, a, a);
    if v.re != zero && a == zero {
        lemma_times_zero(v.re);
        lemma_times_cancels(v.re, zero, v.re);
    }
    if v.im != zero && b == zero {
        lemma_times_zero(v.im);
        lemma_times_cancels(v.im, zero, v.im);
    }
    if zero.lt_spec(b) {
        lemma_plus_positive(a, b);
    } else if zero.lt_spec(a) {
        lemma_plus_positive(b, a);
    } else {
        lemma_plus(zero, zero, zero);
    }
}

/// The parts of the results of complex arithmetic: sums of products for a product, opposite
/// imaginary parts for conjugates, so that a number times its conjugate is its squared magnitude,
/// and part by part what a real factor or divisor makes of a number.
pub proof fn law_complex_arithmetic<F: Bm3dFloat>(z: Complex<F>, w: Complex<F>, k: F)
    requires
        is_exact::<F>(),
        k != F::zero_spec(),
    ensures
        z.times_spec(w).re.plus_spec(z.im.times_spec(w.im)) == z.re.times_spec(w.re),
        z.times_spec(w).im == z.re.times_spec(w.im).plus_spec(z.im.times_spec(w.re)),
        z.conj_spec().re == z.re,
        z.conj_spec().im.plus_spec(z.im) == F::zero_spec(),
        z.times_spec(z.conj_spec()).re == z.norm_sqr_spec(),
        z.times_spec(z.conj_spec()).im == F::zero_spec(),
        z.norm_sqr_spec() == z.re.times_spec(z.re).plus_spec(z.im.times_spec(z.im)),
        z.scaled_spec(k).re == z.re.times_spec(k),
        z.scaled_spec(k).im == z.im.times_spec(k),
        z.over_spec(k).re.times_spec(k) == z.re,
        z.over_spec(k).im.times_spec(k) == z.im,
        Complex::from_real_spec(k).re == k,
        Complex::from_real_spec(k).im == F::zero_spec(),
{
    let zero = F::zero_spec();
    let n = z.im.neg_spec();
    lemma_minus(z.re.times_spec(w.re), z.im.times_spec(w.im));
    assert(exact_at(z.im, z.im, z.im));
    lemma_plus(z.im, n, n);
    lemma_signs(z.im, z.im);
    lemma_signs(z.im.times_spec(z.im), zero);
    assert(exact_at(z.re.times_spec(z.re), z.im.times_spec(n), zero));
    lemma_signs(z.re, z.im);
    lemma_times(z.re, z.im, zero);
    let x = z.re.times_spec(z.im);
    assert(exact_at(x, x, x));
    lemma_plus(x, x.neg_spec(), zero);
    lemma_over(z.re, k);
    lemma_over(z.im, k);
}

/// A response that is the conjugate of `v`, times `s`, over `d` turns `v` into a real number.
proof fn lemma_product_with_response<F: Bm3dFloat>(v: Complex<F>, w: Complex<F>, s: F, d: F)
    requires
        is_exact::<F>(),
        d != F::zero_spec(),
        w.re.times_spec(d) == v.re.times_spec(s),
        w.im.times_spec(d) == v.im.neg_spec().times_spec(s),
    ensures
        v.re.times_spec(w.re).minus_spec(v.im.times_spec(w.im)).times_spec(d) == v.re.times_spec(
            v.re,
        ).plus_spec(v.im.times_spec(v.im)).times_spec(s),
        v.re.times_spec(w.im).plus_spec(v.im.times_spec(w.re)) == F::zero_spec(),
{
    let zero = F::zero_spec();
    let n = v.im.neg_spec();
    let rr = v.re.times_spec(v.re).times_spec(s);
    let ii = v.im.times_spec(v.im).times_spec(s);
    lemma_minus_scales(v.re.times_spec(w.re), v.im.times_spec(w.im), d);
    lemma_times(v.re, w.re, d);
    lemma_times(v.re, v.re, s);
    lemma_times(v.im, w.im, d);
    // v.im * (-v.im * s) is the opposite of v.im * v.im * s.
    lemma_times(v.im, n, s);
    lemma_signs(v.im, v.im);
    lemma_signs(v.im.times_spec(v.im), s);
    lemma_signs(ii, ii);
    assert(exact_at(rr, ii.neg_spec(), zero));
    lemma_times(v.re.times_spec(v.re), v.im.times_spec(v.im), s);
    // The imaginary part.
    let x = v.re.times_spec(v.im).times_spec(s);
    let left = v.re.times_spec(w.im);
    let right = v.im.times_spec(w.re);
    lemma_times(v.re, w.im, d);
    lemma_times(v.re, n, s);
    lemma_signs(v.re, v.im);
    lemma_signs(v.re.times_spec(v.im), s);
    lemma_times(v.im, w.re, d);
    lemma_times(v.im, v.re, s);
    lemma_times(left, right, d);
    assert(exact_at(x, x, x));
    lemma_plus(x, x.neg_spec(), x);
    lemma_times_zero(d);
    lemma_times_cancels(left.plus_spec(right), zero, d);
}

/// The first inversion undoes the blur up to its regularization: the response times
/// `|V|^2 + lambda` is the conjugate of `V`, written in parts. So a frequency that the blur has
/// multiplied by `V` comes back multiplied by the real number `|V|^2 / (|V|^2 + lambda)`, and as
/// it was if `lambda` is zero.
pub proof fn law_first_inversion_undoes_the_blur<F: Bm3dFloat>(
    transfer: Matrix<Complex<F>>,
    lambda: F,
    r: int,
    c: int,
)
    requires
        is_exact::<F>(),
        transfer.has(r, c),
        F::zero_spec().le_spec(lambda),
        lambda != F::zero_spec() || transfer.at(r, c).re != F::zero_spec() || transfer.at(r, c).im
            != F::zero_spec(),
    ensures
        ({
            let v = transfer.at(r, c);
            let w = inverse_filter(transfer, lambda).at(r, c);
            let power = v.re.times_spec(v.re).plus_spec(v.im.times_spec(v.im));
            let back = v.re.times_spec(w.re).minus_spec(v.im.times_spec(w.im));
            &&& w.re.times_spec(power.plus_spec(lambda)) == v.re
            &&& w.im.times_spec(power.plus_spec(lambda)) == v.im.neg_spec()
            &&& back.times_spec(power.plus_spec(lambda)) == power
            &&& v.re.times_spec(w.im).plus_spec(v.im.times_spec(w.re)) == F::zero_spec()
            &&& lambda == F::zero_spec() ==> back == F::one_spec()
        }),
{
    let zero = F::zero_spec();
    let one = F::one_spec();
    let v = transfer.at(r, c);
    let w = inverse_filter(transfer, lambda).at(r, c);
    let power = v.re.times_spec(v.re).plus_spec(v.im.times_spec(v.im));
    let d = power.plus_spec(lambda);
    lemma_power(v);
    lemma_order(zero, power);
    lemma_order(zero, lambda);
    lemma_order(zero, d);
    if zero.lt_spec(lambda) {
        lemma_plus_positive(power, lambda);
    } else {
        lemma_plus(power, zero, zero);
    }
    lemma_over(v.re, d);
    lemma_over(v.im.neg_spec(), d);
    lemma_times(v.re, one, one);
    lemma_times(v.im.neg_spec(), one, one);
    lemma_times(power, one, one);
    lemma_product_with_response(v, w, one, d);
    if lambda == zero {
        lemma_plus(power, power, power);
        let back = v.re.times_spec(w.re).minus_spec(v.im.times_spec(w.im));
        lemma_times_cancels(back, one, d);
    }
}

/// The second inversion undoes the blur up to its regularization: the response times
/// `|V|^2 * S + reg` is the conjugate of `V` times the signal power `S`, written in parts. So a
/// frequency that the blur has multiplied by `V` comes back multiplied by the real number
/// `|V|^2 * S / (|V|^2 * S + reg)`, and as it was if `reg` is zero and there is signal.
pub proof fn law_second_inversion_undoes_the_blur<F: Bm3dFloat>(
    transfer: Matrix<Complex<F>>,
    psd: Matrix<F>,
    reg: F,
    r: int,
    c: int,
)
    requires
        is_exact::<F>(),
        transfer.has(r, c),
        F::zero_spec().le_spec(psd.at(r, c)),
        F::zero_spec().le_spec(reg),
    ensures
        ({
            let v = transfer.at(r, c);
            let s = psd.at(r, c);
            let w = wiener_filter(transfer, psd, reg).at(r, c);
            let power = v.re.times_spec(v.re).plus_spec(v.im.times_spec(v.im));
            let denominator = power.times_spec(s).plus_spec(reg);
            let back = v.re.times_spec(w.re).minus_spec(v.im.times_spec(w.im));
            &&& w.re.times_spec(denominator) == v.re.times_spec(s)
            &&& w.im.times_spec(denominator) == v.im.neg_spec().times_spec(s)
            &&& back.times_spec(denominator) == power.times_spec(s)
            &&& v.re.times_spec(w.im).plus_spec(v.im.times_spec(w.re)) == F::zero_spec()
            &&& reg == F::zero_spec() && s != F::zero_spec() && (v.re != F::zero_spec() || v.im
                != F::zero_spec()) ==> back == F::one_spec()
            &&& reg == F::zero_spec() && (s == F::zero_spec() || (v.re == F::zero_spec() && v.im
                == F::zero_spec())) ==> w.re == F::zero_spec() && w.im == F::zero_spec()
        }),
{
    let zero = F::zero_spec();
    let one = F::one_spec();
    let v = transfer.at(r, c);
    let s = psd.at(r, c);
    let w = wiener_filter(transfer, psd, reg).at(r, c);
    let n = v.im.neg_spec();
    let power = v.re.times_spec(v.re).plus_spec(v.im.times_spec(v.im));
    let ps = power.times_spec(s);
    let d = ps.plus_spec(reg);
    lemma_power(v);
    lemma_order(zero, power);
    lemma_order(zero, s);
    lemma_order(zero, reg);
    lemma_times_zero(s);
    lemma_times_zero(power);
    if zero.lt_spec(power) && zero.lt_spec(s) {
        lemma_times_positive(power, s);
    }
    lemma_order(zero, ps);
    lemma_order(zero, d);
    lemma_plus(ps, reg, reg);
    lemma_plus(reg, ps, ps);
    if zero.lt_spec(reg) {
        lemma_plus_positive(ps, reg);
    } else {
        lemma_plus(ps, zero, zero);
    }
    if zero.lt_spec(d) {
        lemma_over(v.re.times_spec(s), d);
        lemma_over(n.times_spec(s), d);
        lemma_product_with_response(v, w, s, d);
        if reg == zero {
            let back = v.re.times_spec(w.re).minus_spec(v.im.times_spec(w.im));
            lemma_times(d, one, one);
            lemma_times_cancels(back, one, d);
        }
    } else {
        // Nothing is known of the signal, or nothing of it is left.
        assert(d == zero);
        assert(w.re == zero && w.im == zero);
        lemma_times_zero(d);
        lemma_times_zero(v.re);
        lemma_times_zero(v.im);
        lemma_times_zero(n);
        lemma_minus(zero, zero);
        lemma_plus(zero, zero, zero);
        assert(exact_at(zero, zero, zero));
        lemma_plus(zero.neg_spec(), zero, zero);
        if s != zero {
            assert(v.re == zero && v.im == zero);
        }
    }
}

/// Filtering a spectrum multiplies complex numbers: its parts are the sums of products, and its
/// power is the product of the powers.
pub proof fn law_filtering_multiplies_complex_numbers<F: Bm3dFloat>(
    spectrum: Matrix<Complex<F>>,
    filter: Matrix<Complex<F>>,
    r: int,
    c: int,
)
    requires
        is_exact::<F>(),
        spectrum.has(r, c),
    ensures
        ({
            let z = spectrum.at(r, c);
            let w = filter.at(r, c);
            let p = filtered(spectrum, filter).at(r, c);
            &&& p.re.plus_spec(z.im.times_spec(w.im)) == z.re.times_spec(w.re)
            &&& p.im == z.re.times_spec(w.im).plus_spec(z.im.times_spec(w.re))
        }),
{
    let z = spectrum.at(r, c);
    let w = filter.at(r, c);
    lemma_minus(z.re.times_spec(w.re), z.im.times_spec(w.im));
}

/// Noise of variance `sigma_sq` has, behind a filter, that variance times the power of the filter
/// at every frequency.
pub proof fn law_noise_grows_with_the_power_of_the_filter<F: Bm3dFloat>(
    filter: Matrix<Complex<F>>,
    sigma_sq: F,
    r: int,
    c: int,
)
    requires
        is_exact::<F>(),
        filter.has(r, c),
    ensures
        ({
            let w = filter.at(r, c);
            filtered_noise(filter, sigma_sq).at(r, c) == w.re.times_spec(w.re).times_spec(
                sigma_sq,
            ).plus_spec(w.im.times_spec(w.im).times_spec(sigma_sq))
        }),
{
    let w = filter.at(r, c);
    let a = w.re.times_spec(w.re);
    let b = w.im.times_spec(w.im);
    lemma_times(a, b, sigma_sq);
    lemma_times(sigma_sq, a.plus_spec(b), a);
}

/// The power of a signal at a frequency is the sum of the squares of the parts of its spectrum,
/// shared out over its pixels; it is not negative.
pub proof fn law_signal_power_is_shared_out<F: Bm3dFloat>(
    spectrum: Matrix<Complex<F>>,
    count: F,
    r: int,
    c: int,
)
    requires
        is_exact::<F>(),
        spectrum.has(r, c),
        F::zero_spec().lt_spec(count),
    ensures
        ({
            let z = spectrum.at(r, c);
            let s = signal_psd(spectrum, F::one_spec().over_spec(count)).at(r, c);
            &&& s.times_spec(count) == z.re.times_spec(z.re).plus_spec(z.im.times_spec(z.im))
            &&& F::zero_spec().le_spec(s)
        }),
{
    let zero = F::zero_spec();
    let z = spectrum.at(r, c);
    let p = z.re.times_spec(z.re).plus_spec(z.im.times_spec(z.im));
    let share = F::one_spec().over_spec(count);
    let s = p.times_spec(share);
    lemma_order(zero, count);
    lemma_over(F::one_spec(), count);
    lemma_times(p, share, count);
    lemma_times(p, p, p);
    lemma_power(z);
    lemma_times_zero(count);
    lemma_times_ordered(zero, s, count);
}

} // verus!
