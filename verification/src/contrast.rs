//! What the estimates have in common with the image before the blur, frequency by frequency.
//!
//! The laws here are stated for scalars that compute exactly, for transforms that undo each other,
//! and for a collaborative filter that finds nothing to remove.

use crate::complex::Complex;
use crate::config::Bm3dDeblurConfig;
use crate::deblur::is_deblurring;
use crate::exact::{
    exact_at, is_exact, lemma_count_positive, lemma_minus, lemma_minus_is_unique,
    lemma_minus_scales, lemma_neg_is_unique, lemma_order, lemma_plus, lemma_plus_cancels,
    lemma_plus_crosswise, lemma_signs, lemma_times, lemma_times_cancels,
};
use crate::float_trait::Bm3dFloat;
use crate::grid::{lemma_same_matrix, Grid, Matrix, MAX_CELLS};
use crate::kernel::{is_filter_outcome, operations_fit, Bm3dKernelConfig, Bm3dMode, Operations};
use crate::levels::variance_of;
use crate::passes::{
    averages, describes_noise, inverts_at, is_below, is_inverted, is_pass, is_power_about_mean,
    law_deblurring_runs_the_passes,
};
use crate::spectral::{inverse_regularization, is_fft, is_ifft, wiener_regularization};
use crate::white_noise::constant;
use vstd::arithmetic::div_mod::lemma_mod_bound;
use vstd::prelude::*;

verus! {

/// Whether a spectrum is one that a real image may have: opposite frequencies are conjugates.
pub open spec fn is_hermitian<F: Bm3dFloat>(spectrum: Matrix<Complex<F>>) -> bool {
    forall|r: int, c: int|
        spectrum.has(r, c) ==> {
            let z = #[trigger] spectrum.at(r, c);
            let opposite = spectrum.at((-r) % spectrum.rows as int, (-c) % spectrum.cols as int);
            opposite.re == z.re && opposite.im == z.im.neg_spec()
        }
}

/// Whether a matrix has the same value at opposite frequencies.
pub open spec fn is_the_same_opposite<F: Bm3dFloat>(m: Matrix<F>, rows: nat, cols: nat) -> bool {
    forall|r: int, c: int|
        0 <= r < rows && 0 <= c < cols ==> #[trigger] m.at(r, c) == m.at(
            (-r) % rows as int,
            (-c) % cols as int,
        )
}

/// Whether the transforms of a `rows x cols` grid undo each other: real images have Hermitian
/// spectra, and an image that comes from a Hermitian spectrum has that spectrum.
pub open spec fn transforms_undo_each_other<
    F: Bm3dFloat,
    Fft: Fn(&Grid<F>) -> Grid<Complex<F>>,
    Ifft: Fn(&Grid<Complex<F>>) -> Grid<F>,
>(fft2d: Fft, ifft2d: Ifft, rows: nat, cols: nat) -> bool {
    &&& forall|image: Matrix<F>, spectrum: Matrix<Complex<F>>|
        image.rows == rows && image.cols == cols && #[trigger] is_fft(fft2d, image, spectrum)
            ==> spectrum.rows == rows && spectrum.cols == cols && is_hermitian(spectrum)
    &&& forall|spectrum: Matrix<Complex<F>>, image: Matrix<F>, again: Matrix<Complex<F>>|
        spectrum.rows == rows && spectrum.cols == cols && is_hermitian(spectrum)
            && #[trigger] is_ifft(ifft2d, spectrum, image) && #[trigger] is_fft(
            fft2d,
            image,
            again,
        ) ==> forall|r: int, c: int|
            spectrum.has(r, c) ==> #[trigger] again.at(r, c) == spectrum.at(r, c)
}

/// Whether the collaborative filter gives the noisy image back.
pub open spec fn filter_keeps_the_image<
    F: Bm3dFloat,
    Step: Fn(
        &Grid<F>,
        &Grid<F>,
        Bm3dMode,
        &Grid<F>,
        &Grid<F>,
        Option<&Grid<F>>,
        &Bm3dKernelConfig<F>,
    ) -> Result<Grid<F>, String>,
>(step: Step) -> bool {
    forall|
        noisy: Matrix<F>,
        pilot: Matrix<F>,
        mode: Bm3dMode,
        sigmas: Matrix<F>,
        settings: Bm3dKernelConfig<F>,
        image: Matrix<F>,
    | #[trigger]
        is_filter_outcome(
            step,
            noisy,
            pilot,
            mode,
            sigmas,
            settings,
            Ok::<Matrix<F>, Seq<char>>(image),
        ) ==> image == noisy
}

/// A frequency `Y` that the blur has multiplied by `V`, and that an inversion has then been
/// applied to, comes back multiplied by the real number `|V|^2 * S / (|V|^2 * S + reg)`.
pub proof fn law_blurred_frequency_comes_back<F: Bm3dFloat>(
    y: Complex<F>,
    v: Complex<F>,
    z: Complex<F>,
    s: F,
    reg: F,
    p: Complex<F>,
)
    requires
        is_exact::<F>(),
        z.re == v.re.times_spec(y.re).minus_spec(v.im.times_spec(y.im)),
        z.im == v.re.times_spec(y.im).plus_spec(v.im.times_spec(y.re)),
        inverts_at(z, v, s, reg, p),
    ensures
        ({
            let gain = v.re.times_spec(v.re).plus_spec(v.im.times_spec(v.im)).times_spec(s);
            &&& p.re.times_spec(gain.plus_spec(reg)) == gain.times_spec(y.re)
            &&& p.im.times_spec(gain.plus_spec(reg)) == gain.times_spec(y.im)
        }),
{
    let power = v.re.times_spec(v.re).plus_spec(v.im.times_spec(v.im));
    lemma_conjugate_product(v, y, z);
    lemma_times(power, y.re, s);
    lemma_times(y.re, s, s);
    lemma_times(power, s, y.re);
    lemma_times(power, y.im, s);
    lemma_times(y.im, s, s);
    lemma_times(power, s, y.im);
}

/// `conj(v) * (v * y)` is `|v|^2 * y`.
proof fn lemma_conjugate_product<F: Bm3dFloat>(v: Complex<F>, y: Complex<F>, z: Complex<F>)
    requires
        is_exact::<F>(),
        z.re == v.re.times_spec(y.re).minus_spec(v.im.times_spec(y.im)),
        z.im == v.re.times_spec(y.im).plus_spec(v.im.times_spec(y.re)),
    ensures
        v.re.times_spec(z.re).plus_spec(v.im.times_spec(z.im)) == v.re.times_spec(v.re).plus_spec(
            v.im.times_spec(v.im),
        ).times_spec(y.re),
        v.re.times_spec(z.im).minus_spec(v.im.times_spec(z.re)) == v.re.times_spec(v.re).plus_spec(
            v.im.times_spec(v.im),
        ).times_spec(y.im),
{
    let aa = v.re.times_spec(v.re);
    let bb = v.im.times_spec(v.im);
    let ab = v.re.times_spec(v.im);
    let c = y.re;
    let d = y.im;
    // v.re * z.re == aa * c - ab * d
    lemma_times(v.re, v.re, c);
    lemma_times(v.re, v.im, d);
    lemma_minus_scales(v.re.times_spec(c), v.im.times_spec(d), v.re);
    lemma_times(v.re, v.re.times_spec(c), v.re);
    lemma_times(v.re, v.im.times_spec(d), v.re);
    lemma_times(v.re, z.re, v.re);
    assert(v.re.times_spec(z.re) == aa.times_spec(c).minus_spec(ab.times_spec(d)));
    // v.im * z.im == ab * d + bb * c
    lemma_times(v.re.times_spec(d), v.im.times_spec(c), v.im);
    lemma_times(v.im, z.im, v.im);
    lemma_times(v.im, v.re.times_spec(d), v.im);
    lemma_times(v.im, v.re, d);
    lemma_times(v.re, v.im, v.re);
    lemma_times(v.im, v.im.times_spec(c), v.im);
    lemma_times(v.im, v.im, c);
    assert(v.im.times_spec(z.im) == ab.times_spec(d).plus_spec(bb.times_spec(c)));
    lemma_plus(aa.times_spec(c).minus_spec(ab.times_spec(d)), ab.times_spec(d), bb.times_spec(c));
    lemma_minus(aa.times_spec(c), ab.times_spec(d));
    lemma_times(aa, bb, c);
    // v.re * z.im == aa * d + ab * c
    lemma_times(v.re.times_spec(d), v.im.times_spec(c), v.re);
    lemma_times(v.re, z.im, v.re);
    lemma_times(v.re, v.re.times_spec(d), v.re);
    lemma_times(v.re, v.re, d);
    lemma_times(v.re, v.im.times_spec(c), v.re);
    lemma_times(v.re, v.im, c);
    assert(v.re.times_spec(z.im) == aa.times_spec(d).plus_spec(ab.times_spec(c)));
    // v.im * z.re == ab * c - bb * d
    lemma_minus_scales(v.re.times_spec(c), v.im.times_spec(d), v.im);
    lemma_times(v.im, v.re.times_spec(c), v.im);
    lemma_times(v.im, v.re, c);
    lemma_times(v.im, v.im.times_spec(d), v.im);
    lemma_times(v.im, v.im, d);
    lemma_times(v.im, z.re, v.im);
    assert(v.im.times_spec(z.re) == ab.times_spec(c).minus_spec(bb.times_spec(d)));
    // (aa * d + ab * c) - (ab * c - bb * d) == aa * d + bb * d
    lemma_times(aa, bb, d);
    let left = aa.times_spec(d);
    let middle = ab.times_spec(c);
    let right = bb.times_spec(d);
    lemma_minus(middle, right);
    lemma_plus(left, right, middle.minus_spec(right));
    lemma_plus(right, middle.minus_spec(right), right);
    lemma_minus_is_unique(
        left.plus_spec(middle),
        middle.minus_spec(right),
        left.plus_spec(right),
    );
}

/// An inversion makes a Hermitian spectrum of a Hermitian spectrum.
proof fn lemma_inversion_is_hermitian<F: Bm3dFloat>(
    spectrum: Matrix<Complex<F>>,
    transfer: Matrix<Complex<F>>,
    power: Matrix<F>,
    reg: F,
    product: Matrix<Complex<F>>,
)
    requires
        is_exact::<F>(),
        product.rows == spectrum.rows == transfer.rows,
        product.cols == spectrum.cols == transfer.cols,
        is_hermitian(spectrum),
        is_hermitian(transfer),
        is_the_same_opposite(power, product.rows, product.cols),
        forall|r: int, c: int|
            product.has(r, c) ==> inverts_at(
                spectrum.at(r, c),
                transfer.at(r, c),
                power.at(r, c),
                reg,
                #[trigger] product.at(r, c),
            ),
    ensures
        is_hermitian(product),
{
    assert forall|r: int, c: int| product.has(r, c) implies {
        let p = #[trigger] product.at(r, c);
        let opposite = product.at((-r) % product.rows as int, (-c) % product.cols as int);
        opposite.re == p.re && opposite.im == p.im.neg_spec()
    } by {
        let i = (-r) % product.rows as int;
        let j = (-c) % product.cols as int;
        lemma_mod_bound(-r, product.rows as int);
        lemma_mod_bound(-c, product.cols as int);
        let z = spectrum.at(r, c);
        let v = transfer.at(r, c);
        let p = product.at(r, c);
        let o = product.at(i, j);
        assert(spectrum.at(i, j).re == z.re && spectrum.at(i, j).im == z.im.neg_spec());
        assert(transfer.at(i, j).re == v.re && transfer.at(i, j).im == v.im.neg_spec());
        assert(power.at(r, c) == power.at(i, j));
        lemma_opposite_inverse(
            z,
            v,
            spectrum.at(i, j),
            transfer.at(i, j),
            power.at(r, c),
            reg,
            p,
            o,
        );
    }
}

/// The inversions of conjugates are conjugates.
proof fn lemma_opposite_inverse<F: Bm3dFloat>(
    z: Complex<F>,
    v: Complex<F>,
    y: Complex<F>,
    u: Complex<F>,
    s: F,
    reg: F,
    p: Complex<F>,
    o: Complex<F>,
)
    requires
        is_exact::<F>(),
        y.re == z.re && y.im == z.im.neg_spec(),
        u.re == v.re && u.im == v.im.neg_spec(),
        inverts_at(z, v, s, reg, p),
        inverts_at(y, u, s, reg, o),
    ensures
        o.re == p.re,
        o.im == p.im.neg_spec(),
{
    let zero = F::zero_spec();
    let d = v.re.times_spec(v.re).plus_spec(v.im.times_spec(v.im)).times_spec(s).plus_spec(reg);
    lemma_signs(v.im, v.im);
    lemma_signs(v.im, u.im);
    lemma_signs(v.im.times_spec(v.im), s);
    assert(u.im.times_spec(u.im) == v.im.times_spec(v.im));
    lemma_signs(v.im, z.im);
    lemma_signs(v.im, y.im);
    lemma_signs(v.im.times_spec(z.im), s);
    assert(u.im.times_spec(y.im) == v.im.times_spec(z.im));
    // The imaginary part changes its sign.
    let a = v.re.times_spec(z.im);
    let b = v.im.times_spec(z.re);
    lemma_signs(v.re, z.im);
    lemma_signs(v.im, z.re);
    assert(v.re.times_spec(y.im) == a.neg_spec());
    assert(u.im.times_spec(y.re) == b.neg_spec());
    lemma_difference_of_opposites(a, b);
    lemma_signs(a.minus_spec(b), s);
    lemma_signs(p.im, d);
    assert(o.im.times_spec(d) == p.im.neg_spec().times_spec(d));
    assert(o.re.times_spec(d) == p.re.times_spec(d));
    if d != zero {
        lemma_times_cancels(o.re, p.re, d);
        lemma_times_cancels(o.im, p.im.neg_spec(), d);
    } else {
        assert(exact_at(zero, zero, zero));
        lemma_plus(zero.neg_spec(), zero, zero);
    }
}

/// The difference of opposites is the opposite of the difference.
proof fn lemma_difference_of_opposites<F: Bm3dFloat>(a: F, b: F)
    requires
        is_exact::<F>(),
    ensures
        a.neg_spec().minus_spec(b.neg_spec()) == a.minus_spec(b).neg_spec(),
{
    let zero = F::zero_spec();
    let n = a.neg_spec();
    let m = b.neg_spec();
    lemma_signs(b, b);
    assert(exact_at(n, m, zero));
    assert(exact_at(a, b, zero));
    assert(exact_at(b, b, zero));
    assert(exact_at(a, a, zero));
    // (n + b) + (a + m) == 0
    lemma_plus_crosswise(n, b, a, m);
    lemma_plus(n, a, zero);
    lemma_plus(b, m, zero);
    lemma_plus(zero, zero, zero);
    lemma_neg_is_unique(a.minus_spec(b), n.minus_spec(m));
}

/// Two means of one image are the same.
proof fn lemma_mean_is_unique<F: Bm3dFloat>(image: Matrix<F>, a: F, b: F)
    requires
        is_exact::<F>(),
        !image.is_empty(),
        image.rows * image.cols <= MAX_CELLS,
        averages(image, a),
        averages(image, b),
    ensures
        a == b,
{
    let n = image.rows * image.cols;
    assert(n >= 1) by (nonlinear_arith)
        requires
            n == image.rows * image.cols,
            image.rows >= 1,
            image.cols >= 1,
    ;
    lemma_count_positive::<F>(n as usize);
    lemma_times_cancels(a, b, F::usize_as_spec(n as usize));
}

/// Whether the spectrum `result` of an image is, at every frequency, the inversion of a spectrum
/// of the observation about its mean.
pub open spec fn inverts_the_observation<F: Bm3dFloat, Fft: Fn(&Grid<F>) -> Grid<Complex<F>>>(
    fft2d: Fft,
    observed: Matrix<F>,
    mean: F,
    transfer: Matrix<Complex<F>>,
    power: Matrix<F>,
    reg: F,
    result: Matrix<Complex<F>>,
) -> bool {
    exists|centered: Matrix<F>, spectrum: Matrix<Complex<F>>|
        {
            &&& #[trigger] is_below(centered, mean, observed)
            &&& #[trigger] is_fft(fft2d, centered, spectrum)
            &&& forall|r: int, c: int|
                observed.has(r, c) ==> inverts_at(
                    spectrum.at(r, c),
                    transfer.at(r, c),
                    power.at(r, c),
                    reg,
                    #[trigger] result.at(r, c),
                )
        }
}

/// The image from a pass in which nothing is filtered out has the inverted spectrum.
proof fn lemma_pass_inverts<
    F: Bm3dFloat,
    Fft: Fn(&Grid<F>) -> Grid<Complex<F>>,
    Ifft: Fn(&Grid<Complex<F>>) -> Grid<F>,
    Step: Fn(
        &Grid<F>,
        &Grid<F>,
        Bm3dMode,
        &Grid<F>,
        &Grid<F>,
        Option<&Grid<F>>,
        &Bm3dKernelConfig<F>,
    ) -> Result<Grid<F>, String>,
    Robust: Fn(&Vec<F>) -> F,
>(
    ops: Operations<Fft, Ifft, Step, Robust>,
    observed: Matrix<F>,
    sigma: F,
    config: Bm3dDeblurConfig<F>,
    transfer: Matrix<Complex<F>>,
    power: Matrix<F>,
    reg: F,
    pilot: Option<Matrix<F>>,
    mode: Bm3dMode,
    threshold: F,
    image: Matrix<F>,
    mean: F,
    centered: Matrix<F>,
    result: Matrix<Complex<F>>,
)
    requires
        is_exact::<F>(),
        !observed.is_empty(),
        observed.rows * observed.cols <= MAX_CELLS,
        transfer.rows == observed.rows,
        transfer.cols == observed.cols,
        operations_fit(
            ops,
            observed.rows as int,
            observed.cols as int,
            config.patch_size as int,
        ),
        transforms_undo_each_other(ops.fft2d, ops.ifft2d, observed.rows, observed.cols),
        filter_keeps_the_image(ops.run_bm3d_step_colored_noise),
        is_hermitian(transfer),
        is_the_same_opposite(power, observed.rows, observed.cols),
        is_pass(
            ops,
            observed,
            sigma,
            config,
            transfer,
            power,
            reg,
            pilot,
            mode,
            threshold,
            Ok::<Matrix<F>, Seq<char>>(image),
        ),
        averages(observed, mean),
        centered.wf(),
        is_below(centered, mean, image),
        is_fft(ops.fft2d, centered, result),
    ensures
        inverts_the_observation(ops.fft2d, observed, mean, transfer, power, reg, result),
{
    let (noisy, guide, sigmas, settings) = choose|
        noisy: Matrix<F>,
        guide: Matrix<F>,
        sigmas: Matrix<F>,
        settings: Bm3dKernelConfig<F>,
    |
        {
            &&& is_inverted(ops.fft2d, ops.ifft2d, observed, transfer, power, reg, noisy)
            &&& describes_noise(
                ops.fft2d,
                ops.ifft2d,
                transfer,
                power,
                reg,
                sigma,
                config.patch_size as int,
                sigmas,
            )
            &&& #[trigger] is_filter_outcome(
                ops.run_bm3d_step_colored_noise,
                noisy,
                guide,
                mode,
                sigmas,
                settings,
                Ok::<Matrix<F>, Seq<char>>(image),
            )
        };
    assert(image == noisy);
    let (level, low, spectrum, product, inverted) = choose|
        level: F,
        low: Matrix<F>,
        spectrum: Matrix<Complex<F>>,
        product: Matrix<Complex<F>>,
        inverted: Matrix<F>,
    |
        {
            &&& averages(observed, level)
            &&& #[trigger] is_below(low, level, observed)
            &&& #[trigger] is_fft(ops.fft2d, low, spectrum)
            &&& product.rows == observed.rows
            &&& product.cols == observed.cols
            &&& forall|r: int, c: int|
                observed.has(r, c) ==> inverts_at(
                    spectrum.at(r, c),
                    transfer.at(r, c),
                    power.at(r, c),
                    reg,
                    #[trigger] product.at(r, c),
                )
            &&& #[trigger] is_ifft(ops.ifft2d, product, inverted)
            &&& is_below(inverted, level, noisy)
        };
    lemma_mean_is_unique(observed, mean, level);
    lemma_inversion_is_hermitian(spectrum, transfer, power, reg, product);
    // What the pass has given to the filter is what the spectrum is taken of.
    let (s, g) = choose|s: Grid<Complex<F>>, g: Grid<F>|
        s@ == product && g@ == inverted && #[trigger] call_ensures(ops.ifft2d, (&s,), g);
    g.lemma_view_wf();
    assert forall|r: int, c: int| centered.has(r, c) implies #[trigger] centered.at(r, c)
        == inverted.at(r, c) by {
        assert(centered.at(r, c).plus_spec(mean) == image.at(r, c));
        assert(inverted.at(r, c).plus_spec(mean) == image.at(r, c));
        lemma_plus_cancels(centered.at(r, c), inverted.at(r, c), mean);
    }
    lemma_same_matrix(centered, inverted);
    assert(is_below(low, mean, observed) && is_fft(ops.fft2d, low, spectrum));
}

/// With transforms that undo each other, and a filter that finds nothing to remove, the first
/// estimate is the observation with its blur undone: about the mean of the observation, every
/// frequency of the estimate times `|V|^2 + lambda` is `conj(V)` times that of the observation.
pub proof fn law_first_estimate_undoes_the_blur<
    F: Bm3dFloat,
    Fft: Fn(&Grid<F>) -> Grid<Complex<F>>,
    Ifft: Fn(&Grid<Complex<F>>) -> Grid<F>,
    Step: Fn(
        &Grid<F>,
        &Grid<F>,
        Bm3dMode,
        &Grid<F>,
        &Grid<F>,
        Option<&Grid<F>>,
        &Bm3dKernelConfig<F>,
    ) -> Result<Grid<F>, String>,
    Robust: Fn(&Vec<F>) -> F,
>(
    ops: Operations<Fft, Ifft, Step, Robust>,
    observed: Matrix<F>,
    sigma: F,
    config: Bm3dDeblurConfig<F>,
    transfer: Matrix<Complex<F>>,
    estimate: Matrix<F>,
    first: Matrix<F>,
    mean: F,
    centered: Matrix<F>,
    result: Matrix<Complex<F>>,
)
    requires
        is_exact::<F>(),
        config.violation() is None,
        !observed.is_empty(),
        observed.rows * observed.cols <= MAX_CELLS,
        transfer.rows == observed.rows,
        transfer.cols == observed.cols,
        operations_fit(
            ops,
            observed.rows as int,
            observed.cols as int,
            config.patch_size as int,
        ),
        transforms_undo_each_other(ops.fft2d, ops.ifft2d, observed.rows, observed.cols),
        filter_keeps_the_image(ops.run_bm3d_step_colored_noise),
        is_hermitian(transfer),
        is_deblurring(
            ops,
            observed,
            sigma,
            config,
            transfer,
            Ok::<(Matrix<F>, Matrix<F>), Seq<char>>((estimate, first)),
        ),
        averages(observed, mean),
        centered.wf(),
        is_below(centered, mean, first),
        is_fft(ops.fft2d, centered, result),
    ensures
        inverts_the_observation(
            ops.fft2d,
            observed,
            mean,
            transfer,
            constant(observed.rows, observed.cols, F::one_spec()),
            inverse_regularization(config.reg_ri, variance_of(observed), sigma.times_spec(sigma)),
            result,
        ),
{
    let ones = constant(observed.rows, observed.cols, F::one_spec());
    let outcome = Ok::<(Matrix<F>, Matrix<F>), Seq<char>>((estimate, first));
    law_deblurring_runs_the_passes(ops, observed, sigma, config, transfer, outcome);
    assert forall|r: int, c: int|
        0 <= r < observed.rows && 0 <= c < observed.cols implies #[trigger] ones.at(r, c)
        == ones.at((-r) % observed.rows as int, (-c) % observed.cols as int) by {
        lemma_mod_bound(-r, observed.rows as int);
        lemma_mod_bound(-c, observed.cols as int);
    }
    lemma_pass_inverts(
        ops,
        observed,
        sigma,
        config,
        transfer,
        ones,
        inverse_regularization(config.reg_ri, variance_of(observed), sigma.times_spec(sigma)),
        None,
        Bm3dMode::HardThreshold,
        config.threshold,
        first,
        mean,
        centered,
        result,
    );
}

/// With transforms that undo each other, and a filter that finds nothing to remove, the final
/// estimate of two stages is the observation with its blur undone by the power of the first
/// estimate: about the mean of the observation, every frequency of the estimate times
/// `|V|^2 * S + reg` is `conj(V) * S` times that of the observation.
pub proof fn law_final_estimate_undoes_the_blur<
    F: Bm3dFloat,
    Fft: Fn(&Grid<F>) -> Grid<Complex<F>>,
    Ifft: Fn(&Grid<Complex<F>>) -> Grid<F>,
    Step: Fn(
        &Grid<F>,
        &Grid<F>,
        Bm3dMode,
        &Grid<F>,
        &Grid<F>,
        Option<&Grid<F>>,
        &Bm3dKernelConfig<F>,
    ) -> Result<Grid<F>, String>,
    Robust: Fn(&Vec<F>) -> F,
>(
    ops: Operations<Fft, Ifft, Step, Robust>,
    observed: Matrix<F>,
    sigma: F,
    config: Bm3dDeblurConfig<F>,
    transfer: Matrix<Complex<F>>,
    estimate: Matrix<F>,
    first: Matrix<F>,
    mean: F,
    centered: Matrix<F>,
    result: Matrix<Complex<F>>,
)
    requires
        is_exact::<F>(),
        config.violation() is None,
        config.wiener_stage,
        !observed.is_empty(),
        observed.rows * observed.cols <= MAX_CELLS,
        transfer.rows == observed.rows,
        transfer.cols == observed.cols,
        first.rows == observed.rows,
        first.cols == observed.cols,
        operations_fit(
            ops,
            observed.rows as int,
            observed.cols as int,
            config.patch_size as int,
        ),
        transforms_undo_each_other(ops.fft2d, ops.ifft2d, observed.rows, observed.cols),
        filter_keeps_the_image(ops.run_bm3d_step_colored_noise),
        is_hermitian(transfer),
        is_deblurring(
            ops,
            observed,
            sigma,
            config,
            transfer,
            Ok::<(Matrix<F>, Matrix<F>), Seq<char>>((estimate, first)),
        ),
        averages(observed, mean),
        centered.wf(),
        is_below(centered, mean, estimate),
        is_fft(ops.fft2d, centered, result),
    ensures
        exists|power: Matrix<F>|
            {
                &&& #[trigger] is_power_about_mean(ops.fft2d, observed, first, power)
                &&& inverts_the_observation(
                    ops.fft2d,
                    observed,
                    mean,
                    transfer,
                    power,
                    wiener_regularization(
                        config.reg_rwi,
                        sigma.times_spec(sigma),
                        power,
                        F::one_spec().over_spec(
                            F::usize_as_spec((observed.rows * observed.cols) as usize),
                        ),
                    ),
                    result,
                )
            },
{
    let n = observed.rows * observed.cols;
    let count = F::usize_as_spec(n as usize);
    let outcome = Ok::<(Matrix<F>, Matrix<F>), Seq<char>>((estimate, first));
    law_deblurring_runs_the_passes(ops, observed, sigma, config, transfer, outcome);
    let power = choose|power: Matrix<F>|
        {
            &&& #[trigger] is_power_about_mean(ops.fft2d, observed, first, power)
            &&& is_pass(
                ops,
                observed,
                sigma,
                config,
                transfer,
                power,
                wiener_regularization(
                    config.reg_rwi,
                    sigma.times_spec(sigma),
                    power,
                    F::one_spec().over_spec(count),
                ),
                Some(first),
                Bm3dMode::Wiener,
                F::zero_spec(),
                Ok::<Matrix<F>, Seq<char>>(estimate),
            )
        };
    let reg = wiener_regularization(
        config.reg_rwi,
        sigma.times_spec(sigma),
        power,
        F::one_spec().over_spec(count),
    );
    let (level, low, spectrum) = choose|
        level: F,
        low: Matrix<F>,
        spectrum: Matrix<Complex<F>>,
    |
        {
            &&& averages(observed, level)
            &&& #[trigger] is_below(low, level, first)
            &&& #[trigger] is_fft(ops.fft2d, low, spectrum)
            &&& power.rows == observed.rows
            &&& power.cols == observed.cols
            &&& forall|r: int, c: int|
                observed.has(r, c) ==> (#[trigger] power.at(r, c)).times_spec(count)
                    == spectrum.at(r, c).re.times_spec(spectrum.at(r, c).re).plus_spec(
                    spectrum.at(r, c).im.times_spec(spectrum.at(r, c).im),
                )
        };
    assert(n >= 1) by (nonlinear_arith)
        requires
            n == observed.rows * observed.cols,
            observed.rows >= 1,
            observed.cols >= 1,
    ;
    lemma_count_positive::<F>(n as usize);
    lemma_order(F::zero_spec(), count);
    assert forall|r: int, c: int|
        0 <= r < observed.rows && 0 <= c < observed.cols implies #[trigger] power.at(r, c)
        == power.at((-r) % observed.rows as int, (-c) % observed.cols as int) by {
        let i = (-r) % observed.rows as int;
        let j = (-c) % observed.cols as int;
        lemma_mod_bound(-r, observed.rows as int);
        lemma_mod_bound(-c, observed.cols as int);
        let z = spectrum.at(r, c);
        assert(observed.has(r, c) && observed.has(i, j));
        assert(spectrum.at(i, j).re == z.re && spectrum.at(i, j).im == z.im.neg_spec());
        lemma_signs(z.im, z.im);
        lemma_signs(z.im, z.im.neg_spec());
        lemma_signs(z.im.times_spec(z.im), z.im);
        assert(power.at(i, j).times_spec(count) == power.at(r, c).times_spec(count));
        lemma_times_cancels(power.at(r, c), power.at(i, j), count);
    }
    lemma_pass_inverts(
        ops,
        observed,
        sigma,
        config,
        transfer,
        power,
        reg,
        Some(first),
        Bm3dMode::Wiener,
        F::zero_spec(),
        estimate,
        mean,
        centered,
        result,
    );
}

} // verus!
