//! The frequency domain: transfer functions, regularized inverse filters, and the noise that
//! they colour.
//!
//! The two-dimensional Fourier transforms themselves are operations that the caller hands in:
//! `fft2d` from an image to its spectrum, `ifft2d` from a spectrum to the real part of its
//! (normalized) inverse transform.

use crate::complex::Complex;
use crate::float_trait::Bm3dFloat;
use crate::grid::{lemma_same_matrix, shape_fits, sum_over, total, Grid, Matrix, MAX_CELLS};
use crate::psf::epsilon;
use vstd::prelude::*;

verus! {

/// Whether `spectrum` is an answer that `fft2d` may give to `image`.
pub open spec fn is_fft<F: Bm3dFloat, T: Fn(&Grid<F>) -> Grid<Complex<F>>>(
    fft2d: T,
    image: Matrix<F>,
    spectrum: Matrix<Complex<F>>,
) -> bool {
    exists|g: Grid<F>, s: Grid<Complex<F>>|
        g@ == image && s@ == spectrum && #[trigger] call_ensures(fft2d, (&g,), s)
}

/// Whether `image` is an answer that `ifft2d` may give to `spectrum`.
pub open spec fn is_ifft<F: Bm3dFloat, T: Fn(&Grid<Complex<F>>) -> Grid<F>>(
    ifft2d: T,
    spectrum: Matrix<Complex<F>>,
    image: Matrix<F>,
) -> bool {
    exists|s: Grid<Complex<F>>, g: Grid<F>|
        s@ == spectrum && g@ == image && #[trigger] call_ensures(ifft2d, (&s,), g)
}

/// What is asked of the forward transform on a `rows x cols` grid: it takes every image of that
/// shape, and gives a spectrum of the same shape.
pub open spec fn is_forward_transform<F: Bm3dFloat, T: Fn(&Grid<F>) -> Grid<Complex<F>>>(
    fft2d: T,
    rows: int,
    cols: int,
) -> bool {
    &&& forall|g: Grid<F>|
        g@.rows == rows && g@.cols == cols ==> #[trigger] call_requires(fft2d, (&g,))
    &&& forall|g: Grid<F>, s: Grid<Complex<F>>|
        g@.rows == rows && g@.cols == cols && #[trigger] call_ensures(fft2d, (&g,), s)
            ==> s@.rows == rows && s@.cols == cols
}

/// What is asked of the inverse transform on a `rows x cols` grid: it takes every spectrum of
/// that shape, and gives an image of the same shape.
pub open spec fn is_inverse_transform<F: Bm3dFloat, T: Fn(&Grid<Complex<F>>) -> Grid<F>>(
    ifft2d: T,
    rows: int,
    cols: int,
) -> bool {
    &&& forall|s: Grid<Complex<F>>|
        s@.rows == rows && s@.cols == cols ==> #[trigger] call_requires(ifft2d, (&s,))
    &&& forall|s: Grid<Complex<F>>, g: Grid<F>|
        s@.rows == rows && s@.cols == cols && #[trigger] call_ensures(ifft2d, (&s,), g)
            ==> g@.rows == rows && g@.cols == cols
}

/// The value that has come together in cell `(i, j)` once the values before `(a, b)` have been
/// added, in row by row order, each to the cell that its row and its column are sent to.
pub open spec fn gathered_before<F: Bm3dFloat>(
    values: Matrix<F>,
    row_to: Seq<int>,
    col_to: Seq<int>,
    i: int,
    j: int,
    a: nat,
    b: nat,
) -> F
    decreases a, b,
{
    if b > 0 {
        let before = gathered_before(values, row_to, col_to, i, j, a, (b - 1) as nat);
        if row_to[a as int] == i && col_to[b - 1] == j {
            before.plus_spec(values.at(a as int, b - 1))
        } else {
            before
        }
    } else if a > 0 {
        gathered_before(values, row_to, col_to, i, j, (a - 1) as nat, values.cols)
    } else {
        F::zero_spec()
    }
}

/// The `rows x cols` matrix that collects all values in the cells that they are sent to.
pub open spec fn gathered<F: Bm3dFloat>(
    values: Matrix<F>,
    row_to: Seq<int>,
    col_to: Seq<int>,
    rows: nat,
    cols: nat,
) -> Matrix<F> {
    Matrix::from_fn(
        rows,
        cols,
        |i: int, j: int| gathered_before(values, row_to, col_to, i, j, values.rows, 0),
    )
}

/// The cells of a circular axis of `len` cells that `n` consecutive positions fall on, if
/// position `center` falls on cell zero.
pub open spec fn wrapped_positions(n: nat, center: int, len: int) -> Seq<int> {
    Seq::new(n, |k: int| (k - center) % len)
}

/// The PSF on a circular `rows x cols` grid, with its centre `(psf_rows / 2, psf_cols / 2)` on
/// cell `(0, 0)`. Entries of a PSF larger than the grid that fall on one cell add up.
pub open spec fn placed_psf<F: Bm3dFloat>(psf: Matrix<F>, rows: nat, cols: nat) -> Matrix<F> {
    gathered(
        psf,
        wrapped_positions(psf.rows, psf.rows as int / 2, rows as int),
        wrapped_positions(psf.cols, psf.cols as int / 2, cols as int),
        rows,
        cols,
    )
}

/// The cells that `n` consecutive positions of a circular axis of `len` cells fall on.
fn wrap_positions(n: usize, center: usize, len: usize) -> (r: Vec<usize>)
    requires
        0 < len <= MAX_CELLS,
        n <= 2 * MAX_CELLS,
    ensures
        r@.len() == n,
        forall|k: int|
            0 <= k < n ==> #[trigger] r@[k] == wrapped_positions(
                n as nat,
                center as int,
                len as int,
            )[k],
        forall|k: int| 0 <= k < n ==> #[trigger] r@[k] < len,
{
    let shift: usize = center % len;
    let mut out: Vec<usize> = Vec::new();
    let mut k: usize = 0;
    while k < n
        invariant
            0 < len <= MAX_CELLS,
            n <= 2 * MAX_CELLS,
            shift == center as int % len as int,
            k <= n,
            out@.len() == k,
            forall|i: int| 0 <= i < k ==> #[trigger] out@[i] == (i - center) % (len as int),
            forall|i: int| 0 <= i < k ==> #[trigger] out@[i] < len,
        decreases n - k,
    {
        let cell: usize = (k % len + (len - shift)) % len;
        proof {
            vstd::arithmetic::div_mod::lemma_sub_mod_noop(k as int, center as int, len as int);
            vstd::arithmetic::div_mod::lemma_mod_add_multiples_vanish(
                k as int % len as int - shift,
                len as int,
            );
        }
        out.push(cell);
        k = k + 1;
    }
    out
}

/// Adds every `value(a, b)` to the cell that row `a` and column `b` are sent to.
fn gather<F: Bm3dFloat, G: Fn(usize, usize) -> F>(
    rows: usize,
    cols: usize,
    row_to: &Vec<usize>,
    col_to: &Vec<usize>,
    value: &G,
    Ghost(values): Ghost<Matrix<F>>,
    Ghost(row_map): Ghost<Seq<int>>,
    Ghost(col_map): Ghost<Seq<int>>,
) -> (r: Grid<F>)
    requires
        shape_fits(rows as int, cols as int),
        values.rows == row_to@.len() == row_map.len(),
        values.cols == col_to@.len() == col_map.len(),
        forall|k: int|
            0 <= k < row_to@.len() ==> (#[trigger] row_to@[k]) < rows && row_to@[k] == row_map[k],
        forall|k: int|
            0 <= k < col_to@.len() ==> (#[trigger] col_to@[k]) < cols && col_to@[k] == col_map[k],
        forall|a: usize, b: usize|
            a < values.rows && b < values.cols ==> call_requires(*value, (a, b)),
        forall|a: usize, b: usize, v: F|
            a < values.rows && b < values.cols && #[trigger] call_ensures(*value, (a, b), v) ==> v
                == values.at(a as int, b as int),
    ensures
        r@ == gathered(values, row_map, col_map, rows as nat, cols as nat),
{
    let blank = |r: usize, c: usize| -> (v: F)
        ensures
            v == F::zero_spec(),
        { F::zero() };
    let mut big: Grid<F> = Grid::from_shape_fn(rows, cols, &blank);
    let mut a: usize = 0;
    while a < row_to.len()
        invariant
            values.rows == row_to@.len() == row_map.len(),
            values.cols == col_to@.len() == col_map.len(),
            forall|k: int|
                0 <= k < row_to@.len() ==> (#[trigger] row_to@[k]) < rows && row_to@[k]
                    == row_map[k],
            forall|k: int|
                0 <= k < col_to@.len() ==> (#[trigger] col_to@[k]) < cols && col_to@[k]
                    == col_map[k],
            forall|a: usize, b: usize|
                a < values.rows && b < values.cols ==> call_requires(*value, (a, b)),
            forall|a: usize, b: usize, v: F|
                a < values.rows && b < values.cols && #[trigger] call_ensures(*value, (a, b), v)
                    ==> v == values.at(a as int, b as int),
            a <= row_to@.len(),
            big@.rows == rows,
            big@.cols == cols,
            forall|i: int, j: int|
                big@.has(i, j) ==> #[trigger] big@.at(i, j) == gathered_before(
                    values,
                    row_map,
                    col_map,
                    i,
                    j,
                    a as nat,
                    0,
                ),
        decreases row_to@.len() - a,
    {
        let dst_r = row_to[a];
        let mut b: usize = 0;
        while b < col_to.len()
            invariant
                values.rows == row_to@.len() == row_map.len(),
                values.cols == col_to@.len() == col_map.len(),
                forall|k: int|
                    0 <= k < col_to@.len() ==> (#[trigger] col_to@[k]) < cols && col_to@[k]
                        == col_map[k],
                forall|a: usize, b: usize|
                    a < values.rows && b < values.cols ==> call_requires(*value, (a, b)),
                forall|a: usize, b: usize, v: F|
                    a < values.rows && b < values.cols && #[trigger] call_ensures(*value, (a, b), v)
                        ==> v == values.at(a as int, b as int),
                a < row_to@.len(),
                dst_r == row_map[a as int],
                dst_r < rows,
                b <= col_to@.len(),
                big@.rows == rows,
                big@.cols == cols,
                forall|i: int, j: int|
                    big@.has(i, j) ==> #[trigger] big@.at(i, j) == gathered_before(
                        values,
                        row_map,
                        col_map,
                        i,
                        j,
                        a as nat,
                        b as nat,
                    ),
            decreases col_to@.len() - b,
        {
            let dst_c = col_to[b];
            let v = value(a, b);
            let sum = big.get(dst_r, dst_c).plus(v);
            big = big.with_cell(dst_r, dst_c, sum);
            b = b + 1;
        }
        a = a + 1;
    }
    proof {
        big.lemma_view_wf();
        lemma_same_matrix(big@, gathered(values, row_map, col_map, rows as nat, cols as nat));
    }
    big
}

/// The PSF on a circular `rows x cols` grid, with its centre on cell `(0, 0)`.
pub fn place_psf<F: Bm3dFloat>(psf: &Grid<F>, rows: usize, cols: usize) -> (r: Grid<F>)
    requires
        rows > 0,
        cols > 0,
        shape_fits(rows as int, cols as int),
    ensures
        r@ == placed_psf(psf@, rows as nat, cols as nat),
{
    let (psf_rows, psf_cols) = psf.dim();
    let row_to = wrap_positions(psf_rows, psf_rows / 2, rows);
    let col_to = wrap_positions(psf_cols, psf_cols / 2, cols);
    let entry = |r: usize, c: usize| -> (v: F)
        requires
            psf@.has(r as int, c as int),
        ensures
            v == psf@.at(r as int, c as int),
        { psf.get(r, c) };
    gather(
        rows,
        cols,
        &row_to,
        &col_to,
        &entry,
        Ghost(psf@),
        Ghost(wrapped_positions(psf@.rows, psf@.rows as int / 2, rows as int)),
        Ghost(wrapped_positions(psf@.cols, psf@.cols as int / 2, cols as int)),
    )
}

/// Optical transfer function of a PSF on a `rows x cols` grid.
///
/// The PSF is centred at `(psf_rows / 2, psf_cols / 2)` and circularly shifted so that
/// its centre lands on index `(0, 0)`, which makes the convolution phase-free.
pub fn psf_transfer_function<F: Bm3dFloat, Fft: Fn(&Grid<F>) -> Grid<Complex<F>>>(
    psf: &Grid<F>,
    rows: usize,
    cols: usize,
    fft2d: &Fft,
) -> (transfer: Grid<Complex<F>>)
    requires
        rows > 0,
        cols > 0,
        shape_fits(rows as int, cols as int),
        is_forward_transform(*fft2d, rows as int, cols as int),
    ensures
        is_fft(*fft2d, placed_psf(psf@, rows as nat, cols as nat), transfer@),
        transfer@.rows == rows,
        transfer@.cols == cols,
{
    let big = place_psf(psf, rows, cols);
    fft2d(&big)
}

/// The real matrix `m` as a complex one.
pub open spec fn complex_of<F: Bm3dFloat>(m: Matrix<F>) -> Matrix<Complex<F>> {
    m.map(|x: F| Complex::from_real_spec(x))
}

/// The weight that a window of `patch_size` samples gives to the lag `lag`.
pub open spec fn lag_weight<F: Bm3dFloat>(patch_size: int, lag: int) -> F {
    let distance = if lag < 0 {
        -lag
    } else {
        lag
    };
    F::one_spec().minus_spec(
        F::isize_as_spec(distance as isize).over_spec(F::usize_as_spec(patch_size as usize)),
    )
}

/// The autocorrelation at all lags shorter than a patch, in increasing order of the lags,
/// weighted with the triangular window of a patch. Lags wrap around the autocorrelation.
pub open spec fn windowed_lags<F: Bm3dFloat>(acf: Matrix<F>, patch_size: int) -> Matrix<F> {
    Matrix::from_fn(
        (2 * patch_size - 1) as nat,
        (2 * patch_size - 1) as nat,
        |a: int, b: int|
            lag_weight::<F>(patch_size, a - (patch_size - 1)).times_spec(
                lag_weight(patch_size, b - (patch_size - 1)),
            ).times_spec(
                acf.at(
                    (a - (patch_size - 1)) % (acf.rows as int),
                    (b - (patch_size - 1)) % (acf.cols as int),
                ),
            ),
    )
}

/// The windowed autocorrelation with its lags folded modulo the patch size.
pub open spec fn folded_autocorrelation<F: Bm3dFloat>(
    acf: Matrix<F>,
    patch_size: int,
) -> Matrix<F> {
    let lags = (2 * patch_size - 1) as nat;
    gathered(
        windowed_lags(acf, patch_size),
        wrapped_positions(lags, patch_size - 1, patch_size),
        wrapped_positions(lags, patch_size - 1, patch_size),
        patch_size as nat,
        patch_size as nat,
    )
}

/// The real parts of a spectrum.
pub open spec fn real_parts<F: Bm3dFloat>(spectrum: Matrix<Complex<F>>) -> Matrix<F> {
    spectrum.map(|z: Complex<F>| z.re)
}

/// The lower bound of the noise variance per coefficient: a millionth of the mean variance,
/// and never less than the square of [`epsilon`].
pub open spec fn variance_floor<F: Bm3dFloat>(spectrum: Matrix<Complex<F>>) -> F {
    total(real_parts(spectrum)).over_spec(
        F::usize_as_spec((spectrum.rows * spectrum.cols) as usize),
    ).times_spec(F::from_decimal_spec(1, 6)).max_spec(F::from_decimal_spec(1, 24))
}

/// The noise standard deviation per coefficient: the root of the variance, which is bounded
/// from below.
pub open spec fn coefficient_sigmas<F: Bm3dFloat>(spectrum: Matrix<Complex<F>>) -> Matrix<F> {
    spectrum.map(|z: Complex<F>| z.re.max_spec(variance_floor(spectrum)).sqrt_spec())
}

/// Whether `sigmas` are the noise levels per patch coefficient that belong to the noise power
/// spectrum `noise_psd`: the spectrum is taken to the autocorrelation, that is windowed and
/// folded to a patch, and the transform of the patch gives the variances.
pub open spec fn is_patch_noise_sigma<
    F: Bm3dFloat,
    Fft: Fn(&Grid<F>) -> Grid<Complex<F>>,
    Ifft: Fn(&Grid<Complex<F>>) -> Grid<F>,
>(
    fft2d: Fft,
    ifft2d: Ifft,
    noise_psd: Matrix<F>,
    patch_size: int,
    sigmas: Matrix<F>,
) -> bool {
    exists|acf: Matrix<F>, spectrum: Matrix<Complex<F>>|
        {
            &&& #[trigger] is_ifft(ifft2d, complex_of(noise_psd), acf)
            &&& #[trigger] is_fft(fft2d, folded_autocorrelation(acf, patch_size), spectrum)
            &&& sigmas == coefficient_sigmas(spectrum)
        }
}

/// The windowed autocorrelation with its lags folded modulo the patch size.
pub fn fold_autocorrelation<F: Bm3dFloat>(acf: &Grid<F>, patch_size: usize) -> (r: Grid<F>)
    requires
        patch_size > 0,
        shape_fits(patch_size as int, patch_size as int),
        !acf@.is_empty(),
    ensures
        r@ == folded_autocorrelation(acf@, patch_size as int),
{
    let (rows, cols) = acf.dim();
    let lags: usize = 2 * patch_size - 1;
    let p_f = F::usize_as(patch_size);
    let to = wrap_positions(lags, patch_size - 1, patch_size);
    let src_rows = wrap_positions(lags, patch_size - 1, rows);
    let src_cols = wrap_positions(lags, patch_size - 1, cols);
    let term = |a: usize, b: usize| -> (v: F)
        requires
            a < lags,
            b < lags,
        ensures
            v == windowed_lags(acf@, patch_size as int).at(a as int, b as int),
        {
            let w_row = window(patch_size, a, p_f);
            let w_col = window(patch_size, b, p_f);
            assert(src_rows@[a as int] < rows);
            assert(src_cols@[b as int] < cols);
            w_row.times(w_col).times(acf.get(src_rows[a], src_cols[b]))
        };
    let ghost positions = wrapped_positions(lags as nat, patch_size - 1, patch_size as int);
    gather(
        patch_size,
        patch_size,
        &to,
        &to,
        &term,
        Ghost(windowed_lags(acf@, patch_size as int)),
        Ghost(positions),
        Ghost(positions),
    )
}

/// The weight of the `k`-th of the lags `-(patch_size - 1) ..= patch_size - 1`.
fn window<F: Bm3dFloat>(patch_size: usize, k: usize, p_f: F) -> (w: F)
    requires
        0 < patch_size <= MAX_CELLS,
        k < 2 * patch_size - 1,
        p_f == F::usize_as_spec(patch_size),
    ensures
        w == lag_weight::<F>(patch_size as int, k - (patch_size - 1)),
{
    let distance: isize = if k < patch_size - 1 {
        (patch_size - 1 - k) as isize
    } else {
        (k - (patch_size - 1)) as isize
    };
    F::one().minus(F::isize_as(distance).over(p_f))
}

/// The noise standard deviation per coefficient of a patch spectrum that holds variances.
pub fn sigmas_of_variances<F: Bm3dFloat>(spectrum: &Grid<Complex<F>>) -> (r: Grid<F>)
    ensures
        r@ == coefficient_sigmas(spectrum@),
{
    let (rows, cols) = spectrum.dim();
    let variance = |r: usize, c: usize| -> (v: F)
        requires
            spectrum@.has(r as int, c as int),
        ensures
            v == real_parts(spectrum@).at(r as int, c as int),
        { spectrum.get(r, c).re };
    let sum = sum_over(rows, cols, &variance, Ghost(real_parts(spectrum@)));
    let mean_var = sum.over(F::usize_as(rows * cols));
    let floor = mean_var.times(F::from_decimal(1, 6)).max(F::from_decimal(1, 24));
    let sigma = |r: usize, c: usize| -> (v: F)
        requires
            spectrum@.has(r as int, c as int),
        ensures
            v == spectrum@.at(r as int, c as int).re.max_spec(floor).sqrt_spec(),
        { spectrum.get(r, c).re.max(floor).sqrt() };
    let out = Grid::from_shape_fn(rows, cols, &sigma);
    proof {
        lemma_same_matrix(out@, coefficient_sigmas(spectrum@));
    }
    out
}

/// The real grid as a complex one.
fn to_complex<F: Bm3dFloat>(m: &Grid<F>) -> (r: Grid<Complex<F>>)
    ensures
        r@ == complex_of(m@),
{
    let (rows, cols) = m.dim();
    let cell = |r: usize, c: usize| -> (v: Complex<F>)
        requires
            m@.has(r as int, c as int),
        ensures
            v == Complex::<F>::from_real_spec(m@.at(r as int, c as int)),
        { Complex::from_real(m.get(r, c)) };
    let out = Grid::from_shape_fn(rows, cols, &cell);
    proof {
        lemma_same_matrix(out@, complex_of(m@));
    }
    out
}

/// Convert a frequency-domain noise PSD into per-2D-coefficient noise sigmas.
///
/// `noise_psd[f]` is the power spectral density in per-pixel units, i.e. the pixel
/// variance of the noise equals the mean of `noise_psd` over all frequencies.
///
/// For a stationary process the variance of the `patch_size x patch_size` DFT
/// coefficient `(r, c)` is
///
/// ```text
/// Var[r, c] = sum_{du,dv} (P - |du|)(P - |dv|) * R(du, dv) * exp(-2*pi*i*(r*du + c*dv)/P)
/// ```
///
/// with `R` the autocorrelation function (the inverse FFT of the PSD). The returned
/// value is `sqrt(Var / P^2)`, which is exactly the "equivalent white sigma" that the
/// filtering kernel expects: it computes `var = k * P^2 * sigma^2` for a group of `k` patches.
/// White noise of level `sigma` maps to a flat `sigma` map, as it should.
pub fn patch_noise_sigma<
    F: Bm3dFloat,
    Fft: Fn(&Grid<F>) -> Grid<Complex<F>>,
    Ifft: Fn(&Grid<Complex<F>>) -> Grid<F>,
>(noise_psd: &Grid<F>, patch_size: usize, fft2d: &Fft, ifft2d: &Ifft) -> (sigmas: Grid<F>)
    requires
        patch_size > 0,
        shape_fits(patch_size as int, patch_size as int),
        !noise_psd@.is_empty(),
        is_forward_transform(*fft2d, patch_size as int, patch_size as int),
        is_inverse_transform(*ifft2d, noise_psd@.rows as int, noise_psd@.cols as int),
    ensures
        is_patch_noise_sigma(*fft2d, *ifft2d, noise_psd@, patch_size as int, sigmas@),
        sigmas@.rows == patch_size,
        sigmas@.cols == patch_size,
{
    let psd_complex = to_complex(noise_psd);
    let acf = ifft2d(&psd_complex);
    assert(is_ifft(*ifft2d, complex_of(noise_psd@), acf@));
    let folded = fold_autocorrelation(&acf, patch_size);
    let spectrum = fft2d(&folded);
    assert(is_fft(*fft2d, folded_autocorrelation(acf@, patch_size as int), spectrum@));
    sigmas_of_variances(&spectrum)
}

/// The product of a spectrum and a frequency response.
pub open spec fn filtered<F: Bm3dFloat>(
    spectrum: Matrix<Complex<F>>,
    filter: Matrix<Complex<F>>,
) -> Matrix<Complex<F>> {
    Matrix::from_fn(
        spectrum.rows,
        spectrum.cols,
        |r: int, c: int| spectrum.at(r, c).times_spec(filter.at(r, c)),
    )
}

/// Multiply a spectrum by a frequency response.
pub fn apply_filter<F: Bm3dFloat>(
    spectrum: &Grid<Complex<F>>,
    filter: &Grid<Complex<F>>,
) -> (r: Grid<Complex<F>>)
    requires
        filter@.rows >= spectrum@.rows,
        filter@.cols >= spectrum@.cols,
    ensures
        r@ == filtered(spectrum@, filter@),
{
    let (rows, cols) = spectrum.dim();
    let cell = |r: usize, c: usize| -> (v: Complex<F>)
        requires
            spectrum@.has(r as int, c as int),
        ensures
            v == spectrum@.at(r as int, c as int).times_spec(filter@.at(r as int, c as int)),
        { spectrum.get(r, c).times(filter.get(r, c)) };
    let out = Grid::from_shape_fn(rows, cols, &cell);
    proof {
        lemma_same_matrix(out@, filtered(spectrum@, filter@));
    }
    out
}

/// The least regularization, relative to a transfer function of magnitude one. Only relevant
/// for (near) noise-free inputs, where the inverse filter would explode.
pub open spec fn min_regularization<F: Bm3dFloat>() -> F {
    F::from_decimal_spec(1, 8)
}

/// The estimated variance of the blurred signal: that of the observation less that of the
/// noise, and at least a twentieth of the observed one.
pub open spec fn signal_power<F: Bm3dFloat>(variance: F, sigma_sq: F) -> F {
    variance.minus_spec(sigma_sq).max_spec(
        variance.times_spec(F::from_decimal_spec(5, 2)),
    ).max_spec(epsilon())
}

/// The regularization of the first inversion.
pub open spec fn inverse_regularization<F: Bm3dFloat>(reg_ri: F, variance: F, sigma_sq: F) -> F {
    reg_ri.times_spec(sigma_sq).over_spec(signal_power(variance, sigma_sq)).max_spec(
        min_regularization(),
    )
}

/// The regularized inverse filter `conj(V) / (|V|^2 + lambda)`.
pub open spec fn inverse_filter<F: Bm3dFloat>(
    transfer: Matrix<Complex<F>>,
    lambda: F,
) -> Matrix<Complex<F>> {
    transfer.map(
        |v: Complex<F>| v.conj_spec().over_spec(v.norm_sqr_spec().plus_spec(lambda)),
    )
}

/// The noise power spectrum behind a filter: `sigma^2 * |filter|^2`.
pub open spec fn filtered_noise<F: Bm3dFloat>(
    filter: Matrix<Complex<F>>,
    sigma_sq: F,
) -> Matrix<F> {
    filter.map(|f: Complex<F>| sigma_sq.times_spec(f.norm_sqr_spec()))
}

/// The power spectrum `|spectrum|^2 / n`.
pub open spec fn signal_psd<F: Bm3dFloat>(spectrum: Matrix<Complex<F>>, inv_n: F) -> Matrix<F> {
    spectrum.map(|z: Complex<F>| z.norm_sqr_spec().times_spec(inv_n))
}

/// The regularization of the Wiener inversion.
pub open spec fn wiener_regularization<F: Bm3dFloat>(
    reg_rwi: F,
    sigma_sq: F,
    psd: Matrix<F>,
    inv_n: F,
) -> F {
    reg_rwi.times_spec(sigma_sq).max_spec(
        min_regularization::<F>().times_spec(total(psd).times_spec(inv_n)),
    )
}

/// The response of the Wiener inverse at one frequency: `conj(V) * S / (|V|^2 * S + reg)`, or
/// zero if the denominator is not positive.
pub open spec fn wiener_response<F: Bm3dFloat>(v: Complex<F>, psd: F, reg: F) -> Complex<F> {
    let denom = v.norm_sqr_spec().times_spec(psd).plus_spec(reg);
    if F::zero_spec().lt_spec(denom) {
        v.conj_spec().scaled_spec(psd).over_spec(denom)
    } else {
        Complex::zero_spec()
    }
}

/// The regularized Wiener inverse filter.
pub open spec fn wiener_filter<F: Bm3dFloat>(
    transfer: Matrix<Complex<F>>,
    psd: Matrix<F>,
    reg: F,
) -> Matrix<Complex<F>> {
    Matrix::from_fn(
        transfer.rows,
        transfer.cols,
        |r: int, c: int| wiener_response(transfer.at(r, c), psd.at(r, c), reg),
    )
}

/// The regularization of the first inversion.
pub fn regularization_of_inverse<F: Bm3dFloat>(reg_ri: F, variance: F, sigma_sq: F) -> (r: F)
    ensures
        r == inverse_regularization(reg_ri, variance, sigma_sq),
{
    let power = variance.minus(sigma_sq).max(variance.times(F::from_decimal(5, 2))).max(
        F::from_decimal(1, 12),
    );
    reg_ri.times(sigma_sq).over(power).max(F::from_decimal(1, 8))
}

/// The regularized inverse filter of a transfer function.
pub fn regularized_inverse<F: Bm3dFloat>(transfer: &Grid<Complex<F>>, lambda: F) -> (r: Grid<
    Complex<F>,
>)
    ensures
        r@ == inverse_filter(transfer@, lambda),
{
    let (rows, cols) = transfer.dim();
    let response = |r: usize, c: usize| -> (f: Complex<F>)
        requires
            transfer@.has(r as int, c as int),
        ensures
            f == transfer@.at(r as int, c as int).conj_spec().over_spec(
                transfer@.at(r as int, c as int).norm_sqr_spec().plus_spec(lambda),
            ),
        {
            let v = transfer.get(r, c);
            v.conj().over(v.norm_sqr().plus(lambda))
        };
    let out = Grid::from_shape_fn(rows, cols, &response);
    proof {
        lemma_same_matrix(out@, inverse_filter(transfer@, lambda));
    }
    out
}

/// The noise power spectrum behind a filter.
pub fn noise_behind<F: Bm3dFloat>(filter: &Grid<Complex<F>>, sigma_sq: F) -> (r: Grid<F>)
    ensures
        r@ == filtered_noise(filter@, sigma_sq),
{
    let (rows, cols) = filter.dim();
    let power = |r: usize, c: usize| -> (p: F)
        requires
            filter@.has(r as int, c as int),
        ensures
            p == sigma_sq.times_spec(filter@.at(r as int, c as int).norm_sqr_spec()),
        { sigma_sq.times(filter.get(r, c).norm_sqr()) };
    let out = Grid::from_shape_fn(rows, cols, &power);
    proof {
        lemma_same_matrix(out@, filtered_noise(filter@, sigma_sq));
    }
    out
}

/// The power spectrum of a signal.
pub fn power_spectrum<F: Bm3dFloat>(spectrum: &Grid<Complex<F>>, inv_n: F) -> (r: Grid<F>)
    ensures
        r@ == signal_psd(spectrum@, inv_n),
{
    let (rows, cols) = spectrum.dim();
    let power = |r: usize, c: usize| -> (p: F)
        requires
            spectrum@.has(r as int, c as int),
        ensures
            p == spectrum@.at(r as int, c as int).norm_sqr_spec().times_spec(inv_n),
        { spectrum.get(r, c).norm_sqr().times(inv_n) };
    let out = Grid::from_shape_fn(rows, cols, &power);
    proof {
        lemma_same_matrix(out@, signal_psd(spectrum@, inv_n));
    }
    out
}

/// The regularization of the Wiener inversion.
pub fn regularization_of_wiener<F: Bm3dFloat>(
    reg_rwi: F,
    sigma_sq: F,
    psd: &Grid<F>,
    inv_n: F,
) -> (r: F)
    ensures
        r == wiener_regularization(reg_rwi, sigma_sq, psd@, inv_n),
{
    let mean_signal_psd = psd.sum().times(inv_n);
    reg_rwi.times(sigma_sq).max(F::from_decimal(1, 8).times(mean_signal_psd))
}

/// The regularized Wiener inverse filter of a transfer function.
pub fn regularized_wiener_inverse<F: Bm3dFloat>(
    transfer: &Grid<Complex<F>>,
    psd: &Grid<F>,
    reg: F,
) -> (r: Grid<Complex<F>>)
    requires
        psd@.rows == transfer@.rows,
        psd@.cols == transfer@.cols,
    ensures
        r@ == wiener_filter(transfer@, psd@, reg),
{
    let (rows, cols) = transfer.dim();
    let response = |r: usize, c: usize| -> (f: Complex<F>)
        requires
            transfer@.has(r as int, c as int),
        ensures
            f == wiener_response(
                transfer@.at(r as int, c as int),
                psd@.at(r as int, c as int),
                reg,
            ),
        {
            let v = transfer.get(r, c);
            let power = psd.get(r, c);
            let denom = v.norm_sqr().times(power).plus(reg);
            if F::zero().lt(denom) {
                v.conj().scaled(power).over(denom)
            } else {
                Complex::zero()
            }
        };
    let out = Grid::from_shape_fn(rows, cols, &response);
    proof {
        lemma_same_matrix(out@, wiener_filter(transfer@, psd@, reg));
    }
    out
}

} // verus!
