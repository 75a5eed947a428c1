# bm3d_deblur

Deblurring of noisy images: regularized inversion of a known blur in the frequency domain,
followed by collaborative filtering of the noise that the inversion has coloured, in two stages.
The library is written in Verus. The functions of `src/` carry contracts, and their bodies are
proved against them. The methods of the scalar trait `Bm3dFloat` have no body here: their
contracts only name their results, and are left to its implementations.

## Layout

- `src/` is the library. It is generic over the scalar type (`Bm3dFloat`) and over the operations
  that a run is built on (`Operations`: the Fourier transforms, one pass of the collaborative
  filter, and a robust estimator of spread).
- `tests/` runs the library on floating-point numbers, with transforms by `rustfft`.
- `app/` offers the library on `ndarray` arrays of `f32` and `f64`. It plans the transforms and
  takes the collaborative filter and the estimator from its caller.

## What is proved

Contracts say which scalar operations make up a result. Where a result depends on an operation
that is handed in, they say what the operation is given and what is done with its answer, for
every answer it may give.

The functions whose names begin with `law_` state what holds of the library as a whole. Those
that need sums in any order or exact division are stated for scalars that compute without
rounding (`exact::is_exact`). How far floating-point numbers depart from them is not proved.
