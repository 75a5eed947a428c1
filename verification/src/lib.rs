//! Deblurring of noisy images with collaborative filtering, with its logic verified.
//!
//! An observed image is taken to be a clean image, blurred with a known point spread function
//! (PSF), plus white noise. Deblurring inverts the blur twice in the frequency domain, with a
//! regularization that keeps the noise in bounds, and removes the noise that the inversion has
//! coloured with a collaborative filter after each inversion; see [`deblur`].
//!
//! The library is written over a scalar type, see [`float_trait`], and over the operations that
//! a run is built on, see [`kernel`]: Fourier transforms, one pass of the collaborative filter,
//! and a robust estimator of spread. Its contracts say which scalar operations make up a result,
//! in which order, and hold for every answer that those operations may give.
//!
//! - [`config`], [`text`]: the settings, their validation, and error messages.
//! - [`psf`]: point spread functions and blurring with them.
//! - [`grid`], [`stack`], [`complex`]: images, stacks of images, spectra.
//! - [`reflect`], [`fast_len`], [`padding`]: mirror padding to fast transform lengths.
//! - [`levels`], [`noise`]: levels of an image and its noise level.
//! - [`spectral`]: the transfer function, the inverse filters and the noise behind them.
//! - [`deblur`]: deblurring of images and stacks.
//! - [`runs`], [`observers`]: laws of every run.
//! - [`exact`], [`sums`], [`finite_sums`]: scalars that compute without rounding, and their sums.
//! - [`laws`], [`observation`], [`scaling`], [`equivariance`], [`white_noise`],
//!   [`variance_bounds`]: what holds of the library over such scalars.
//! - [`spreads`], [`frames`], [`ranges`], [`details`], [`reported`], [`powers`], [`responses`],
//!   [`folds`], [`passes`], [`contrast`]: what single results are, over such scalars, by the
//!   equations and bounds that they have to meet.

pub mod complex;
pub mod config;
pub mod contrast;
pub mod deblur;
pub mod details;
pub mod equivariance;
pub mod exact;
pub mod fast_len;
pub mod finite_sums;
pub mod float_trait;
pub mod folds;
pub mod frames;
pub mod grid;
pub mod kernel;
pub mod laws;
pub mod levels;
pub mod noise;
pub mod observation;
pub mod observers;
pub mod padding;
pub mod passes;
pub mod powers;
pub mod psf;
pub mod ranges;
pub mod reflect;
pub mod reported;
pub mod responses;
pub mod runs;
pub mod scaling;
pub mod spectral;
pub mod spreads;
pub mod stack;
pub mod sums;
pub mod text;
pub mod variance_bounds;
pub mod white_noise;
