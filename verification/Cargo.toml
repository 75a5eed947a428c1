[package]
name = "bm3d_deblur"
version = "0.1.0"
edition = "2021"
publish = false

[dependencies]
ndarray = "0.16"
rustfft = "6.2"

[dev-dependencies]
rand = "0.8"
rand_distr = "0.4"
