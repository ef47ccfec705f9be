[package]
name = "fftspectrum"
version = "0.1.0"
edition = "2021"
publish = false

[dependencies]
const-str = "=1.1.0"
rustfft = "=6.4.1"
vapours = "=0.3.0"
vapoursynth4-rs = "=0.5.1"

[dev-dependencies]
ndarray = "=0.17.2"
