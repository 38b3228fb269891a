[package]
name = "ec_gpu_gen"
version = "0.1.0"
edition = "2021"
publish = false

[dependencies]
ark-bn254 = "0.5"
ark-ec = "0.5"
ark-ff = "0.5"
log = "0.4"
opencl3 = "0.9"
thiserror = "1"
yastl = "0.1"

[dev-dependencies]
ark-std = "0.5"
