[package]
name = "wg-vanity"
version = "0.6.0"
edition = "2021"
publish = false

[dependencies]
base64 = "=0.23.1"
clap = { version = "=4.6.7", features = ["derive"] }
cudarc = { version = "=0.19.10", default-features = false, features = ["std", "driver", "nvrtc", "cuda-12080", "dynamic-loading"] }
mpi = "=0.8.2"
num_cpus = "=1.17.0"
rayon = "=1.12.0"
regex = "=1.13.1"
regex-automata = "=0.4.18"
x25519-dalek = { version = "=3.0.0", features = ["getrandom", "static_secrets"] }

[lints.rust]
unexpected_cfgs = { level = "warn", check-cfg = ["cfg(mpi)"] }
