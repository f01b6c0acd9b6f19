[package]
name = "threshold_crypto"
version = "0.1.0"
edition = "2021"
publish = false

[dependencies]
pairing = "=0.14.2"
blake2b_simd = "=1.0.5"
rand = "=0.4.6"
rand04_compat = "=0.1.1"
rand_chacha = "=0.1.1"
rand_core = "=0.3.2"
