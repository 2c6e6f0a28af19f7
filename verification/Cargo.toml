[package]
name = "snark_verifier"
version = "0.1.0"
edition = "2021"
publish = false

[dependencies]
blake2b_simd = "1"
halo2curves = "=0.10.0"
rand_chacha = "=0.3.1"
serde_json = "=1.0.154"
