[package]
name = "poly_commit_benches"
version = "0.1.0"
edition = "2021"
publish = false

[dependencies]
ark-bls12-381 = "=0.4.0"
ark-bls12-377 = "=0.4.0"
ark-bn254 = "=0.4.0"
ark-crypto-primitives = { version = "=0.4.0", default-features = false, features = ["sponge"] }
ark-ec = "=0.4.2"
ark-ff = "=0.4.2"
ark-poly = "=0.4.2"
ark-poly-commit = "=0.4.0"
ark-serialize = "=0.4.2"
ark-std = "=0.4.0"
dusk-plonk = "=0.5.1"
dusk-bytes = "=0.1.7"
derive-hex = "=0.1.2"
rand = "=0.8.8"
rand_chacha = "=0.2.2"
rand_core = "=0.5.1"
thiserror = "=1.0.69"
