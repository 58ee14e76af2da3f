[package]
name = "mental_poker"
version = "0.1.0"
edition = "2021"
publish = false

[dependencies]
ark-ec = "0.6"
ark-ff = "0.6"
ark-secp256k1 = "0.6"
ark-serialize = "0.6"
ark-std = "0.6"
ark-transcript = "=0.0.6"
getrandom_or_panic = "=0.0.3"
thiserror = "=2.0.21"
wasm-bindgen = "=0.2.130"
