[package]
name = "minimint_wallet"
version = "0.1.0"
edition = "2021"
publish = false

[dependencies]
bitcoin = "=0.28.2"
miniscript = "=7.0.2"
schnorr_fun = "=0.9.2"
sha2 = "=0.10.9"
rand = "=0.8.8"
rand_chacha = "=0.3.1"
