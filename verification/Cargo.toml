[package]
name = "zcash_proofs"
version = "0.1.0"
edition = "2021"
publish = false

[dependencies]
bellman = "=0.15.0"
bls12_381 = "=0.9.0"
ff = "=0.14.0"
groth16 = "=0.2.0"
rand_core = "=0.10.1"
rand_xorshift = "=0.5.0"
sapling-crypto = "=0.9.0"

[dev-dependencies]
byteorder = "=1.5.0"
