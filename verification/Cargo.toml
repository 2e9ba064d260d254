[package]
name = "ordinal_cash"
version = "0.1.0"
edition = "2021"
publish = false

[dependencies]
ark-bn254 = "0.3"
ark-ec = "0.3"
ark-ff = "0.3"
ethnum = "1"
tiny-keccak = { version = "2", features = ["keccak"] }

[dev-dependencies]
ark-groth16 = { version = "0.3", default-features = false }
