[package]
name = "mosaic"
version = "0.1.0"
edition = "2021"
publish = false

[dependencies]
ark-bn254 = "0.5"
ark-ff = "0.5"

[dev-dependencies]
ark-ec = "0.5"
ark-serialize = "0.5"
tiny-keccak = { version = "2", features = ["keccak"] }
