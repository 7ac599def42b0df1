[package]
name = "native_neural_network"
version = "0.1.0"
edition = "2021"
publish = false

[dependencies]
sha2 = { version = "0.10", default-features = false }
