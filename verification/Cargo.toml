[package]
name = "solast"
version = "0.1.0"
edition = "2021"
publish = false

[dependencies]
yul = "*"
primitive-types = "*"
serde = { version = "*", features = ["derive"] }
serde_json = "*"
simd-json = "*"
solang-parser = "*"
