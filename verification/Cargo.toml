[package]
name = "addmul_precompile"
version = "0.1.0"
edition = "2021"
publish = false

[dependencies]
serde = { version = "1", features = ["derive"] }
p3-field = "*"
p3-matrix = "*"
p3-air = "*"
