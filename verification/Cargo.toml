[package]
name = "implicit_factorization"
version = "0.1.0"
edition = "2021"
publish = false

[dependencies]
rand = "0.4"
rayon = "1"
wyrm = "*"
ndarray = "0.11"
serde = { version = "1", features = ["derive"] }
csv = "1"
