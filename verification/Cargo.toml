[package]
name = "ciphertools"
version = "0.1.0"
edition = "2021"
publish = false

[dependencies]
ahash = "*"
clap = { version = "*", features = ["derive"] }
crossbeam = "*"
csv = "*"
num_cpus = "*"
rayon = "*"
serde = { version = "*", features = ["derive"] }
serde_json = "*"
