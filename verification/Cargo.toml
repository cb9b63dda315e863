[package]
name = "robodrummer"
version = "0.1.0"
edition = "2021"
publish = false

[dependencies]
rustfft = "*"
ndarray = "*"
rand = "*"
rand_distr = "*"
bincode = "1"
serde = { version = "*", features = ["derive"] }
toml = "*"
csv = "*"
clap = { version = "*", features = ["derive"] }
dirs = "*"
