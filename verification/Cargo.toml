[package]
name = "transpose_server"
version = "0.1.0"
edition = "2021"
publish = false

[dependencies]
hex = "0.4"
itertools = "0.10"
rayon = "1"
sysinfo = "0.29"
tokio = { version = "1", features = ["full"] }

[dev-dependencies]
rand = "0.8"
