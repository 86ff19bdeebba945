[package]
name = "salvage"
version = "0.1.0"
edition = "2021"
publish = false

[dependencies]
bollard = "*"
bzip2 = "*"
flate2 = "*"
log = "*"
simple_logger = "*"
time = { version = "*", features = ["local-offset"] }
tokio = { version = "*", features = ["rt"] }
xz2 = "*"
zstd = "*"

[dev-dependencies]
tar = "*"
