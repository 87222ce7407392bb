[package]
name = "mwalib"
version = "0.1.0"
edition = "2021"
publish = false

[dependencies]
anyhow = "1"
chrono = { version = "0.4", default-features = false, features = ["std"] }
fitsio = "*"
libc = "0.2"
thiserror = "1"
