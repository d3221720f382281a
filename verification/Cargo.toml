[package]
name = "lbx"
version = "0.1.0"
edition = "2021"
publish = false

[dependencies]
anyhow = "=1.0.104"
clap = { version = "=4.6.7", features = ["derive"] }
ext4-view = "=1.0.0"
fatfs = "=0.3.6"
flate2 = "=1.1.10"
libc = "=0.2.191"
md5 = "=0.8.1"
ruzstd = "=0.9.1"
rustls = { version = "=0.23.46", default-features = false, features = ["std", "tls12"] }
rustls-rustcrypto = "=0.0.2-alpha"
webpki-roots = "=1.0.10"
