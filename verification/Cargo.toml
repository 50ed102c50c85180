[package]
name = "freearc_cellar"
version = "0.1.0"
edition = "2021"
publish = false

[dependencies]
crc32fast = "=1.5.4"
lzma-rs = "=0.3.0"
zstd = "=0.13.4"
serde = { version = "=1.0.229", features = ["derive"] }
serde_json = "=1.0.154"
clap = { version = "=4.6.7", features = ["derive"] }
walkdir = "=2.5.0"
uuid = { version = "=1.29.0", features = ["v4"] }
directories = "=5.0.1"
libloading = "0.8"
notify = "6"
