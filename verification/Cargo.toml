[package]
name = "sax"
version = "0.1.0"
edition = "2021"
publish = false

[dependencies]
anyhow = "*"
bzip2 = "*"
clap = { version = "*", features = ["derive"] }
flate2 = "*"
serde = { version = "*", features = ["derive"] }
serde_yaml = "*"
sevenz-rust = "*"
tar = "*"
thiserror = "*"
unrar-ng = "*"
xz2 = "*"
zip = "*"
zstd = "*"
