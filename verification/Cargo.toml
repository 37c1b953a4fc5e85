[package]
name = "rastertiler"
version = "0.1.0"
edition = "2021"
publish = false

[dependencies]
anyhow = "1"
clap = { version = "4", features = ["derive"] }
crossbeam = "0.8"
gdal = "0.17"
gdal-sys = "*"
hex = "0.4"
indicatif = "0.17"
libc = "0.2"
png = "0.17"
r2d2 = "0.8"
r2d2_sqlite = { version = "*", features = ["bundled"] }
seahash = "4"
