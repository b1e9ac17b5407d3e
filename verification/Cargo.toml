[package]
name = "rustitch"
version = "0.1.0"
edition = "2021"
publish = false

[dependencies]
png = "0.17"
tiny-skia = "0.11"
thiserror = "1"
anyhow = "1"
clap = { version = "4", features = ["derive"] }
