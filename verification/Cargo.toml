[package]
name = "cathar"
version = "0.1.0"
edition = "2021"
publish = false

[dependencies]
hound = "3.5"
symphonia = { version = "*", features = ["all"] }
symphonia-common = "*"
flacenc = "*"
realfft = "3"
rustfft = "6"
thiserror = "*"
anyhow = "1"
clap = { version = "4", features = ["derive"] }
tracing = "0.1"
tracing-subscriber = { version = "0.3", features = ["env-filter"] }
