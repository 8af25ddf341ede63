[package]
name = "pianoverse_midi"
version = "0.1.0"
edition = "2021"
publish = false

[dependencies]
midly = "*"
tokio = { version = "*", features = ["rt-multi-thread", "macros", "sync", "net"] }
tokio-tungstenite = "*"
futures-util = "*"
prost = "*"
thiserror = "*"
anyhow = "*"
clap = "*"
inquire = "*"
