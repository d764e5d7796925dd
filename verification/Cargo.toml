[package]
name = "vuvuzela"
version = "0.1.0"
edition = "2021"
publish = false

[dependencies]
sha2 = "0.10"
ring = "0.17"
rand = "0.8"
bincode = "1"
serde = { version = "1", features = ["derive"] }
hex = "0.4"
thiserror = "1"
clap = { version = "4", features = ["derive"] }
