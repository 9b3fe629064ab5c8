[package]
name = "swiss"
version = "0.1.0"
edition = "2021"
publish = false

[dependencies]
anyhow = "1"
clap = { version = "4", features = ["derive"] }
colored = "2"
home = "0.5"
log = "0.4"
rkyv = { version = "0.7", features = ["validation"] }
bytecheck = "0.6"
serde = { version = "1", features = ["derive"] }
serde_yaml = "0.9"
