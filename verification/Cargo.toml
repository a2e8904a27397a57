[package]
name = "ream_lib"
version = "0.1.0"
edition = "2021"
publish = false

[dependencies]
sha2 = "=0.10.9"
serde = { version = "=1.0.229", features = ["derive"] }
clap = { version = "=4.6.7", features = ["derive"] }
derive_more = { version = "=2.1.1", features = ["display"] }
tracing = "=0.1.44"
dotenv = "=0.15.0"
ethereum_ssz = "=0.8.3"
sp1-zkvm = "=4.2.1"
sp1-derive = "=4.2.1"
snap = "1"
