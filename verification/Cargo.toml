[package]
name = "proving_pipeline"
version = "0.1.0"
edition = "2021"
publish = false

[dependencies]
sha3 = "*"
postcard = { version = "*", features = ["alloc"] }
futures = "*"
tokio = { version = "*", features = ["rt"] }
nexus-sdk = "*"
