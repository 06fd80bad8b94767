[package]
name = "ipu-codegen"
version = "0.1.0"
edition = "2021"
publish = false

[dependencies]
foldhash = "0.1"
hashbrown = "0.15"
serde = { version = "1", features = ["derive"] }
thiserror = "2"
tracing = "0.1"

[dev-dependencies]
fastrand = "2"
