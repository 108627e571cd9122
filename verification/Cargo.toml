[package]
name = "multisig_processor"
version = "0.1.0"
edition = "2021"
publish = false

[dependencies]
serde_json = "1"
hex = "0.4"
bcs = "0.1"
move-core-types = "0.0.3"
regex = "1"
serde = { version = "1", features = ["derive"] }
chrono = "0.4"
anyhow = "1"
diesel = { version = "2", default-features = false, features = ["postgres_backend", "chrono", "serde_json"] }
reqwest = { version = "0.12", features = ["json"] }
async-trait = "0.1"
tracing = "0.1"
ahash = "0.8"
