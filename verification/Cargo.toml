[package]
name = "mutation_orchestrator"
version = "0.1.0"
edition = "2021"
publish = false

[dependencies]
eyre = "0.6"
foundry-compilers = { version = "*", default-features = false }
regex = "1"
serde = { version = "1", features = ["derive"] }
serde_json = "1"
