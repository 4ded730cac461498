[package]
name = "dpl_debugger"
version = "0.1.0"
edition = "2021"
publish = false

[dependencies]
anyhow = "1"
nix = { version = "0.29", features = ["ptrace", "process", "signal"] }
object = { version = "0.36", default-features = false, features = ["read", "std"] }
serde = { version = "1", features = ["derive"] }
serde_json = "1"
