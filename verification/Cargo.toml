[package]
name = "gapura"
version = "0.1.0"
edition = "2021"
publish = false

[dependencies]
alloy = { version = "1", default-features = false, features = ["std", "signer-local", "sol-types", "contract", "provider-http", "rpc-types", "network"] }
anyhow = "1"
clap = { version = "4", default-features = false, features = ["std", "derive", "help", "usage", "error-context"] }
hex = "0.4"
moka = { version = "0.12", default-features = false, features = ["future"] }
serde = { version = "1", features = ["derive"] }
serde_json = "1"
tokio = { version = "1", features = ["rt-multi-thread", "time"] }
toml = "0.8"
url = "=2.5.8"
