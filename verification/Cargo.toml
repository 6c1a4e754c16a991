[package]
name = "exchange_client"
version = "0.1.0"
edition = "2021"
publish = false

[dependencies]
hmac = "*"
sha2 = "*"
reqwest = { version = "*", default-features = false }
tokio = { version = "*", features = ["rt", "rt-multi-thread", "macros"] }
config = { version = "*", default-features = false, features = ["toml"] }
serde = { version = "*", features = ["derive"] }
thiserror = "*"
async-trait = "*"
