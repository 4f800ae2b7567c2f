[package]
name = "solana_mirror"
version = "0.1.0"
edition = "2021"
publish = false

[dependencies]
base64 = "*"
solana-program = { version = "*", default-features = false }
spl-token = { version = "*", default-features = false }
mpl-token-metadata = "*"
serde = { version = "*", features = ["derive"] }
serde_json = "*"
reqwest = { version = "*", default-features = false, features = ["json"] }
futures = "*"
uuid = { version = "*", features = ["v4"] }
dotenv = "*"
