[package]
name = "devinventory"
version = "0.1.0"
edition = "2021"
publish = false

[dependencies]
anyhow = "*"
base64 = "*"
chacha20poly1305 = "*"
chrono = "*"
clap = { version = "*", features = ["derive"] }
dirs = "*"
env_logger = "*"
keyring = { version = "*", default-features = false, features = ["linux-native"] }
log = "*"
rand = "*"
rpassword = "*"
serde = { version = "*", features = ["derive"] }
sqlx = { version = "*", default-features = false, features = ["sqlite", "runtime-tokio"] }
tabled = "*"
tokio = { version = "*", features = ["rt-multi-thread", "macros"] }
toml = "*"
uuid = { version = "*", features = ["v4"] }
zeroize = "*"
