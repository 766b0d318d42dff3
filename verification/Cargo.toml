[package]
name = "safechat"
version = "0.1.0"
edition = "2021"
publish = false

[dependencies]
age = "0.11"
anyhow = "1"
axum = { version = "0.8", features = ["ws"] }
axum-server = { version = "0.7", features = ["tls-rustls-no-provider"] }
base64 = "0.22"
chrono = "0.4"
clap = { version = "4", features = ["derive"] }
console = "0.15"
copypasta = "0.10"
dialoguer = { version = "0.11", features = ["password"] }
directories = "6"
flate2 = "1"
futures-executor = "0.3"
libc = "0.2"
png = "0.17"
rand = "0.9"
reqwest = { version = "0.12", default-features = false, features = ["blocking", "json", "rustls-tls"] }
rusqlite = { version = "0.37", features = ["bundled-sqlcipher-vendored-openssl"] }
rustls = { version = "0.23", default-features = false, features = ["ring", "std", "tls12"] }
serde = { version = "1", features = ["derive"] }
serde_json = "1"
sha2 = "0.10"
subtle = "2"
tokio = { version = "1", features = ["macros", "net", "rt-multi-thread", "sync", "time"] }
