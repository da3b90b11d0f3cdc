[package]
name = "secnix"
version = "0.1.0"
edition = "2021"
publish = false

[dependencies]
aes-gcm = "0.10"
age = { version = "0.10", features = ["armor"] }
anyhow = "1"
base64 = "0.22"
bech32 = "0.11"
clap = { version = "4", features = ["derive"] }
curve25519-dalek = "4"
serde = { version = "1", features = ["derive"] }
serde_json = "1"
serde_yaml = "0.9"
sha2 = "0.10"
shellexpand = "3"
ssh-key = { version = "0.6", features = ["ed25519"] }
thiserror = "1"
tracing = "0.1"
tracing-subscriber = "0.3"
ulid = "1"
users = "0.11"

[dev-dependencies]
regex = "1"
