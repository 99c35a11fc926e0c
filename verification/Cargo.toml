[package]
name = "terra_git"
version = "0.1.0"
edition = "2021"
publish = false

[dependencies]
base64 = "0.22"
git2 = { version = "*", default-features = false }
keyring = "3"
serde = { version = "1", features = ["derive"] }
thiserror = "2"
tracing = "0.1"
trash = "5"
