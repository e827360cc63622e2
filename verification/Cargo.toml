[package]
name = "git_repository"
version = "0.1.0"
edition = "2021"
publish = false

[dependencies]
anyhow = "1"
bstr = "1"
jwalk = "0.8"
serde = { version = "1", features = ["derive"] }
