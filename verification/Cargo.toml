[package]
name = "guitarpro"
version = "0.1.0"
edition = "2021"
publish = false

[dependencies]
anyhow = "1"
bpaf = { version = "0.9", features = ["derive"] }
serde = { version = "1", features = ["derive"] }
serde_json = "1"
zip = { version = "*", default-features = false, features = ["deflate"] }
