[package]
name = "tcp_chat"
version = "0.1.0"
edition = "2021"
publish = false

[dependencies]
ctrlc = "3"
dns-lookup = "*"
serde = { version = "1", features = ["derive"] }
serde_json = "1"
