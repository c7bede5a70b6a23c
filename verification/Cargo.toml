[package]
name = "devknife-core"
version = "0.1.0"
edition = "2021"
publish = false

[dependencies]
serde_json = "1"
serde_yml = "0.0.12"
jsonpath-rfc9535 = "*"
uuid = { version = "1", features = ["v4"] }
serde = { version = "1", features = ["derive"] }
clap = { version = "4", features = ["derive"] }
anyhow = "1"
