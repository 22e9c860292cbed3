[package]
name = "hackstore"
version = "0.1.0"
edition = "2021"
publish = false

[dependencies]
couch_rs = "*"
http = "*"
serde = { version = "*", features = ["derive"] }
serde_json = "*"
tokio = { version = "*", features = ["rt-multi-thread", "macros"] }
uuid = { version = "*", features = ["v4", "serde"] }
