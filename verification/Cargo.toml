[package]
name = "tincmgr"
version = "0.1.0"
edition = "2021"
publish = false

[dependencies]
actix-web = { version = "0.7", default-features = false }
log = "0.4"
serde = { version = "1", features = ["derive"] }
serde_json = "1"
