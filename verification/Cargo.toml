[package]
name = "tlm_server"
version = "0.1.0"
edition = "2021"
publish = false

[dependencies]
actix-web = "=4.18.1"
actix-multipart = "=0.8.5"
actix-session = "=0.11.0"
futures-util = "=0.3.34"
rusqlite = { version = "=0.41.1", features = ["blob"] }
barrel = { version = "=0.7.0", features = ["sqlite3"] }
serde = { version = "=1.0.229", features = ["derive"] }
serde_json = "=1.0.154"
uuid = { version = "=1.29.1", features = ["v4"] }
log = "=0.4.35"
