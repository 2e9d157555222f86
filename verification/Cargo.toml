[package]
name = "erised"
version = "0.1.0"
edition = "2021"
publish = false

[dependencies]
chrono = "*"
dateparser = "*"
log = "*"
rand = "*"
reqwest = { version = "*", default-features = false, features = ["blocking", "json"] }
rusqlite = { version = "*", features = ["bundled"] }
serde = { version = "*", features = ["derive"] }
simple-logging = "*"
