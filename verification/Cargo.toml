[package]
name = "user_management"
version = "0.1.0"
edition = "2021"
publish = false

[dependencies]
jsonwebtoken = { version = "=11.1.0", default-features = false, features = ["rust_crypto"] }
argon2 = "=0.6.0"
rand = "=0.8.8"
rusqlite = { version = "=0.40.2", features = ["bundled"] }
chrono = "=0.4.45"
