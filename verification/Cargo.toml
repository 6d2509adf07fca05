[package]
name = "session_auth"
version = "0.1.0"
edition = "2021"
publish = false

[dependencies]
jsonwebtoken = "9"
bcrypt = "0.15"
rocket = { version = "0.5", features = ["json"] }
serde = { version = "1", features = ["derive"] }
dotenvy = "0.15"
sea-orm = { version = "1", default-features = false, features = ["macros"] }

[dev-dependencies]
serde_json = "1"
