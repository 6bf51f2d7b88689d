[package]
name = "fyrnwita"
version = "0.1.0"
edition = "2021"
publish = false

[dependencies]
rand = "0.8"
time = { version = "0.3", features = ["formatting"] }
serde = { version = "1", features = ["derive"] }
serde_json = "1"
serenity = "0.11"
sqlx = { version = "0.7", features = ["sqlite", "runtime-tokio"] }
tokio = { version = "1", features = ["macros", "rt-multi-thread"] }
