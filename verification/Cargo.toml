[package]
name = "ducia"
version = "0.1.0"
edition = "2021"
publish = false

[dependencies]
serde = { version = "1", features = ["derive"] }
serde_json = "1"
uuid = { version = "1", features = ["v4"] }
bcrypt = "0.15"
jsonwebtoken = "9"
chrono = "0.4"
pulldown-cmark = "0.12"
rusqlite = { version = "0.31", features = ["bundled"] }
actix-web = "4"
actix-cors = "0.7"
actix-files = "0.6"
tokio = { version = "1", features = ["full"] }
async-trait = "0.1"
anyhow = "1"
once_cell = "1"
