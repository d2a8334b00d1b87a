[package]
name = "ellidri"
version = "0.1.0"
edition = "2021"
publish = false

[dependencies]
base64 = "0.13"
log = "0.4"
r2d2 = "0.8"
r2d2_postgres = "*"
r2d2_sqlite = "*"
rusqlite = "*"
slab = "0.4"
tokio = { version = "1", features = ["sync"] }
tokio-postgres = "*"
