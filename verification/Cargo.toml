[package]
name = "search_sql"
version = "0.1.0"
edition = "2021"
publish = false

[dependencies]
rusqlite = { version = "=0.41.0", features = ["functions"] }
sha1 = "=0.10.7"
