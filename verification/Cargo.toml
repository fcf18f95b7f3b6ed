[package]
name = "ferric-alpha"
version = "0.1.0"
edition = "2021"
publish = false

[dependencies]
polars = { version = "*", default-features = false, features = ["fmt", "dtype-datetime", "dtype-date", "timezones"] }
serde = { version = "1", features = ["derive"] }
serde_json = "1"
statrs = "*"
chrono = "0.4"
chrono-tz = "*"
thiserror = "2"
