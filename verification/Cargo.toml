[package]
name = "k9"
version = "0.1.0"
edition = "2021"
publish = false

[dependencies]
http = "=1.5.0"
lazy_static = "=1.5.1"
reqwest = { version = "=0.13.5", default-features = false, features = ["json", "query"] }
serde = "=1.0.229"
thiserror = "=2.0.21"
