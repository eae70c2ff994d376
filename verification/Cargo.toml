[package]
name = "stress_ref"
version = "0.2.0"
edition = "2021"
publish = false

[dependencies]
serde = { version = "1", features = ["derive"] }
serde_json = "1"
statrs = "*"
ureq = { version = "2", default-features = false, features = ["json"] }
